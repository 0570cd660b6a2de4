pub mod decode;
pub mod encode;

use vstd::prelude::*;
use vstd::utf8::encode_utf8;

use super::writer::{bytes_result, copy_range, write_bytes};

use vstd::string::*;
use super::text::{decimal, push_decimal};

verus! {

/// Errors of the protobuf codec and of reading values out of decoded elements.
#[derive(Debug, Clone, Copy, PartialEq, Eq)]
pub enum ProtobufError {
    InvalidType(u32),
    ItemNotFound(u32),
    NotInteger,
    NotDouble,
    NotBytes,
    NotString,
    NotArray,
    NotObject,
    /// The input ended inside a field.
    UnexpectedEof,
    /// A varint runs over ten bytes.
    IncorrectVarint,
}

/// A protobuf field value. `Double` holds the bits of the IEEE-754 number (`f64::to_bits`).
#[derive(Debug)]
pub enum ProtobufElement {
    Null,
    Integer(isize),
    Double(u64),
    Bytes(Vec<u8>),
    String(String),
    Array(Vec<ProtobufElement>),
    Object(ProtobufObject),
}

/// A protobuf message: values by field number, in the order they were read or set; they are written
/// in ascending order of their numbers. The fields that decoding and the constructors give hold
/// each number once (see `distinct_tags`).
#[derive(Debug)]
pub struct ProtobufObject {
    pub fields: Vec<(u32, ProtobufElement)>,
}

/// The mathematical value of a field value.
pub enum PbValue {
    Null,
    Integer(isize),
    Double(u64),
    Bytes(Seq<u8>),
    String(Seq<char>),
    Array(Seq<PbValue>),
    Object(Seq<(u32, PbValue)>),
}

pub open spec fn pb_view(e: ProtobufElement) -> PbValue
    decreases e,
{
    match e {
        ProtobufElement::Null => PbValue::Null,
        ProtobufElement::Integer(v) => PbValue::Integer(v),
        ProtobufElement::Double(v) => PbValue::Double(v),
        ProtobufElement::Bytes(b) => PbValue::Bytes(b@),
        ProtobufElement::String(c) => PbValue::String(c@),
        ProtobufElement::Array(l) => PbValue::Array(pb_list_view(l@)),
        ProtobufElement::Object(o) => PbValue::Object(pb_fields_view(o.fields@)),
    }
}

pub open spec fn pb_list_view(s: Seq<ProtobufElement>) -> Seq<PbValue>
    decreases s,
{
    if s.len() == 0 {
        Seq::empty()
    } else {
        pb_list_view(s.subrange(0, s.len() - 1)).push(pb_view(s[s.len() - 1]))
    }
}

pub open spec fn pb_fields_view(s: Seq<(u32, ProtobufElement)>) -> Seq<(u32, PbValue)>
    decreases s,
{
    if s.len() == 0 {
        Seq::empty()
    } else {
        pb_fields_view(s.subrange(0, s.len() - 1)).push((s[s.len() - 1].0, pb_view(s[s.len() - 1].1)))
    }
}

impl View for ProtobufElement {
    type V = PbValue;

    open spec fn view(&self) -> PbValue {
        pb_view(*self)
    }
}

impl View for ProtobufObject {
    type V = Seq<(u32, PbValue)>;

    open spec fn view(&self) -> Seq<(u32, PbValue)> {
        pb_fields_view(self.fields@)
    }
}

pub proof fn lemma_pb_list_view(s: Seq<ProtobufElement>)
    ensures
        pb_list_view(s).len() == s.len(),
        forall|i: int| 0 <= i < s.len() ==> #[trigger] pb_list_view(s)[i] == s[i]@,
    decreases s.len(),
{
    if s.len() > 0 {
        lemma_pb_list_view(s.subrange(0, s.len() - 1));
    }
}

pub proof fn lemma_pb_fields_view(s: Seq<(u32, ProtobufElement)>)
    ensures
        pb_fields_view(s).len() == s.len(),
        forall|i: int| 0 <= i < s.len() ==> #[trigger] pb_fields_view(s)[i] == (s[i].0, s[i].1@),
    decreases s.len(),
{
    if s.len() > 0 {
        lemma_pb_fields_view(s.subrange(0, s.len() - 1));
    }
}

// ---------------------------------------------------------------------------------------------
// Wire format
// ---------------------------------------------------------------------------------------------

/// The base-128 varint of `n`: seven bits per byte, least significant first, the high bit set on
/// every byte but the last.
pub open spec fn varint(n: u64) -> Seq<u8>
    decreases n,
{
    if n < 128 {
        seq![n as u8]
    } else {
        seq![(n % 128 + 128) as u8] + varint(n / 128)
    }
}

/// The little-endian bytes of a 64-bit number.
pub open spec fn le_u64(n: u64) -> Seq<u8> {
    seq![
        n as u8,
        (n >> 8u64) as u8,
        (n >> 16u64) as u8,
        (n >> 24u64) as u8,
        (n >> 32u64) as u8,
        (n >> 40u64) as u8,
        (n >> 48u64) as u8,
        (n >> 56u64) as u8,
    ]
}

/// Zigzag form of a signed number: 0, -1, 1, -2, ... become 0, 1, 2, 3, ...
pub open spec fn zigzag(v: i64) -> u64 {
    if v >= 0 {
        (2 * v) as u64
    } else {
        (-2 * v - 1) as u64
    }
}

/// The key of a field: its number times 8 plus the wire type.
pub open spec fn field_key(tag: u32, wire_type: u32) -> u64 {
    (tag * 8 + wire_type) as u64
}

/// The field numbers that can be written: 1 to 2^29 - 1.
pub open spec fn tag_ok(tag: u32) -> bool {
    1 <= tag < 0x2000_0000
}

/// Whether every field number in a value can be written.
pub open spec fn pb_tags_ok(v: PbValue) -> bool
    decreases v,
{
    match v {
        PbValue::Array(l) => pb_list_tags_ok(l),
        PbValue::Object(f) => pb_fields_tags_ok(f),
        _ => true,
    }
}

/// Whether every field number in each value of a list can be written.
pub open spec fn pb_list_tags_ok(l: Seq<PbValue>) -> bool
    decreases l,
{
    if l.len() == 0 {
        true
    } else {
        pb_list_tags_ok(l.subrange(0, l.len() - 1)) && pb_tags_ok(l[l.len() - 1])
    }
}

/// Whether the number of a field, and every field number within its value, can be written.
pub open spec fn field_tags_ok(field: (u32, PbValue)) -> bool {
    tag_ok(field.0) && pb_tags_ok(field.1)
}

/// Whether every field number of a message, and within its values, can be written.
pub open spec fn pb_fields_tags_ok(f: Seq<(u32, PbValue)>) -> bool
    decreases f,
{
    if f.len() == 0 {
        true
    } else {
        pb_fields_tags_ok(f.subrange(0, f.len() - 1)) && tag_ok(f[f.len() - 1].0) && pb_tags_ok(f[f.len() - 1].1)
    }
}

pub proof fn lemma_pb_list_tags_ok(l: Seq<PbValue>)
    ensures
        pb_list_tags_ok(l) <==> forall|i: int| 0 <= i < l.len() ==> pb_tags_ok(#[trigger] l[i]),
    decreases l.len(),
{
    if l.len() > 0 {
        let p = l.subrange(0, l.len() - 1);
        lemma_pb_list_tags_ok(p);
        if pb_list_tags_ok(l) {
            assert forall|i: int| 0 <= i < l.len() implies pb_tags_ok(#[trigger] l[i]) by {
                if i < l.len() - 1 {
                    assert(p[i] == l[i]);
                }
            }
        }
        if forall|i: int| 0 <= i < l.len() ==> pb_tags_ok(#[trigger] l[i]) {
            assert forall|i: int| 0 <= i < p.len() implies pb_tags_ok(#[trigger] p[i]) by {
                assert(p[i] == l[i]);
            }
        }
    }
}

pub proof fn lemma_pb_fields_tags_ok(f: Seq<(u32, PbValue)>)
    ensures
        pb_fields_tags_ok(f) <==> forall|i: int| 0 <= i < f.len() ==> field_tags_ok(#[trigger] f[i]),
    decreases f.len(),
{
    if f.len() > 0 {
        let p = f.subrange(0, f.len() - 1);
        lemma_pb_fields_tags_ok(p);
        if pb_fields_tags_ok(f) {
            assert forall|i: int| 0 <= i < f.len() implies field_tags_ok(#[trigger] f[i]) by {
                if i < f.len() - 1 {
                    assert(p[i] == f[i]);
                } else {
                    assert(i == f.len() - 1);
                }
            }
        }
        if forall|i: int| 0 <= i < f.len() ==> field_tags_ok(#[trigger] f[i]) {
            assert forall|i: int| 0 <= i < p.len() implies field_tags_ok(#[trigger] p[i]) by {
                assert(p[i] == f[i]);
            }
        }
    }
}

/// The bytes of field `tag` holding `v`. A negative integer is written zigzag (wire type 0), a
/// non-negative one as a plain varint (wire type 0), a double as eight little-endian bytes (wire
/// type 1), bytes, strings and messages with a length (wire type 2); `Null` writes nothing and an
/// array writes each of its values as the same field.
pub open spec fn pb_encode_element(tag: u32, v: PbValue) -> Seq<u8>
    decreases v,
{
    match v {
        PbValue::Null => Seq::empty(),
        PbValue::Integer(x) => if x < 0 {
            varint(field_key(tag, 0)) + varint(zigzag(x as i64))
        } else {
            varint(field_key(tag, 0)) + varint(x as u64)
        },
        PbValue::Double(b) => varint(field_key(tag, 1)) + le_u64(b),
        PbValue::Bytes(b) => varint(field_key(tag, 2)) + varint((b.len() as u32) as u64) + b,
        PbValue::String(c) => varint(field_key(tag, 2)) + varint((encode_utf8(c).len() as u32) as u64) + encode_utf8(c),
        PbValue::Array(l) => pb_encode_array(tag, l),
        PbValue::Object(f) => {
            let body = pb_encode_fields(f);
            varint(field_key(tag, 2)) + varint((body.len() as u32) as u64) + body
        },
    }
}

/// Each value of an array written as field `tag`, in order.
pub open spec fn pb_encode_array(tag: u32, l: Seq<PbValue>) -> Seq<u8>
    decreases l,
{
    if l.len() == 0 {
        Seq::empty()
    } else {
        pb_encode_array(tag, l.subrange(0, l.len() - 1)) + pb_encode_element(tag, l[l.len() - 1])
    }
}

/// The fields of a message, in order.
pub open spec fn pb_encode_fields(f: Seq<(u32, PbValue)>) -> Seq<u8>
    decreases f,
{
    if f.len() == 0 {
        Seq::empty()
    } else {
        let last = f[f.len() - 1];
        pb_encode_fields(f.subrange(0, f.len() - 1)) + pb_encode_element(last.0, last.1)
    }
}


/// A value as it is written: the fields of each message, at every depth, in ascending order of
/// their numbers (see `by_tag`).
pub open spec fn pb_ordered(v: PbValue) -> PbValue
    decreases v,
{
    match v {
        PbValue::Array(l) => PbValue::Array(pb_ordered_list(l)),
        PbValue::Object(f) => PbValue::Object(by_tag(pb_ordered_fields(f))),
        _ => v,
    }
}

/// `pb_ordered` of each value of a list.
pub open spec fn pb_ordered_list(l: Seq<PbValue>) -> Seq<PbValue>
    decreases l,
{
    if l.len() == 0 {
        Seq::empty()
    } else {
        pb_ordered_list(l.subrange(0, l.len() - 1)).push(pb_ordered(l[l.len() - 1]))
    }
}

/// `pb_ordered` of the value of each field, the fields where they stand.
pub open spec fn pb_ordered_fields(f: Seq<(u32, PbValue)>) -> Seq<(u32, PbValue)>
    decreases f,
{
    if f.len() == 0 {
        Seq::empty()
    } else {
        pb_ordered_fields(f.subrange(0, f.len() - 1)).push((f[f.len() - 1].0, pb_ordered(f[f.len() - 1].1)))
    }
}

/// The bytes of a message: its fields, at every depth, in ascending order of their numbers.
pub open spec fn pb_message_bytes(f: Seq<(u32, PbValue)>) -> Seq<u8> {
    pb_encode_fields(by_tag(pb_ordered_fields(f)))
}

proof fn lemma_pb_ordered_list(l: Seq<PbValue>)
    ensures
        pb_ordered_list(l).len() == l.len(),
        forall|i: int| 0 <= i < l.len() ==> #[trigger] pb_ordered_list(l)[i] == pb_ordered(l[i]),
    decreases l.len(),
{
    if l.len() > 0 {
        lemma_pb_ordered_list(l.subrange(0, l.len() - 1));
    }
}

proof fn lemma_pb_ordered_fields(f: Seq<(u32, PbValue)>)
    ensures
        pb_ordered_fields(f).len() == f.len(),
        forall|i: int| 0 <= i < f.len() ==> #[trigger] pb_ordered_fields(f)[i] == (f[i].0, pb_ordered(f[i].1)),
        field_tags(pb_ordered_fields(f)) == field_tags(f),
    decreases f.len(),
{
    if f.len() > 0 {
        lemma_pb_ordered_fields(f.subrange(0, f.len() - 1));
    }
    assert(field_tags(pb_ordered_fields(f)) =~= field_tags(f));
}

// ---------------------------------------------------------------------------------------------
// Fields in ascending order of their numbers
// ---------------------------------------------------------------------------------------------

/// The numbers of the fields, in the order they stand.
pub open spec fn field_tags<V>(f: Seq<(u32, V)>) -> Seq<u32> {
    Seq::new(f.len(), |i: int| f[i].0)
}

/// The positions `o` (into numbers `t`) with position `k` put after the last one whose number is
/// at most `t[k]`.
pub open spec fn order_insert(o: Seq<int>, t: Seq<u32>, k: int) -> Seq<int>
    decreases o.len(),
{
    if o.len() == 0 {
        seq![k]
    } else if t[o.last()] <= t[k] {
        o.push(k)
    } else {
        order_insert(o.drop_last(), t, k).push(o.last())
    }
}

/// The positions of the numbers `t` in ascending order of the numbers, equal numbers in the
/// order they stand (a stable sort).
pub open spec fn tag_order(t: Seq<u32>) -> Seq<int>
    decreases t.len(),
{
    if t.len() == 0 {
        Seq::empty()
    } else {
        order_insert(tag_order(t.drop_last()), t, t.len() - 1)
    }
}

/// The fields in ascending order of their numbers, fields of one number in the order they stand.
pub open spec fn by_tag<V>(f: Seq<(u32, V)>) -> Seq<(u32, V)> {
    let o = tag_order(field_tags(f));
    Seq::new(o.len(), |j: int| f[o[j]])
}

/// Whether the numbers do not go down.
pub open spec fn tags_ascending<V>(f: Seq<(u32, V)>) -> bool {
    forall|i: int, j: int| 0 <= i < j < f.len() ==> #[trigger] f[i].0 <= #[trigger] f[j].0
}

/// Putting `k` after the last entry whose number is at most its own is inserting it at `p`,
/// where the entries from `p` on have greater numbers and the one before has not.
proof fn lemma_order_insert_at(o: Seq<int>, t: Seq<u32>, k: int, p: int)
    requires
        0 <= p <= o.len(),
        forall|m: int| p <= m < o.len() ==> t[#[trigger] o[m]] > t[k],
        p > 0 ==> t[o[p - 1]] <= t[k],
    ensures
        order_insert(o, t, k) == o.insert(p, k),
    decreases o.len(),
{
    if o.len() == 0 {
        assert(o.insert(p, k) =~= seq![k]);
    } else if t[o.last()] <= t[k] {
        if p < o.len() {
            assert(t[o[o.len() - 1]] > t[k]);
        }
        assert(o.insert(p, k) =~= o.push(k));
    } else {
        assert(p < o.len());
        let d = o.drop_last();
        assert forall|m: int| p <= m < d.len() implies t[#[trigger] d[m]] > t[k] by {
            assert(d[m] == o[m]);
        }
        if p > 0 {
            assert(d[p - 1] == o[p - 1]);
        }
        lemma_order_insert_at(d, t, k, p);
        assert(d.insert(p, k).push(o.last()) =~= o.insert(p, k));
    }
}

/// Order insertion looks at the numbers of the positions involved only.
proof fn lemma_order_insert_tags(o: Seq<int>, t1: Seq<u32>, t2: Seq<u32>, k: int)
    requires
        0 <= k < t1.len() && k < t2.len() && t1[k] == t2[k],
        forall|m: int| 0 <= m < o.len() ==> 0 <= #[trigger] o[m] < t1.len() && o[m] < t2.len() && t1[o[m]] == t2[o[m]],
    ensures
        order_insert(o, t1, k) == order_insert(o, t2, k),
    decreases o.len(),
{
    if o.len() > 0 {
        let d = o.drop_last();
        assert(o.last() == o[o.len() - 1]);
        assert forall|m: int| 0 <= m < d.len() implies 0 <= #[trigger] d[m] < t1.len() && d[m] < t2.len() && t1[d[m]] == t2[d[m]] by {
            assert(d[m] == o[m]);
        }
        lemma_order_insert_tags(d, t1, t2, k);
    }
}

/// What order insertion gives: one more entry, `k`, among those it had.
proof fn lemma_order_insert_entries(o: Seq<int>, t: Seq<u32>, k: int)
    ensures
        order_insert(o, t, k).len() == o.len() + 1,
        forall|j: int| 0 <= j < o.len() + 1 ==> #[trigger] order_insert(o, t, k)[j] == k
            || exists|m: int| 0 <= m < o.len() && order_insert(o, t, k)[j] == #[trigger] o[m],
    decreases o.len(),
{
    if o.len() > 0 && !(t[o.last()] <= t[k]) {
        let d = o.drop_last();
        lemma_order_insert_entries(d, t, k);
        let r = order_insert(o, t, k);
        assert forall|j: int| 0 <= j < o.len() + 1 implies #[trigger] r[j] == k
            || exists|m: int| 0 <= m < o.len() && r[j] == #[trigger] o[m] by {
            if j < o.len() {
                if order_insert(d, t, k)[j] != k {
                    let m = choose|m: int| 0 <= m < d.len() && order_insert(d, t, k)[j] == #[trigger] d[m];
                    assert(d[m] == o[m]);
                }
            } else {
                assert(r[j] == o[o.len() - 1]);
            }
        }
    } else if o.len() > 0 {
        let r = order_insert(o, t, k);
        assert forall|j: int| 0 <= j < o.len() + 1 implies #[trigger] r[j] == k
            || exists|m: int| 0 <= m < o.len() && r[j] == #[trigger] o[m] by {
            if j < o.len() {
                assert(r[j] == o[j]);
            }
        }
    }
}

/// The order of `n` numbers holds `n` positions, each below `n`.
pub proof fn lemma_tag_order_range(t: Seq<u32>)
    ensures
        tag_order(t).len() == t.len(),
        forall|j: int| 0 <= j < t.len() ==> 0 <= #[trigger] tag_order(t)[j] < t.len(),
    decreases t.len(),
{
    if t.len() > 0 {
        let d = t.drop_last();
        lemma_tag_order_range(d);
        lemma_order_insert_entries(tag_order(d), t, t.len() - 1);
        assert forall|j: int| 0 <= j < t.len() implies 0 <= #[trigger] tag_order(t)[j] < t.len() by {
            let r = tag_order(t);
            if r[j] != t.len() - 1 {
                let m = choose|m: int| 0 <= m < tag_order(d).len() && r[j] == #[trigger] tag_order(d)[m];
            }
        }
    }
}

/// Numbers that do not go down keep their order.
pub proof fn lemma_tag_order_of_ascending(t: Seq<u32>)
    requires
        forall|i: int, j: int| 0 <= i < j < t.len() ==> #[trigger] t[i] <= #[trigger] t[j],
    ensures
        tag_order(t) == Seq::new(t.len(), |i: int| i),
    decreases t.len(),
{
    if t.len() > 0 {
        let d = t.drop_last();
        assert forall|i: int, j: int| 0 <= i < j < d.len() implies #[trigger] d[i] <= #[trigger] d[j] by {
            assert(d[i] == t[i] && d[j] == t[j]);
        }
        lemma_tag_order_of_ascending(d);
        let o = tag_order(d);
        if o.len() > 0 {
            assert(o.last() == t.len() - 2);
            assert(t[t.len() - 2] <= t[t.len() - 1]);
        }
        assert(order_insert(o, t, t.len() - 1) =~= Seq::new(t.len(), |i: int| i));
    }
}

/// Fields whose numbers do not go down are already in order.
pub proof fn lemma_by_tag_of_ascending<V>(f: Seq<(u32, V)>)
    requires
        tags_ascending(f),
    ensures
        by_tag(f) == f,
{
    let t = field_tags(f);
    assert forall|i: int, j: int| 0 <= i < j < t.len() implies #[trigger] t[i] <= #[trigger] t[j] by {
        assert(t[i] == f[i].0 && t[j] == f[j].0);
    }
    lemma_tag_order_of_ascending(t);
    assert(by_tag(f) =~= f);
}

/// The positions of the fields in ascending order of their numbers (see `tag_order`).
pub(crate) fn order_of<V>(fields: &Vec<(u32, V)>) -> (ord: Vec<usize>)
    ensures
        ord@.len() == fields@.len(),
        forall|j: int| 0 <= j < ord@.len() ==> #[trigger] ord@[j] as int == tag_order(field_tags(fields@))[j],
{
    let n: usize = fields.len();
    let ghost t = field_tags(fields@);
    let mut ord: Vec<usize> = Vec::new();
    let mut k: usize = 0;
    while k < n
        invariant
            n == fields@.len(),
            t == field_tags(fields@),
            k <= n,
            ord@.len() == k,
            tag_order(t.take(k as int)).len() == k,
            forall|j: int| 0 <= j < k ==> #[trigger] ord@[j] as int == tag_order(t.take(k as int))[j],
            forall|j: int| 0 <= j < k ==> #[trigger] ord@[j] < k,
        decreases n - k,
    {
        let tag = fields[k].0;
        let mut p: usize = k;
        while p > 0 && fields[ord[p - 1]].0 > tag
            invariant
                n == fields@.len(),
                t == field_tags(fields@),
                k < n,
                p <= k,
                ord@.len() == k,
                tag == t[k as int],
                forall|j: int| 0 <= j < k ==> #[trigger] ord@[j] < k,
                forall|m: int| p <= m < k ==> t[#[trigger] ord@[m] as int] > tag,
            decreases p,
        {
            p = p - 1;
        }
        proof {
            let tk = t.take(k as int);
            let tk1 = t.take(k as int + 1);
            let o = tag_order(tk);
            assert(tk1.drop_last() =~= tk);
            lemma_tag_order_range(tk);
            assert forall|m: int| 0 <= m < o.len() implies 0 <= #[trigger] o[m] < tk1.len() && o[m] < t.len() && tk1[o[m]] == t[o[m]] by {
                assert(o[m] == ord@[m] as int);
            }
            lemma_order_insert_tags(o, tk1, t, k as int);
            assert forall|m: int| p <= m < o.len() implies t[#[trigger] o[m]] > t[k as int] by {
                assert(o[m] == ord@[m] as int);
            }
            if p > 0 {
                assert(o[p - 1] == ord@[p - 1] as int);
            }
            lemma_order_insert_at(o, t, k as int, p as int);
        }
        let ghost before = ord@;
        ord.insert(p, k);
        proof {
            let o = tag_order(t.take(k as int));
            let r = tag_order(t.take(k as int + 1));
            assert(r == o.insert(p as int, k as int));
            assert(ord@ == before.insert(p as int, k));
            assert forall|j: int| 0 <= j < k + 1 implies #[trigger] ord@[j] as int == r[j] && ord@[j] < k + 1 by {
                if j < p {
                    assert(ord@[j] == before[j]);
                } else if j > p {
                    assert(ord@[j] == before[j - 1]);
                }
            }
        }
        k = k + 1;
    }
    assert(t.take(n as int) =~= t);
    ord
}

pub(crate) fn write_varint(out: &mut Vec<u8>, n: u64)
    ensures
        final(out)@ == old(out)@ + varint(n),
{
    let mut m = n;
    while m >= 128
        invariant
            out@ + varint(m) == old(out)@ + varint(n),
        decreases m,
    {
        let ghost before = out@;
        out.push((m % 128 + 128) as u8);
        assert(before + varint(m) =~= out@ + varint(m / 128));
        m = m / 128;
    }
    let ghost before = out@;
    out.push(m as u8);
    assert(out@ =~= before + varint(m));
}

pub(crate) fn write_le_u64(out: &mut Vec<u8>, n: u64)
    ensures
        final(out)@ == old(out)@ + le_u64(n),
{
    out.push(n as u8);
    out.push((n >> 8u64) as u8);
    out.push((n >> 16u64) as u8);
    out.push((n >> 24u64) as u8);
    out.push((n >> 32u64) as u8);
    out.push((n >> 40u64) as u8);
    out.push((n >> 48u64) as u8);
    out.push((n >> 56u64) as u8);
    assert(final(out)@ =~= old(out)@ + le_u64(n));
}

pub(crate) fn zigzag_of(v: i64) -> (z: u64)
    ensures
        z == zigzag(v),
{
    if v >= 0 {
        (v as u64) * 2
    } else {
        ((-(v + 1)) as u64) * 2 + 1
    }
}

/// Writes field `tag` holding `element`, the fields of messages within it in ascending order of
/// their numbers (see `pb_encode_element` and `pb_ordered`).
pub fn encode_element(writer: &mut Vec<u8>, tag: u32, element: &ProtobufElement) -> (r: Result<(), ProtobufError>)
    requires
        tag_ok(tag),
        pb_tags_ok(element@),
    ensures
        r is Ok,
        final(writer)@ == old(writer)@ + pb_encode_element(tag, pb_ordered(element@)),
    decreases element,
{
    let ghost start = writer@;
    match element {
        ProtobufElement::Null => {},
        ProtobufElement::Integer(value) => {
            write_varint(writer, (tag as u64) * 8);
            if *value < 0 {
                write_varint(writer, zigzag_of(*value as i64));
            } else {
                write_varint(writer, *value as u64);
            }
        },
        ProtobufElement::Double(value) => {
            write_varint(writer, (tag as u64) * 8 + 1);
            write_le_u64(writer, *value);
        },
        ProtobufElement::Bytes(value) => {
            write_varint(writer, (tag as u64) * 8 + 2);
            write_varint(writer, (value.len() as u32) as u64);
            write_bytes(writer, value.as_slice());
        },
        ProtobufElement::String(value) => {
            let b = value.as_str().as_bytes();
            write_varint(writer, (tag as u64) * 8 + 2);
            write_varint(writer, (b.len() as u32) as u64);
            write_bytes(writer, b);
        },
        ProtobufElement::Array(value) => {
            proof {
                lemma_pb_list_tags_ok(pb_list_view(value@));
            }
            encode_array_into(writer, tag, value);
        },
        ProtobufElement::Object(value) => {
            let mut body: Vec<u8> = Vec::new();
            proof {
                lemma_pb_fields_tags_ok(pb_fields_view(value.fields@));
            }
            encode_fields_into(&mut body, &value.fields);
            write_varint(writer, (tag as u64) * 8 + 2);
            write_varint(writer, (body.len() as u32) as u64);
            write_bytes(writer, body.as_slice());
        },
    }
    assert(writer@ =~= start + pb_encode_element(tag, pb_ordered(element@)));
    Ok(())
}

fn encode_array_into(writer: &mut Vec<u8>, tag: u32, items: &Vec<ProtobufElement>)
    requires
        tag_ok(tag),
        forall|i: int| 0 <= i < pb_list_view(items@).len() ==> pb_tags_ok(#[trigger] pb_list_view(items@)[i]),
    ensures
        final(writer)@ == old(writer)@ + pb_encode_array(tag, pb_ordered_list(pb_list_view(items@))),
    decreases items,
{
    proof {
        lemma_pb_list_view(items@);
        lemma_pb_ordered_list(pb_list_view(items@));
    }
    let mut i: usize = 0;
    while i < items.len()
        invariant
            tag_ok(tag),
            i <= items@.len(),
            pb_list_view(items@).len() == items@.len(),
            forall|j: int| 0 <= j < items@.len() ==> #[trigger] pb_list_view(items@)[j] == items@[j]@,
            forall|j: int| 0 <= j < pb_list_view(items@).len() ==> pb_tags_ok(#[trigger] pb_list_view(items@)[j]),
            pb_ordered_list(pb_list_view(items@)).len() == items@.len(),
            forall|j: int| 0 <= j < items@.len() ==> #[trigger] pb_ordered_list(pb_list_view(items@))[j] == pb_ordered(pb_list_view(items@)[j]),
            writer@ == old(writer)@ + pb_encode_array(tag, pb_ordered_list(pb_list_view(items@)).subrange(0, i as int)),
        decreases items@.len() - i,
    {
        assert(pb_tags_ok(pb_list_view(items@)[i as int]));
        let _ = encode_element(writer, tag, &items[i]);
        proof {
            let lv = pb_ordered_list(pb_list_view(items@));
            assert(lv.subrange(0, i + 1).subrange(0, i as int) =~= lv.subrange(0, i as int));
            assert(lv[i as int] == pb_ordered(items@[i as int]@));
        }
        i = i + 1;
    }
    assert(pb_ordered_list(pb_list_view(items@)).subrange(0, items@.len() as int) =~= pb_ordered_list(pb_list_view(items@)));
}

fn encode_fields_into(writer: &mut Vec<u8>, fields: &Vec<(u32, ProtobufElement)>)
    requires
        forall|i: int| 0 <= i < pb_fields_view(fields@).len() ==> field_tags_ok(#[trigger] pb_fields_view(fields@)[i]),
    ensures
        final(writer)@ == old(writer)@ + pb_message_bytes(pb_fields_view(fields@)),
    decreases fields,
{
    let ghost fv = pb_fields_view(fields@);
    let ghost of = pb_ordered_fields(fv);
    let ghost sorted = by_tag(of);
    proof {
        lemma_pb_fields_view(fields@);
        lemma_pb_ordered_fields(fv);
        lemma_tag_order_range(field_tags(of));
        assert(field_tags(fields@) =~= field_tags(fv));
    }
    let ord = order_of(fields);
    let n: usize = ord.len();
    let mut j: usize = 0;
    while j < n
        invariant
            n == ord@.len(),
            n == fields@.len(),
            fv == pb_fields_view(fields@),
            of == pb_ordered_fields(fv),
            sorted == by_tag(of),
            sorted.len() == n,
            fv.len() == n,
            forall|m: int| 0 <= m < n ==> #[trigger] fv[m] == (fields@[m].0, fields@[m].1@),
            forall|m: int| 0 <= m < n ==> field_tags_ok(#[trigger] fv[m]),
            forall|m: int| 0 <= m < n ==> #[trigger] ord@[m] < n,
            forall|m: int| 0 <= m < n ==> #[trigger] sorted[m] == (fv[ord@[m] as int].0, pb_ordered(fv[ord@[m] as int].1)),
            j <= n,
            writer@ == old(writer)@ + pb_encode_fields(sorted.subrange(0, j as int)),
        decreases n - j,
    {
        let k = ord[j];
        let field = &fields[k];
        assert(field_tags_ok(fv[k as int]));
        let _ = encode_element(writer, field.0, &field.1);
        proof {
            assert(sorted.subrange(0, j + 1).subrange(0, j as int) =~= sorted.subrange(0, j as int));
            assert(sorted[j as int] == (field.0, pb_ordered(field.1@)));
        }
        j = j + 1;
    }
    assert(sorted.subrange(0, n as int) =~= sorted);
}

/// Whether every field number in `element` can be written (see `pb_tags_ok`).
pub fn element_tags_fit(element: &ProtobufElement) -> (b: bool)
    ensures
        b == pb_tags_ok(element@),
    decreases element,
{
    match element {
        ProtobufElement::Array(items) => list_tags_fit(items),
        ProtobufElement::Object(o) => fields_tags_fit(&o.fields),
        _ => true,
    }
}

fn list_tags_fit(items: &Vec<ProtobufElement>) -> (b: bool)
    ensures
        b == pb_list_tags_ok(pb_list_view(items@)),
    decreases items,
{
    proof {
        lemma_pb_list_view(items@);
        lemma_pb_list_tags_ok(pb_list_view(items@));
    }
    let mut i: usize = 0;
    while i < items.len()
        invariant
            i <= items@.len(),
            pb_list_view(items@).len() == items@.len(),
            forall|j: int| 0 <= j < items@.len() ==> #[trigger] pb_list_view(items@)[j] == items@[j]@,
            forall|j: int| 0 <= j < i ==> pb_tags_ok(#[trigger] pb_list_view(items@)[j]),
            pb_list_tags_ok(pb_list_view(items@)) <==> forall|j: int| 0 <= j < pb_list_view(items@).len() ==> pb_tags_ok(#[trigger] pb_list_view(items@)[j]),
        decreases items@.len() - i,
    {
        if !element_tags_fit(&items[i]) {
            assert(!pb_tags_ok(pb_list_view(items@)[i as int]));
            return false;
        }
        i = i + 1;
    }
    true
}

fn fields_tags_fit(fields: &Vec<(u32, ProtobufElement)>) -> (b: bool)
    ensures
        b == pb_fields_tags_ok(pb_fields_view(fields@)),
    decreases fields,
{
    proof {
        lemma_pb_fields_view(fields@);
        lemma_pb_fields_tags_ok(pb_fields_view(fields@));
    }
    let mut i: usize = 0;
    while i < fields.len()
        invariant
            i <= fields@.len(),
            pb_fields_view(fields@).len() == fields@.len(),
            forall|j: int| 0 <= j < fields@.len() ==> #[trigger] pb_fields_view(fields@)[j] == (fields@[j].0, fields@[j].1@),
            forall|j: int| 0 <= j < i ==> field_tags_ok(#[trigger] pb_fields_view(fields@)[j]),
            pb_fields_tags_ok(pb_fields_view(fields@)) <==> forall|j: int| 0 <= j < pb_fields_view(fields@).len() ==> field_tags_ok(#[trigger] pb_fields_view(fields@)[j]),
        decreases fields@.len() - i,
    {
        let tag = fields[i].0;
        if !(1 <= tag && tag < 0x2000_0000) || !element_tags_fit(&fields[i].1) {
            assert(!field_tags_ok(pb_fields_view(fields@)[i as int]));
            return false;
        }
        i = i + 1;
    }
    true
}

impl ProtobufObject {
    /// Whether every field number of the message, and within its values, can be written (see
    /// `pb_object_tags_ok`): what a caller tests before `encode`.
    pub fn tags_fit(&self) -> (b: bool)
        ensures
            b == pb_object_tags_ok(self@),
    {
        fields_tags_fit(&self.fields)
    }
}

/// Whether every field number of a message can be written.
pub open spec fn pb_object_tags_ok(f: Seq<(u32, PbValue)>) -> bool {
    pb_fields_tags_ok(f)
}

/// Writes the fields of `object`, at every depth in ascending order of their numbers (see
/// `pb_message_bytes`).
pub fn encode_stream(writer: &mut Vec<u8>, object: &ProtobufObject) -> (r: Result<(), ProtobufError>)
    requires
        pb_object_tags_ok(object@),
    ensures
        r is Ok,
        final(writer)@ == old(writer)@ + pb_message_bytes(object@),
{
    proof {
        lemma_pb_fields_tags_ok(object@);
    }
    encode_fields_into(writer, &object.fields);
    Ok(())
}

/// The bytes of `object` (the capacity is a hint only).
pub fn encode_with_capacity(object: &ProtobufObject, capacity: usize) -> (r: Result<Vec<u8>, ProtobufError>)
    requires
        pb_object_tags_ok(object@),
    ensures
        bytes_result(r) == Ok::<Seq<u8>, ProtobufError>(pb_message_bytes(object@)),
{
    let mut buf: Vec<u8> = Vec::with_capacity(capacity);
    proof {
        lemma_pb_fields_tags_ok(object@);
    }
    encode_fields_into(&mut buf, &object.fields);
    assert(buf@ =~= pb_message_bytes(object@));
    Ok(buf)
}

/// The bytes of `object`.
pub fn encode(object: &ProtobufObject) -> (r: Result<Vec<u8>, ProtobufError>)
    requires
        pb_object_tags_ok(object@),
    ensures
        bytes_result(r) == Ok::<Seq<u8>, ProtobufError>(pb_message_bytes(object@)),
{
    encode_with_capacity(object, 1024)
}


// ---------------------------------------------------------------------------------------------
// Reading
// ---------------------------------------------------------------------------------------------

/// The number that the varint bytes `d[pos..end]` carry: seven bits per byte, least significant
/// first.
pub open spec fn varint_value(d: Seq<u8>, pos: int, end: int) -> nat
    decreases end - pos,
{
    if pos >= end {
        0
    } else {
        (d[pos] % 128) as nat + 128 * varint_value(d, pos + 1, end)
    }
}

/// One past the last byte of the varint at `pos`, looked for from its byte `i` on. A varint has
/// `width` bytes at most: a byte under 128 ends it before that, and its last possible byte ends
/// it in any case but must be at most `last_max`. A 64-bit varint has ten bytes at most, the last
/// at most 1; a 32-bit one five, the last at most 15.
pub open spec fn varint_end(d: Seq<u8>, pos: int, i: nat, width: nat, last_max: u8) -> Result<int, ProtobufError>
    decreases width - i,
{
    if i >= width {
        Err(ProtobufError::IncorrectVarint)
    } else if pos + i >= d.len() {
        Err(ProtobufError::UnexpectedEof)
    } else if i + 1 == width {
        if d[pos + i] > last_max {
            Err(ProtobufError::IncorrectVarint)
        } else {
            Ok(pos + i + 1)
        }
    } else if d[pos + i] < 128 {
        Ok(pos + i + 1)
    } else {
        varint_end(d, pos, i + 1, width, last_max)
    }
}

/// The 64-bit varint at `pos`: its number and where it ends.
pub open spec fn varint_at(d: Seq<u8>, pos: int) -> Result<(u64, int), ProtobufError> {
    match varint_end(d, pos, 0, 10, 1) {
        Err(e) => Err(e),
        Ok(end) => Ok(((varint_value(d, pos, end) % 0x1_0000_0000_0000_0000) as u64, end)),
    }
}

/// The 32-bit varint at `pos` (a key or a length): its number and where it ends.
pub open spec fn varint32_at(d: Seq<u8>, pos: int) -> Result<(u32, int), ProtobufError> {
    match varint_end(d, pos, 0, 5, 15) {
        Err(e) => Err(e),
        Ok(end) => Ok((((varint_value(d, pos, end) % 0x1_0000_0000_0000_0000) as u64) as u32, end)),
    }
}

/// The little-endian 64-bit number at `d[p..p + 8]`.
pub open spec fn le_u64_at(d: Seq<u8>, p: int) -> u64 {
    (d[p] as int + d[p + 1] as int * 0x100 + d[p + 2] as int * 0x1_0000 + d[p + 3] as int * 0x100_0000
        + d[p + 4] as int * 0x1_0000_0000 + d[p + 5] as int * 0x100_0000_0000
        + d[p + 6] as int * 0x1_0000_0000_0000 + d[p + 7] as int * 0x100_0000_0000_0000) as u64
}

/// The little-endian 32-bit number at `d[p..p + 4]`.
pub open spec fn le_u32_at(d: Seq<u8>, p: int) -> u32 {
    (d[p] as int + d[p + 1] as int * 0x100 + d[p + 2] as int * 0x1_0000 + d[p + 3] as int * 0x100_0000) as u32
}

/// A field's value as the wire carries it.
pub enum WireValue {
    Varint(u64),
    Fixed64(u64),
    Bytes(Vec<u8>),
    Fixed32(u32),
}

/// The mathematical value of a `WireValue`.
pub enum WireView {
    Varint(u64),
    Fixed64(u64),
    Bytes(Seq<u8>),
    Fixed32(u32),
}

impl View for WireValue {
    type V = WireView;

    open spec fn view(&self) -> WireView {
        match self {
            WireValue::Varint(v) => WireView::Varint(*v),
            WireValue::Fixed64(v) => WireView::Fixed64(*v),
            WireValue::Bytes(b) => WireView::Bytes(b@),
            WireValue::Fixed32(v) => WireView::Fixed32(*v),
        }
    }
}

/// The field at `pos`: its key (a 32-bit varint; the number is the key over 8, the wire type the
/// key modulo 8), its value by wire type (0 a varint, 1 eight bytes, 2 a 32-bit varint length
/// and that many bytes, 5 four bytes; any other is `InvalidType`), and where it ends.
pub open spec fn field_at(d: Seq<u8>, pos: int) -> Result<(u32, WireView, int), ProtobufError> {
    match varint32_at(d, pos) {
        Err(e) => Err(e),
        Ok((k, p1)) => {
            let tag = k / 8;
            let wire_type = k % 8;
            if wire_type == 0 {
                match varint_at(d, p1) {
                    Err(e) => Err(e),
                    Ok((v, p2)) => Ok((tag, WireView::Varint(v), p2)),
                }
            } else if wire_type == 1 {
                if p1 + 8 > d.len() {
                    Err(ProtobufError::UnexpectedEof)
                } else {
                    Ok((tag, WireView::Fixed64(le_u64_at(d, p1)), p1 + 8))
                }
            } else if wire_type == 2 {
                match varint32_at(d, p1) {
                    Err(e) => Err(e),
                    Ok((l32, p2)) => {
                        let l = l32 as int;
                        if p2 + l > d.len() {
                            Err(ProtobufError::UnexpectedEof)
                        } else {
                            Ok((tag, WireView::Bytes(d.subrange(p2, p2 + l)), p2 + l))
                        }
                    },
                }
            } else if wire_type == 5 {
                if p1 + 4 > d.len() {
                    Err(ProtobufError::UnexpectedEof)
                } else {
                    Ok((tag, WireView::Fixed32(le_u32_at(d, p1)), p1 + 4))
                }
            } else {
                Err(ProtobufError::InvalidType(wire_type))
            }
        },
    }
}

/// The element a wire value becomes: numbers are integers (a varint taken as a signed 64-bit
/// number), length-delimited values are bytes.
pub open spec fn wire_element(w: WireView) -> PbValue {
    match w {
        WireView::Varint(v) => PbValue::Integer((v as i64) as isize),
        WireView::Fixed64(v) => PbValue::Integer(v as isize),
        WireView::Bytes(b) => PbValue::Bytes(b),
        WireView::Fixed32(v) => PbValue::Integer(v as isize),
    }
}

/// Where field `tag` stands in `f`, looked for from index `i` on; -1 where it is not there.
pub open spec fn find_field<V>(f: Seq<(u32, V)>, tag: u32, i: int) -> int
    decreases f.len() - i,
{
    if i < 0 || i >= f.len() {
        -1
    } else if f[i].0 == tag {
        i
    } else {
        find_field(f, tag, i + 1)
    }
}

/// The message after one more field `tag` with value `v` is read. A new number is added at the
/// end. A number that holds an array gets `v` at the array's end. A number that holds anything
/// else becomes an array of its old value alone, and `v` is dropped.
pub open spec fn pb_insert(f: Seq<(u32, PbValue)>, tag: u32, v: PbValue) -> Seq<(u32, PbValue)> {
    let i = find_field(f, tag, 0);
    if i < 0 {
        f.push((tag, v))
    } else {
        match f[i].1 {
            PbValue::Array(l) => f.update(i, (tag, PbValue::Array(l.push(v)))),
            old => f.update(i, (tag, PbValue::Array(seq![old]))),
        }
    }
}

/// The message read from `d[pos..]` onto the fields `acc` already read.
pub open spec fn pb_decode_from(d: Seq<u8>, pos: int, acc: Seq<(u32, PbValue)>) -> Result<Seq<(u32, PbValue)>, ProtobufError>
    decreases d.len() - pos,
{
    if pos < 0 || pos >= d.len() {
        Ok(acc)
    } else {
        match field_at(d, pos) {
            Err(e) => Err(e),
            Ok((tag, w, next)) => if next <= pos || next > d.len() {
                Ok(acc)
            } else {
                pb_decode_from(d, next, pb_insert(acc, tag, wire_element(w)))
            },
        }
    }
}

/// The message that `d` holds.
pub open spec fn pb_decode(d: Seq<u8>) -> Result<Seq<(u32, PbValue)>, ProtobufError> {
    pb_decode_from(d, 0, Seq::empty())
}

proof fn lemma_varint_step(x: nat, low: nat)
    requires
        low < 128,
    ensures
        ((low + 128 * x) % 0x1_0000_0000_0000_0000) as u64 == (((x % 0x1_0000_0000_0000_0000) as u64 % 0x200_0000_0000_0000) * 128 + low) as u64,
        (((x % 0x1_0000_0000_0000_0000) as u64 % 0x200_0000_0000_0000) * 128 + low) < 0x1_0000_0000_0000_0000,
{
    let m: int = 0x1_0000_0000_0000_0000;
    let h: int = 0x200_0000_0000_0000;
    vstd::arithmetic::div_mod::lemma_mod_mod(x as int, h, 128);
    assert(h * 128 == m);
    let r = x as int % h;
    let q = x as int / h;
    vstd::arithmetic::div_mod::lemma_fundamental_div_mod(x as int, h);
    vstd::arithmetic::div_mod::lemma_mod_pos_bound(x as int, h);
    vstd::arithmetic::div_mod::lemma_mod_pos_bound(x as int, m);
    assert(low + 128 * x == m * q + (low + 128 * r)) by (nonlinear_arith)
        requires
            x == h * q + r,
            m == h * 128,
    ;
    vstd::arithmetic::div_mod::lemma_mod_multiples_vanish(q, low + 128 * r, m);
    assert(0 <= low + 128 * r < m) by (nonlinear_arith)
        requires
            0 <= r < h,
            low < 128,
            m == h * 128,
    ;
    vstd::arithmetic::div_mod::lemma_small_mod((low + 128 * r) as nat, m as nat);
}

proof fn lemma_varint_end_bounds(d: Seq<u8>, pos: int, i: nat, width: nat, last_max: u8)
    requires
        0 <= pos,
    ensures
        varint_end(d, pos, i, width, last_max) matches Ok(e) ==> pos + i < e <= d.len() && e <= pos + width,
    decreases width - i,
{
    if i + 1 < width && pos + i < d.len() && d[pos + i] >= 128 {
        lemma_varint_end_bounds(d, pos, i + 1, width, last_max);
    }
}

/// Reads a varint of at most `width` bytes whose last possible byte is at most `last_max`
/// (see `varint_end`): its number modulo 2^64 and where it ends.
fn read_varint_of(d: &[u8], pos: usize, width: usize, last_max: u8) -> (r: Result<(u64, usize), ProtobufError>)
    requires
        pos <= d@.len(),
        1 <= width <= 10,
    ensures
        match varint_end(d@, pos as int, 0, width as nat, last_max) {
            Err(e) => r == Err::<(u64, usize), ProtobufError>(e),
            Ok(end) => r == Ok::<(u64, usize), ProtobufError>(((varint_value(d@, pos as int, end) % 0x1_0000_0000_0000_0000) as u64, end as usize))
                && pos < end <= d@.len(),
        },
{
    proof {
        lemma_varint_end_bounds(d@, pos as int, 0, width as nat, last_max);
    }
    let n: usize = d.len();
    let mut i: usize = 0;
    loop
        invariant
            n == d@.len(),
            pos <= d@.len(),
            1 <= width <= 10,
            i < width,
            varint_end(d@, pos as int, 0, width as nat, last_max) == varint_end(d@, pos as int, i as nat, width as nat, last_max),
        ensures
            i < width,
            pos + i < d@.len(),
            varint_end(d@, pos as int, 0, width as nat, last_max) == Ok::<int, ProtobufError>(pos + i + 1),
        decreases width - i,
    {
        if i >= n - pos {
            return Err(ProtobufError::UnexpectedEof);
        }
        if i + 1 == width {
            if d[pos + i] > last_max {
                return Err(ProtobufError::IncorrectVarint);
            }
            break;
        }
        if d[pos + i] < 128 {
            break;
        }
        i = i + 1;
    }
    let end: usize = pos + i + 1;
    let mut v: u64 = 0;
    let mut k: usize = end;
    while k > pos
        invariant
            pos <= k <= end <= d@.len(),
            v == (varint_value(d@, k as int, end as int) % 0x1_0000_0000_0000_0000) as u64,
        decreases k - pos,
    {
        k = k - 1;
        let low: u8 = d[k] % 128;
        proof {
            lemma_varint_step(varint_value(d@, k + 1, end as int), low as nat);
        }
        v = (v % 0x200_0000_0000_0000) * 128 + low as u64;
    }
    Ok((v, end))
}

/// Reads the 64-bit varint at `pos` (see `varint_at`).
fn read_varint(d: &[u8], pos: usize) -> (r: Result<(u64, usize), ProtobufError>)
    requires
        pos <= d@.len(),
    ensures
        match varint_at(d@, pos as int) {
            Err(e) => r == Err::<(u64, usize), ProtobufError>(e),
            Ok((v, end)) => r == Ok::<(u64, usize), ProtobufError>((v, end as usize)) && pos < end <= d@.len(),
        },
{
    read_varint_of(d, pos, 10, 1)
}

/// Reads the 32-bit varint at `pos` (see `varint32_at`).
fn read_varint32(d: &[u8], pos: usize) -> (r: Result<(u32, usize), ProtobufError>)
    requires
        pos <= d@.len(),
    ensures
        match varint32_at(d@, pos as int) {
            Err(e) => r == Err::<(u32, usize), ProtobufError>(e),
            Ok((v, end)) => r == Ok::<(u32, usize), ProtobufError>((v, end as usize)) && pos < end <= d@.len(),
        },
{
    match read_varint_of(d, pos, 5, 15) {
        Err(e) => Err(e),
        Ok((v, end)) => Ok((v as u32, end)),
    }
}

/// Reads the field at `pos` (see `field_at`).
pub(crate) fn read_field(d: &[u8], pos: usize) -> (r: Result<(u32, WireValue, usize), ProtobufError>)
    requires
        pos < d@.len(),
    ensures
        match field_at(d@, pos as int) {
            Err(e) => r matches Err(e2) && e2 == e,
            Ok((tag, w, next)) => r matches Ok((t2, w2, n2)) && t2 == tag && w2@ == w && n2 == next
                && pos < next <= d@.len(),
        },
{
    let n: usize = d.len();
    let (k, p1) = match read_varint32(d, pos) {
        Ok(x) => x,
        Err(e) => return Err(e),
    };
    let tag: u32 = k / 8;
    let wire_type: u32 = k % 8;
    if wire_type == 0 {
        let (v, p2) = match read_varint(d, p1) {
            Ok(x) => x,
            Err(e) => return Err(e),
        };
        Ok((tag, WireValue::Varint(v), p2))
    } else if wire_type == 1 {
        if d.len() - p1 < 8 {
            return Err(ProtobufError::UnexpectedEof);
        }
        let v: u64 = d[p1] as u64 + (d[p1 + 1] as u64) * 0x100 + (d[p1 + 2] as u64) * 0x1_0000 + (d[p1 + 3] as u64) * 0x100_0000
            + (d[p1 + 4] as u64) * 0x1_0000_0000 + (d[p1 + 5] as u64) * 0x100_0000_0000
            + (d[p1 + 6] as u64) * 0x1_0000_0000_0000 + (d[p1 + 7] as u64) * 0x100_0000_0000_0000;
        Ok((tag, WireValue::Fixed64(v), p1 + 8))
    } else if wire_type == 2 {
        let (l32, p2) = match read_varint32(d, p1) {
            Ok(x) => x,
            Err(e) => return Err(e),
        };
        let l: usize = l32 as usize;
        if l > d.len() - p2 {
            return Err(ProtobufError::UnexpectedEof);
        }
        let b = copy_range(d, p2, p2 + l);
        Ok((tag, WireValue::Bytes(b), p2 + l))
    } else if wire_type == 5 {
        if d.len() - p1 < 4 {
            return Err(ProtobufError::UnexpectedEof);
        }
        let v: u32 = d[p1] as u32 + (d[p1 + 1] as u32) * 0x100 + (d[p1 + 2] as u32) * 0x1_0000 + (d[p1 + 3] as u32) * 0x100_0000;
        Ok((tag, WireValue::Fixed32(v), p1 + 4))
    } else {
        Err(ProtobufError::InvalidType(wire_type))
    }
}


/// Whether no field number occurs twice.
pub open spec fn distinct_tags<V>(f: Seq<(u32, V)>) -> bool {
    forall|i: int, j: int| 0 <= i < j < f.len() ==> f[i].0 != f[j].0
}

pub proof fn lemma_find_field<V>(f: Seq<(u32, V)>, tag: u32, i: int)
    requires
        0 <= i,
    ensures
        find_field(f, tag, i) == -1 <==> forall|j: int| i <= j < f.len() ==> f[j].0 != tag,
        find_field(f, tag, i) != -1 ==> i <= find_field(f, tag, i) < f.len() && f[find_field(f, tag, i)].0 == tag
            && forall|j: int| i <= j < find_field(f, tag, i) ==> f[j].0 != tag,
    decreases f.len() - i,
{
    if i < f.len() && f[i].0 != tag {
        lemma_find_field(f, tag, i + 1);
    }
}

proof fn lemma_pb_list_push(s: Seq<ProtobufElement>, x: ProtobufElement)
    ensures
        pb_list_view(s.push(x)) == pb_list_view(s).push(x@),
{
    assert(s.push(x).subrange(0, s.len() as int) =~= s);
}

proof fn lemma_pb_fields_push(s: Seq<(u32, ProtobufElement)>, x: (u32, ProtobufElement))
    ensures
        pb_fields_view(s.push(x)) == pb_fields_view(s).push((x.0, x.1@)),
{
    assert(s.push(x).subrange(0, s.len() as int) =~= s);
}

proof fn lemma_pb_fields_update(s: Seq<(u32, ProtobufElement)>, i: int, x: (u32, ProtobufElement))
    requires
        0 <= i < s.len(),
    ensures
        pb_fields_view(s.update(i, x)) == pb_fields_view(s).update(i, (x.0, x.1@)),
{
    lemma_pb_fields_view(s);
    lemma_pb_fields_view(s.update(i, x));
    assert(pb_fields_view(s.update(i, x)) =~= pb_fields_view(s).update(i, (x.0, x.1@)));
}

/// Where field `tag` stands among `fields`, or their number where it is not there.
fn position_of(fields: &Vec<(u32, ProtobufElement)>, tag: u32) -> (r: usize)
    ensures
        r <= fields@.len(),
        r == fields@.len() ==> find_field(pb_fields_view(fields@), tag, 0) == -1,
        r < fields@.len() ==> find_field(pb_fields_view(fields@), tag, 0) == r,
{
    proof {
        lemma_pb_fields_view(fields@);
    }
    let mut i: usize = 0;
    while i < fields.len()
        invariant
            i <= fields@.len(),
            pb_fields_view(fields@).len() == fields@.len(),
            forall|j: int| 0 <= j < fields@.len() ==> #[trigger] pb_fields_view(fields@)[j] == (fields@[j].0, fields@[j].1@),
            find_field(pb_fields_view(fields@), tag, 0) == find_field(pb_fields_view(fields@), tag, i as int),
        decreases fields@.len() - i,
    {
        assert(pb_fields_view(fields@)[i as int].0 == fields@[i as int].0);
        if fields[i].0 == tag {
            return i;
        }
        i = i + 1;
    }
    i
}

/// Adds a field read from the wire (see `pb_insert`).
fn insert_decoded(fields: &mut Vec<(u32, ProtobufElement)>, tag: u32, value: ProtobufElement)
    ensures
        pb_fields_view(final(fields)@) == pb_insert(pb_fields_view(old(fields)@), tag, value@),
{
    let i = position_of(fields, tag);
    proof {
        lemma_pb_fields_view(fields@);
    }
    if i == fields.len() {
        proof {
            lemma_pb_fields_push(fields@, (tag, value));
        }
        fields.push((tag, value));
        assert(pb_fields_view(fields@) == pb_insert(pb_fields_view(old(fields)@), tag, value@));
    } else {
        let ghost before = fields@;
        let (t, e) = fields.remove(i);
        let ghost old_e = e;
        let ne = match e {
            ProtobufElement::Array(mut list) => {
                proof {
                    lemma_pb_list_push(list@, value);
                }
                list.push(value);
                ProtobufElement::Array(list)
            },
            other => {
                let mut l: Vec<ProtobufElement> = Vec::new();
                l.push(other);
                proof {
                    lemma_pb_list_push(Seq::empty(), other);
                    assert(l@ =~= Seq::<ProtobufElement>::empty().push(other));
                }
                ProtobufElement::Array(l)
            },
        };
        fields.insert(i, (t, ne));
        assert(fields@ =~= before.update(i as int, (t, ne)));
        proof {
            lemma_pb_fields_update(before, i as int, (t, ne));
            assert(pb_fields_view(before)[i as int] == (t, old_e@));
            lemma_find_field(pb_fields_view(before), tag, 0);
            assert(ne@ == match old_e@ {
                PbValue::Array(l) => PbValue::Array(l.push(value@)),
                o => PbValue::Array(seq![o]),
            });
        }
    }
}

/// The element a field read from the wire becomes (see `wire_element`).
fn element_of(w: WireValue) -> (e: ProtobufElement)
    ensures
        e@ == wire_element(w@),
{
    match w {
        WireValue::Varint(v) => ProtobufElement::Integer((v as i64) as isize),
        WireValue::Fixed64(v) => ProtobufElement::Integer(v as isize),
        WireValue::Bytes(b) => ProtobufElement::Bytes(b),
        WireValue::Fixed32(v) => ProtobufElement::Integer(v as isize),
    }
}

fn decode_object(data: &[u8]) -> (r: Result<ProtobufObject, ProtobufError>)
    ensures
        match pb_decode(data@) {
            Ok(f) => r matches Ok(o) && o@ == f,
            Err(e) => r matches Err(e2) && e2 == e,
        },
{
    let n: usize = data.len();
    let mut result = ProtobufObject::with_capacity(20);
    let mut pos: usize = 0;
    while pos < n
        invariant
            pos <= n == data@.len(),
            pb_decode(data@) == pb_decode_from(data@, pos as int, result@),
        decreases n - pos,
    {
        let (tag, w, next) = match read_field(data, pos) {
            Ok(x) => x,
            Err(e) => return Err(e),
        };
        let value = element_of(w);
        insert_decoded(&mut result.fields, tag, value);
        pos = next;
    }
    Ok(result)
}

/// Reads a message from its bytes (see `pb_decode`).
pub fn decode(data: &[u8]) -> (r: Result<ProtobufObject, ProtobufError>)
    ensures
        match pb_decode(data@) {
            Ok(f) => r matches Ok(o) && o@ == f,
            Err(e) => r matches Err(e2) && e2 == e,
        },
{
    decode_object(data)
}

impl ProtobufObject {
    /// An empty message.
    pub fn new() -> (o: Self)
        ensures
            o@ == Seq::<(u32, PbValue)>::empty(),
    {
        ProtobufObject { fields: Vec::new() }
    }

    /// An empty message with room for `capacity` fields.
    pub fn with_capacity(capacity: usize) -> (o: Self)
        ensures
            o@ == Seq::<(u32, PbValue)>::empty(),
    {
        ProtobufObject { fields: Vec::with_capacity(capacity) }
    }

    /// The fields themselves.
    pub fn into_inner(self) -> (f: Vec<(u32, ProtobufElement)>)
        ensures
            pb_fields_view(f@) == self@,
    {
        self.fields
    }

    /// Takes field `k` out, or fails with `ItemNotFound(k)`.
    pub fn try_remove(&mut self, k: &u32) -> (r: Result<ProtobufElement, ProtobufError>)
        ensures
            find_field(old(self)@, *k, 0) == -1 ==> r == Err::<ProtobufElement, ProtobufError>(ProtobufError::ItemNotFound(*k))
                && final(self)@ == old(self)@,
            find_field(old(self)@, *k, 0) != -1 ==> (r matches Ok(e) && e@ == old(self)@[find_field(old(self)@, *k, 0)].1
                && final(self)@ == old(self)@.remove(find_field(old(self)@, *k, 0))),
    {
        let i = position_of(&self.fields, *k);
        if i == self.fields.len() {
            return Err(ProtobufError::ItemNotFound(*k));
        }
        let ghost before = self.fields@;
        let (_, e) = self.fields.remove(i);
        proof {
            lemma_pb_fields_view(before);
            lemma_pb_fields_view(self.fields@);
            assert(self@ =~= pb_fields_view(before).remove(i as int));
        }
        Ok(e)
    }

    /// Field `k`, or `ItemNotFound(k)`.
    pub fn try_get(&self, k: &u32) -> (r: Result<&ProtobufElement, ProtobufError>)
        ensures
            find_field(self@, *k, 0) == -1 ==> r == Err::<&ProtobufElement, ProtobufError>(ProtobufError::ItemNotFound(*k)),
            find_field(self@, *k, 0) != -1 ==> (r matches Ok(e) && e@ == self@[find_field(self@, *k, 0)].1),
    {
        let i = position_of(&self.fields, *k);
        if i == self.fields.len() {
            return Err(ProtobufError::ItemNotFound(*k));
        }
        proof {
            lemma_pb_fields_view(self.fields@);
        }
        Ok(&self.fields[i].1)
    }
}


/// The message after field `tag` is set to `v`: a new number is added at the end, the value of a
/// number already there is replaced where it stands.
pub open spec fn pb_set<V>(f: Seq<(u32, V)>, tag: u32, v: V) -> Seq<(u32, V)> {
    let i = find_field(f, tag, 0);
    if i < 0 {
        f.push((tag, v))
    } else {
        f.update(i, (tag, v))
    }
}

/// After field `t1` is set to `v` it is found holding `v`, and every other number is found
/// where it was, holding what it held.
pub proof fn lemma_pb_set_lookup<V>(f: Seq<(u32, V)>, t1: u32, v: V, t2: u32)
    ensures
        find_field(pb_set(f, t1, v), t1, 0) != -1,
        pb_set(f, t1, v)[find_field(pb_set(f, t1, v), t1, 0)].1 == v,
        t1 != t2 ==> find_field(pb_set(f, t1, v), t2, 0) == find_field(f, t2, 0),
        t1 != t2 && find_field(f, t2, 0) != -1 ==> pb_set(f, t1, v)[find_field(f, t2, 0)].1 == f[find_field(f, t2, 0)].1,
{
    let g = pb_set(f, t1, v);
    let i = find_field(f, t1, 0);
    lemma_find_field(f, t1, 0);
    lemma_find_field(f, t2, 0);
    lemma_find_field(g, t1, 0);
    lemma_find_field(g, t2, 0);
    assert(forall|j: int| 0 <= j < f.len() ==> #[trigger] g[j].0 == f[j].0);
    assert(forall|j: int| 0 <= j < f.len() && j != i ==> #[trigger] g[j] == f[j]);
    if i < 0 {
        assert(g[f.len() as int] == (t1, v));
    } else {
        assert(g[i] == (t1, v));
    }
    if t1 != t2 {
        let k = find_field(f, t2, 0);
        let m = find_field(g, t2, 0);
        if k == -1 {
            if m != -1 {
                assert(m < f.len() || g[m].0 == t1);
                assert(false);
            }
        } else {
            assert(g[k].0 == t2);
            assert(m != -1);
            assert(m <= k);
            assert(f[m].0 == t2);
        }
    }
}

/// The message that the fields `s` give when set one after another: a later value of a number
/// replaces an earlier one.
pub open spec fn pb_collect<V>(s: Seq<(u32, V)>) -> Seq<(u32, V)>
    decreases s.len(),
{
    if s.len() == 0 {
        Seq::empty()
    } else {
        pb_set(pb_collect(s.drop_last()), s.last().0, s.last().1)
    }
}

/// The fields `(i, l[i])` of a list numbered from 0.
pub open spec fn numbered(l: Seq<PbValue>) -> Seq<(u32, PbValue)> {
    Seq::new(l.len(), |i: int| (i as u32, l[i]))
}

impl ProtobufObject {
    /// Sets field `tag` to `value`: in place where the number is there, else at the end (see
    /// `pb_set`).
    pub fn insert(&mut self, tag: u32, value: ProtobufElement)
        ensures
            final(self)@ == pb_set(old(self)@, tag, value@),
    {
        let i = position_of(&self.fields, tag);
        if i == self.fields.len() {
            proof {
                lemma_pb_fields_push(self.fields@, (tag, value));
            }
            self.fields.push((tag, value));
        } else {
            let ghost before = self.fields@;
            self.fields.set(i, (tag, value));
            proof {
                lemma_pb_fields_update(before, i as int, (tag, value));
            }
        }
    }

    /// The message of the given fields, a later value of a number replacing an earlier one (see
    /// `pb_collect`).
    pub fn from_fields(arr: Vec<(u32, ProtobufElement)>) -> (o: Self)
        ensures
            o@ == pb_collect(pb_fields_view(arr@)),
    {
        let ghost all = pb_fields_view(arr@);
        proof {
            lemma_pb_fields_view(arr@);
        }
        let mut rest = arr;
        let mut o = ProtobufObject::new();
        let ghost mut k: int = 0;
        while rest.len() > 0
            invariant
                0 <= k <= all.len(),
                all.len() == k + rest@.len(),
                forall|j: int| 0 <= j < rest@.len() ==> all[k + j] == (#[trigger] rest@[j].0, rest@[j].1@),
                o@ == pb_collect(all.take(k)),
            decreases rest@.len(),
        {
            let ghost before = rest@;
            let (tag, value) = rest.remove(0);
            proof {
                assert(all[k] == (tag, value@));
                assert(all.take(k + 1).drop_last() =~= all.take(k));
                assert forall|j: int| 0 <= j < rest@.len() implies all[k + 1 + j] == (#[trigger] rest@[j].0, rest@[j].1@) by {
                    assert(rest@[j] == before[j + 1]);
                }
            }
            o.insert(tag, value);
            proof {
                k = k + 1;
            }
        }
        assert(all.take(k) =~= all);
        o
    }

    /// The message whose field `i` is `arr[i]`, numbered from 0.
    pub fn from_elements(arr: Vec<ProtobufElement>) -> (o: Self)
        requires
            arr@.len() <= u32::MAX,
        ensures
            o@ == pb_collect(numbered(pb_list_view(arr@))),
    {
        proof {
            lemma_pb_list_view(arr@);
        }
        let ghost l = pb_list_view(arr@);
        let n: usize = arr.len();
        let mut rest = arr;
        let mut pairs: Vec<(u32, ProtobufElement)> = Vec::new();
        let mut i: usize = 0;
        while rest.len() > 0
            invariant
                i + rest@.len() == n == l.len(),
                n <= u32::MAX,
                forall|j: int| 0 <= j < rest@.len() ==> #[trigger] rest@[j]@ == l[i + j],
                pb_fields_view(pairs@) == numbered(l).take(i as int),
            decreases rest@.len(),
        {
            let ghost before = rest@;
            let e = rest.remove(0);
            proof {
                lemma_pb_fields_push(pairs@, (i as u32, e));
                assert(numbered(l).take(i + 1) =~= numbered(l).take(i as int).push((i as u32, e@)));
                assert forall|j: int| 0 <= j < rest@.len() implies #[trigger] rest@[j]@ == l[i + 1 + j] by {
                    assert(rest@[j] == before[j + 1]);
                }
            }
            pairs.push((i as u32, e));
            i = i + 1;
        }
        assert(numbered(l).take(n as int) =~= numbered(l));
        ProtobufObject::from_fields(pairs)
    }
}

impl ProtobufElement {
    /// The integer held, or `NotInteger`.
    pub fn try_into_integer(self) -> (r: Result<isize, ProtobufError>)
        ensures
            match self@ {
                PbValue::Integer(v) => r == Ok::<isize, ProtobufError>(v),
                _ => r == Err::<isize, ProtobufError>(ProtobufError::NotInteger),
            },
    {
        match self {
            ProtobufElement::Integer(v) => Ok(v),
            _ => Err(ProtobufError::NotInteger),
        }
    }

    /// The bytes held, or `NotBytes`.
    pub fn try_into_bytes(self) -> (r: Result<Vec<u8>, ProtobufError>)
        ensures
            match self@ {
                PbValue::Bytes(b) => r matches Ok(v) && v@ == b,
                _ => r matches Err(e) && e == ProtobufError::NotBytes,
            },
    {
        match self {
            ProtobufElement::Bytes(v) => Ok(v),
            _ => Err(ProtobufError::NotBytes),
        }
    }

    /// The string held, or `NotString`.
    pub fn try_into_string(self) -> (r: Result<String, ProtobufError>)
        ensures
            match self@ {
                PbValue::String(c) => r matches Ok(v) && v@ == c,
                _ => r matches Err(e) && e == ProtobufError::NotString,
            },
    {
        match self {
            ProtobufElement::String(v) => Ok(v),
            _ => Err(ProtobufError::NotString),
        }
    }

    /// The list held; anything else is refused with `NotString`, the error this conversion has
    /// always given.
    pub fn try_into_array(self) -> (r: Result<Vec<ProtobufElement>, ProtobufError>)
        ensures
            match self@ {
                PbValue::Array(l) => r matches Ok(v) && pb_list_view(v@) == l,
                _ => r matches Err(e) && e == ProtobufError::NotString,
            },
    {
        match self {
            ProtobufElement::Array(v) => Ok(v),
            _ => Err(ProtobufError::NotString),
        }
    }

    /// The message held, or the message that held bytes decode to; anything else is `NotObject`.
    pub fn try_into_object(self) -> (r: Result<ProtobufObject, ProtobufError>)
        ensures
            match self@ {
                PbValue::Object(f) => r matches Ok(o) && o@ == f,
                PbValue::Bytes(b) => match pb_decode(b) {
                    Ok(f) => r matches Ok(o) && o@ == f,
                    Err(e) => r matches Err(e2) && e2 == e,
                },
                _ => r matches Err(e) && e == ProtobufError::NotObject,
            },
    {
        match self {
            ProtobufElement::Object(v) => Ok(v),
            ProtobufElement::Bytes(v) => decode(v.as_slice()),
            _ => Err(ProtobufError::NotObject),
        }
    }
}


// ---------------------------------------------------------------------------------------------
// Reading back what was written
// ---------------------------------------------------------------------------------------------

/// 128 to the power `k`.
pub open spec fn pow128(k: nat) -> nat
    decreases k,
{
    if k == 0 {
        1
    } else {
        128 * pow128((k - 1) as nat)
    }
}

proof fn lemma_varint_len(n: u64, k: nat)
    requires
        k >= 1,
        n < pow128(k),
    ensures
        1 <= varint(n).len() <= k,
    decreases k,
{
    if n >= 128 {
        let q = n / 128;
        vstd::arithmetic::div_mod::lemma_fundamental_div_mod(n as int, 128);
        assert(k >= 2) by {
            if k == 1 {
                assert(pow128(0) == 1);
            }
        }
        assert(q < pow128((k - 1) as nat));
        lemma_varint_len(q as u64, (k - 1) as nat);
    }
}

proof fn lemma_varint_at_most_ten(n: u64)
    ensures
        1 <= varint(n).len() <= 10,
{
    assert(pow128(10) == 0x40_0000_0000_0000_0000) by {
        reveal_with_fuel(pow128, 11);
    }
    lemma_varint_len(n, 10);
}

proof fn lemma_varint_read(d: Seq<u8>, p: int, i: nat, n: u64, width: nat, last_max: u8)
    requires
        0 <= p,
        i < width,
        last_max < 128,
        n < pow128((width - 1 - i) as nat) * (last_max + 1),
        p + i + varint(n).len() <= d.len(),
        d.subrange(p + i, p + i + varint(n).len()) == varint(n),
    ensures
        varint_end(d, p, i, width, last_max) == Ok::<int, ProtobufError>(p + i + varint(n).len()),
        varint_value(d, p + i, p + i + varint(n).len()) == n,
    decreases n,
{
    let v = varint(n);
    assert(d[p + i] == v[0]);
    if i + 1 == width {
        assert((width - 1 - i) as nat == 0nat);
        assert(pow128(0) == 1);
        let e = pow128((width - 1 - i) as nat);
        assert(e == 1);
        assert(n < last_max + 1) by (nonlinear_arith)
            requires
                n < e * (last_max + 1),
                e == 1,
        ;
    }
    if n < 128 {
        assert(v.len() == 1);
        assert(v[0] == n as u8);
        assert(d[p + i] == n);
        assert(varint_value(d, p + i + 1, p + i + 1) == 0);
    } else {
        let q = (n / 128) as u64;
        let w = varint(q);
        let x = pow128((width - 2 - i) as nat) * (last_max + 1);
        assert(((width - 2 - i) as nat) + 1 == (width - 1 - i) as nat);
        assert(pow128((width - 1 - i) as nat) == 128 * pow128((width - 2 - i) as nat));
        assert(n < 128 * x) by (nonlinear_arith)
            requires
                n < pow128((width - 1 - i) as nat) * (last_max + 1),
                pow128((width - 1 - i) as nat) == 128 * pow128((width - 2 - i) as nat),
                x == pow128((width - 2 - i) as nat) * (last_max + 1),
        ;
        vstd::arithmetic::div_mod::lemma_fundamental_div_mod(n as int, 128);
        assert(q < x) by (nonlinear_arith)
            requires
                n < 128 * x,
                n == 128 * q + n % 128,
                0 <= n % 128,
        ;
        assert(v == seq![(n % 128 + 128) as u8] + w);
        assert(d.subrange(p + i + 1, p + i + 1 + w.len()) =~= w) by {
            assert forall|j: int| 0 <= j < w.len() implies d.subrange(p + i + 1, p + i + 1 + w.len())[j] == w[j] by {
                assert(d.subrange(p + i, p + i + v.len())[j + 1] == v[j + 1]);
            }
        }
        lemma_varint_read(d, p, i + 1, q, width, last_max);
        assert(((n % 128 + 128) as u8) % 128 == n % 128);
    }
}

/// Reading the 64-bit varint of `n` at `p` gives `n` and the position after it.
proof fn lemma_varint_at(d: Seq<u8>, p: int, n: u64)
    requires
        0 <= p,
        p + varint(n).len() <= d.len(),
        d.subrange(p, p + varint(n).len()) == varint(n),
    ensures
        varint_at(d, p) == Ok::<(u64, int), ProtobufError>((n, p + varint(n).len())),
{
    assert(pow128(9) == 0x8000_0000_0000_0000) by {
        reveal_with_fuel(pow128, 10);
    }
    lemma_varint_read(d, p, 0, n, 10, 1);
}

/// Reading the 32-bit varint of `n` at `p` gives `n` and the position after it.
proof fn lemma_varint32_at(d: Seq<u8>, p: int, n: u32)
    requires
        0 <= p,
        p + varint(n as u64).len() <= d.len(),
        d.subrange(p, p + varint(n as u64).len()) == varint(n as u64),
    ensures
        varint32_at(d, p) == Ok::<(u32, int), ProtobufError>((n, p + varint(n as u64).len())),
{
    assert(pow128(4) == 0x1000_0000) by {
        reveal_with_fuel(pow128, 5);
    }
    lemma_varint_read(d, p, 0, n as u64, 5, 15);
}

/// The values that read back as themselves: integers that are not negative (written as plain
/// varints), and byte strings whose length fits in 32 bits.
pub open spec fn reads_back(v: PbValue) -> bool {
    match v {
        PbValue::Integer(x) => x >= 0,
        PbValue::Bytes(b) => b.len() < 0x1_0000_0000,
        _ => false,
    }
}

proof fn lemma_field_read(d: Seq<u8>, p: int, tag: u32, v: PbValue)
    requires
        0 <= p,
        tag_ok(tag),
        reads_back(v),
        p + pb_encode_element(tag, v).len() <= d.len(),
        d.subrange(p, p + pb_encode_element(tag, v).len()) == pb_encode_element(tag, v),
    ensures
        field_at(d, p) matches Ok((t, w, next)) && t == tag && wire_element(w) == v
            && next == p + pb_encode_element(tag, v).len(),
{
    let e = pb_encode_element(tag, v);
    match v {
        PbValue::Integer(x) => {
            let k = field_key(tag, 0);
            let a = varint(k);
            let b = varint(x as u64);
            assert(e == a + b);
            assert(d.subrange(p, p + a.len()) =~= a) by {
                assert forall|j: int| 0 <= j < a.len() implies d.subrange(p, p + a.len())[j] == a[j] by {
                    assert(d.subrange(p, p + e.len())[j] == e[j]);
                }
            }
            assert(d.subrange(p + a.len(), p + a.len() + b.len()) =~= b) by {
                assert forall|j: int| 0 <= j < b.len() implies d.subrange(p + a.len(), p + a.len() + b.len())[j] == b[j] by {
                    assert(d.subrange(p, p + e.len())[a.len() + j] == e[a.len() + j]);
                }
            }
            assert((k as u32) as u64 == k);
            lemma_varint32_at(d, p, k as u32);
            lemma_varint_at(d, p + a.len(), x as u64);
            assert((k as u32) == tag * 8);
            assert((k as u32) / 8 == tag);
            assert((k as u32) % 8 == 0);
        },
        PbValue::Bytes(bs) => {
            let k = field_key(tag, 2);
            let a = varint(k);
            assert(((bs.len() as u32) as u64) == bs.len() as u64);
            let b = varint(bs.len() as u64);
            assert(e == a + b + bs);
            assert(d.subrange(p, p + a.len()) =~= a) by {
                assert forall|j: int| 0 <= j < a.len() implies d.subrange(p, p + a.len())[j] == a[j] by {
                    assert(d.subrange(p, p + e.len())[j] == e[j]);
                }
            }
            assert(d.subrange(p + a.len(), p + a.len() + b.len()) =~= b) by {
                assert forall|j: int| 0 <= j < b.len() implies d.subrange(p + a.len(), p + a.len() + b.len())[j] == b[j] by {
                    assert(d.subrange(p, p + e.len())[a.len() + j] == e[a.len() + j]);
                }
            }
            let q = p + a.len() + b.len();
            assert(d.subrange(q, q + bs.len()) =~= bs) by {
                assert forall|j: int| 0 <= j < bs.len() implies d.subrange(q, q + bs.len())[j] == bs[j] by {
                    assert(d.subrange(p, p + e.len())[a.len() + b.len() + j] == e[a.len() + b.len() + j]);
                }
            }
            assert((k as u32) as u64 == k);
            lemma_varint32_at(d, p, k as u32);
            assert(((bs.len() as u32) as u64) == bs.len() as u64);
            lemma_varint32_at(d, p + a.len(), bs.len() as u32);
            assert((k as u32) == tag * 8 + 2);
            assert((k as u32) / 8 == tag);
            assert((k as u32) % 8 == 2);
            assert(((bs.len() as u64) as u32) as int == bs.len());
        },
        _ => {},
    }
}

proof fn lemma_encode_fields_append(a: Seq<(u32, PbValue)>, b: Seq<(u32, PbValue)>)
    ensures
        pb_encode_fields(a + b) == pb_encode_fields(a) + pb_encode_fields(b),
    decreases b.len(),
{
    if b.len() == 0 {
        assert(a + b =~= a);
    } else {
        let b0 = b.drop_last();
        lemma_encode_fields_append(a, b0);
        assert((a + b).drop_last() =~= a + b0);
    }
}

#[verifier::spinoff_prover]
#[verifier::rlimit(40)]
proof fn lemma_decode_fields_from(f: Seq<(u32, PbValue)>, k: int)
    requires
        0 <= k <= f.len(),
        distinct_tags(f),
        forall|i: int| 0 <= i < f.len() ==> tag_ok(#[trigger] f[i].0) && reads_back(f[i].1),
    ensures
        pb_decode_from(pb_encode_fields(f), pb_encode_fields(f.take(k)).len() as int, f.take(k))
            == Ok::<Seq<(u32, PbValue)>, ProtobufError>(f),
    decreases f.len() - k,
{
    let d = pb_encode_fields(f);
    let pos = pb_encode_fields(f.take(k)).len() as int;
    lemma_encode_fields_append(f.take(k), f.skip(k));
    assert(f.take(k) + f.skip(k) =~= f);
    if k == f.len() {
        assert(f.skip(k) =~= Seq::<(u32, PbValue)>::empty());
        assert(f.take(k) =~= f);
    } else {
        let (tag, v) = f[k];
        let e = pb_encode_element(tag, v);
        assert(f.skip(k) =~= seq![(tag, v)] + f.skip(k + 1));
        lemma_encode_fields_append(seq![(tag, v)], f.skip(k + 1));
        let one = seq![(tag, v)];
        assert(one.subrange(0, 0) =~= Seq::<(u32, PbValue)>::empty());
        assert(pb_encode_fields(one.subrange(0, 0)) == Seq::<u8>::empty());
        assert(one[0] == (tag, v));
        assert(pb_encode_fields(one) == pb_encode_fields(one.subrange(0, 0)) + e);
        assert(pb_encode_fields(one) =~= e);
        assert(d =~= pb_encode_fields(f.take(k)) + e + pb_encode_fields(f.skip(k + 1)));
        assert(d.subrange(pos, pos + e.len()) =~= e);
        lemma_field_read(d, pos, tag, v);
        assert(f.take(k + 1).drop_last() =~= f.take(k));
        assert(pb_encode_fields(f.take(k + 1)) == pb_encode_fields(f.take(k)) + e);
        lemma_find_field(f.take(k), tag, 0);
        assert(find_field(f.take(k), tag, 0) == -1) by {
            assert forall|j: int| 0 <= j < f.take(k).len() implies f.take(k)[j].0 != tag by {
                assert(f[j].0 != f[k].0);
            }
        }
        assert(pb_insert(f.take(k), tag, v) =~= f.take(k + 1));
        assert(e.len() > 0) by {
            match v {
                PbValue::Integer(x) => lemma_varint_at_most_ten(field_key(tag, 0)),
                PbValue::Bytes(b) => lemma_varint_at_most_ten(field_key(tag, 2)),
                _ => {},
            }
        }
        lemma_decode_fields_from(f, k + 1);
    }
}

/// A message whose numbers can be written and occur once each, and whose values are integers
/// that are not negative or byte strings shorter than 2^32, reads back as itself after writing.
pub proof fn lemma_decode_encode(f: Seq<(u32, PbValue)>)
    requires
        distinct_tags(f),
        forall|i: int| 0 <= i < f.len() ==> tag_ok(#[trigger] f[i].0) && reads_back(f[i].1),
    ensures
        pb_decode(pb_encode_fields(f)) == Ok::<Seq<(u32, PbValue)>, ProtobufError>(f),
{
    lemma_decode_fields_from(f, 0);
    assert(f.take(0) =~= Seq::<(u32, PbValue)>::empty());
}


/// A message whose numbers go up, and whose values are integers that are not negative or byte
/// strings shorter than 2^32, reads back as itself from the bytes `encode` writes for it.
pub proof fn lemma_decode_message(f: Seq<(u32, PbValue)>)
    requires
        forall|i: int, j: int| 0 <= i < j < f.len() ==> #[trigger] f[i].0 < #[trigger] f[j].0,
        forall|i: int| 0 <= i < f.len() ==> tag_ok(#[trigger] f[i].0) && reads_back(f[i].1),
    ensures
        pb_decode(pb_message_bytes(f)) == Ok::<Seq<(u32, PbValue)>, ProtobufError>(f),
{
    lemma_pb_ordered_fields(f);
    assert(pb_ordered_fields(f) =~= f) by {
        assert forall|i: int| 0 <= i < f.len() implies #[trigger] pb_ordered_fields(f)[i] == f[i] by {
            assert(tag_ok(f[i].0) && reads_back(f[i].1));
        }
    }
    lemma_by_tag_of_ascending(f);
    lemma_decode_encode(f);
}

/// The text of an error.
pub open spec fn protobuf_error_text(e: ProtobufError) -> Seq<char> {
    match e {
        ProtobufError::InvalidType(t) => "invalid type: "@ + decimal(t as nat) + "."@,
        ProtobufError::ItemNotFound(t) => "item not found: "@ + decimal(t as nat) + "."@,
        ProtobufError::NotInteger => "type of this protobuf element not Integer"@,
        ProtobufError::NotDouble => "type of this protobuf element not Double"@,
        ProtobufError::NotBytes => "type of this protobuf element not Bytes"@,
        ProtobufError::NotString => "type of this protobuf element not String"@,
        ProtobufError::NotArray => "type of this protobuf element not Array"@,
        ProtobufError::NotObject => "type of this protobuf element not ProtobufObject"@,
        ProtobufError::UnexpectedEof => "Unexpected EOF"@,
        ProtobufError::IncorrectVarint => "Incorrect varint"@,
    }
}

impl ProtobufError {
    /// The text of the error (see `protobuf_error_text`).
    pub fn describe(&self) -> (s: String)
        ensures
            s@ == protobuf_error_text(*self),
    {
        match self {
            ProtobufError::InvalidType(t) => {
                let mut s = String::from_str("invalid type: ");
                push_decimal(&mut s, *t as u64);
                s.append(".");
                s
            },
            ProtobufError::ItemNotFound(t) => {
                let mut s = String::from_str("item not found: ");
                push_decimal(&mut s, *t as u64);
                s.append(".");
                s
            },
            ProtobufError::NotInteger => String::from_str("type of this protobuf element not Integer"),
            ProtobufError::NotDouble => String::from_str("type of this protobuf element not Double"),
            ProtobufError::NotBytes => String::from_str("type of this protobuf element not Bytes"),
            ProtobufError::NotString => String::from_str("type of this protobuf element not String"),
            ProtobufError::NotArray => String::from_str("type of this protobuf element not Array"),
            ProtobufError::NotObject => String::from_str("type of this protobuf element not ProtobufObject"),
            ProtobufError::UnexpectedEof => String::from_str("Unexpected EOF"),
            ProtobufError::IncorrectVarint => String::from_str("Incorrect varint"),
        }
    }
}

} // verus!
