use vstd::prelude::*;
use vstd::utf8::encode_utf8;

use super::{by_tag, field_key, field_tags, find_field, le_u64, lemma_tag_order_range, order_of, pb_collect, pb_set, tag_ok, varint, write_le_u64, write_varint, zigzag, zigzag_of, ProtobufError};
use crate::protocol::writer::write_bytes;

verus! {

/// An element to encode. The bytes and strings are borrowed; lists and messages own their
/// elements. `Double` holds the bits of the IEEE-754 number (`f64::to_bits`).
#[derive(Debug)]
pub enum Element<'a> {
    Integer(i128),
    Double(u64),
    Bytes(&'a [u8]),
    String(&'a str),
    Array(Vec<Element<'a>>),
    Object(Object<'a>),
}

/// A message to encode: elements by field number, written in the order they stand.
#[derive(Debug)]
pub struct Object<'a> {
    pub fields: Vec<(u32, Element<'a>)>,
}

/// The mathematical value of an element to encode.
pub enum EncodedValue {
    Integer(i128),
    Double(u64),
    Bytes(Seq<u8>),
    String(Seq<char>),
    Array(Seq<EncodedValue>),
    Object(Seq<(u32, EncodedValue)>),
}

pub open spec fn element_view<'a>(e: Element<'a>) -> EncodedValue
    decreases e,
{
    match e {
        Element::Integer(v) => EncodedValue::Integer(v),
        Element::Double(v) => EncodedValue::Double(v),
        Element::Bytes(b) => EncodedValue::Bytes(b@),
        Element::String(c) => EncodedValue::String(c@),
        Element::Array(l) => EncodedValue::Array(elements_view(l@)),
        Element::Object(o) => EncodedValue::Object(object_view(o.fields@)),
    }
}

pub open spec fn elements_view<'a>(s: Seq<Element<'a>>) -> Seq<EncodedValue>
    decreases s,
{
    if s.len() == 0 {
        Seq::empty()
    } else {
        elements_view(s.subrange(0, s.len() - 1)).push(element_view(s[s.len() - 1]))
    }
}

pub open spec fn object_view<'a>(s: Seq<(u32, Element<'a>)>) -> Seq<(u32, EncodedValue)>
    decreases s,
{
    if s.len() == 0 {
        Seq::empty()
    } else {
        object_view(s.subrange(0, s.len() - 1)).push((s[s.len() - 1].0, element_view(s[s.len() - 1].1)))
    }
}

impl<'a> View for Element<'a> {
    type V = EncodedValue;

    open spec fn view(&self) -> EncodedValue {
        element_view(*self)
    }
}

impl<'a> View for Object<'a> {
    type V = Seq<(u32, EncodedValue)>;

    open spec fn view(&self) -> Seq<(u32, EncodedValue)> {
        object_view(self.fields@)
    }
}

pub proof fn lemma_elements_view<'a>(s: Seq<Element<'a>>)
    ensures
        elements_view(s).len() == s.len(),
        forall|i: int| 0 <= i < s.len() ==> #[trigger] elements_view(s)[i] == s[i]@,
    decreases s.len(),
{
    if s.len() > 0 {
        lemma_elements_view(s.subrange(0, s.len() - 1));
    }
}

pub proof fn lemma_object_view<'a>(s: Seq<(u32, Element<'a>)>)
    ensures
        object_view(s).len() == s.len(),
        forall|i: int| 0 <= i < s.len() ==> #[trigger] object_view(s)[i] == (s[i].0, s[i].1@),
    decreases s.len(),
{
    if s.len() > 0 {
        lemma_object_view(s.subrange(0, s.len() - 1));
    }
}

/// Whether every field number in a value can be written.
pub open spec fn value_tags_ok(v: EncodedValue) -> bool
    decreases v,
{
    match v {
        EncodedValue::Array(l) => list_tags_ok(l),
        EncodedValue::Object(f) => fields_tags_ok(f),
        _ => true,
    }
}

/// Whether every field number in each value of a list can be written.
pub open spec fn list_tags_ok(l: Seq<EncodedValue>) -> bool
    decreases l,
{
    if l.len() == 0 {
        true
    } else {
        list_tags_ok(l.subrange(0, l.len() - 1)) && value_tags_ok(l[l.len() - 1])
    }
}

/// Whether a field's number, and every field number within its value, can be written.
pub open spec fn field_ok(f: (u32, EncodedValue)) -> bool {
    tag_ok(f.0) && value_tags_ok(f.1)
}

/// Whether every field number of a message, and within its values, can be written.
pub open spec fn fields_tags_ok(f: Seq<(u32, EncodedValue)>) -> bool
    decreases f,
{
    if f.len() == 0 {
        true
    } else {
        fields_tags_ok(f.subrange(0, f.len() - 1)) && tag_ok(f[f.len() - 1].0) && value_tags_ok(f[f.len() - 1].1)
    }
}

pub proof fn lemma_list_tags_ok(l: Seq<EncodedValue>)
    ensures
        list_tags_ok(l) <==> forall|i: int| 0 <= i < l.len() ==> value_tags_ok(#[trigger] l[i]),
    decreases l.len(),
{
    if l.len() > 0 {
        let p = l.subrange(0, l.len() - 1);
        lemma_list_tags_ok(p);
        if list_tags_ok(l) {
            assert forall|i: int| 0 <= i < l.len() implies value_tags_ok(#[trigger] l[i]) by {
                if i < l.len() - 1 {
                    assert(p[i] == l[i]);
                }
            }
        }
        if forall|i: int| 0 <= i < l.len() ==> value_tags_ok(#[trigger] l[i]) {
            assert forall|i: int| 0 <= i < p.len() implies value_tags_ok(#[trigger] p[i]) by {
                assert(p[i] == l[i]);
            }
        }
    }
}

pub proof fn lemma_fields_tags_ok(f: Seq<(u32, EncodedValue)>)
    ensures
        fields_tags_ok(f) <==> forall|i: int| 0 <= i < f.len() ==> field_ok(#[trigger] f[i]),
    decreases f.len(),
{
    if f.len() > 0 {
        let p = f.subrange(0, f.len() - 1);
        lemma_fields_tags_ok(p);
        if fields_tags_ok(f) {
            assert forall|i: int| 0 <= i < f.len() implies field_ok(#[trigger] f[i]) by {
                if i < f.len() - 1 {
                    assert(p[i] == f[i]);
                } else {
                    assert(i == f.len() - 1);
                }
            }
        }
        if forall|i: int| 0 <= i < f.len() ==> field_ok(#[trigger] f[i]) {
            assert forall|i: int| 0 <= i < p.len() implies field_ok(#[trigger] p[i]) by {
                assert(p[i] == f[i]);
            }
        }
    }
}

/// The bytes of field `tag` holding `v`: a negative integer is written zigzag, any other as a
/// plain varint, both of the integer taken as a signed 64-bit number (wire type 0); a double as
/// eight little-endian bytes (wire type 1); bytes, strings and messages with a length (wire
/// type 2); a list writes each of its values as the same field.
pub open spec fn encode_value(tag: u32, v: EncodedValue) -> Seq<u8>
    decreases v,
{
    match v {
        EncodedValue::Integer(x) => if x < 0 {
            varint(field_key(tag, 0)) + varint(zigzag(x as i64))
        } else {
            varint(field_key(tag, 0)) + varint((x as i64) as u64)
        },
        EncodedValue::Double(b) => varint(field_key(tag, 1)) + le_u64(b),
        EncodedValue::Bytes(b) => varint(field_key(tag, 2)) + varint((b.len() as u32) as u64) + b,
        EncodedValue::String(c) => varint(field_key(tag, 2)) + varint((encode_utf8(c).len() as u32) as u64) + encode_utf8(c),
        EncodedValue::Array(l) => encode_list(tag, l),
        EncodedValue::Object(f) => {
            let body = encode_fields(f);
            varint(field_key(tag, 2)) + varint((body.len() as u32) as u64) + body
        },
    }
}

/// Each value of a list written as field `tag`, in order.
pub open spec fn encode_list(tag: u32, l: Seq<EncodedValue>) -> Seq<u8>
    decreases l,
{
    if l.len() == 0 {
        Seq::empty()
    } else {
        encode_list(tag, l.subrange(0, l.len() - 1)) + encode_value(tag, l[l.len() - 1])
    }
}

/// The fields of a message, in order.
pub open spec fn encode_fields(f: Seq<(u32, EncodedValue)>) -> Seq<u8>
    decreases f,
{
    if f.len() == 0 {
        Seq::empty()
    } else {
        let last = f[f.len() - 1];
        encode_fields(f.subrange(0, f.len() - 1)) + encode_value(last.0, last.1)
    }
}

/// A value as it is written: the fields of each message, at every depth, in ascending order of
/// their numbers (see `by_tag`).
pub open spec fn ordered_value(v: EncodedValue) -> EncodedValue
    decreases v,
{
    match v {
        EncodedValue::Array(l) => EncodedValue::Array(ordered_list(l)),
        EncodedValue::Object(f) => EncodedValue::Object(by_tag(ordered_fields(f))),
        _ => v,
    }
}

/// `ordered_value` of each value of a list.
pub open spec fn ordered_list(l: Seq<EncodedValue>) -> Seq<EncodedValue>
    decreases l,
{
    if l.len() == 0 {
        Seq::empty()
    } else {
        ordered_list(l.subrange(0, l.len() - 1)).push(ordered_value(l[l.len() - 1]))
    }
}

/// `ordered_value` of the value of each field, the fields where they stand.
pub open spec fn ordered_fields(f: Seq<(u32, EncodedValue)>) -> Seq<(u32, EncodedValue)>
    decreases f,
{
    if f.len() == 0 {
        Seq::empty()
    } else {
        ordered_fields(f.subrange(0, f.len() - 1)).push((f[f.len() - 1].0, ordered_value(f[f.len() - 1].1)))
    }
}

/// The bytes of a message: its fields, at every depth, in ascending order of their numbers.
pub open spec fn message_bytes(f: Seq<(u32, EncodedValue)>) -> Seq<u8> {
    encode_fields(by_tag(ordered_fields(f)))
}

proof fn lemma_ordered_list(l: Seq<EncodedValue>)
    ensures
        ordered_list(l).len() == l.len(),
        forall|i: int| 0 <= i < l.len() ==> #[trigger] ordered_list(l)[i] == ordered_value(l[i]),
    decreases l.len(),
{
    if l.len() > 0 {
        lemma_ordered_list(l.subrange(0, l.len() - 1));
    }
}

proof fn lemma_ordered_fields(f: Seq<(u32, EncodedValue)>)
    ensures
        ordered_fields(f).len() == f.len(),
        forall|i: int| 0 <= i < f.len() ==> #[trigger] ordered_fields(f)[i] == (f[i].0, ordered_value(f[i].1)),
        field_tags(ordered_fields(f)) == field_tags(f),
    decreases f.len(),
{
    if f.len() > 0 {
        lemma_ordered_fields(f.subrange(0, f.len() - 1));
    }
    assert(field_tags(ordered_fields(f)) =~= field_tags(f));
}

/// A count of bytes capped at `usize::MAX`.
pub open spec fn capped(n: int) -> nat {
    if n > usize::MAX { usize::MAX as nat } else if n < 0 { 0 } else { n as nat }
}

/// The room a value is guessed to take once written, to size the buffer ahead: eight bytes for
/// a number, the bytes of a string or of bytes, the sum over a list, and four bytes a field
/// plus the sum over its values for a message; every sum capped at `usize::MAX`. It is not
/// the written length.
pub open spec fn value_hint(v: EncodedValue) -> nat
    decreases v,
{
    match v {
        EncodedValue::Integer(_) => 8,
        EncodedValue::Double(_) => 8,
        EncodedValue::Bytes(b) => capped(b.len() as int),
        EncodedValue::String(c) => capped(encode_utf8(c).len() as int),
        EncodedValue::Array(l) => list_hint(l),
        EncodedValue::Object(f) => capped((f.len() * 4 + fields_hint(f)) as int),
    }
}

/// The capped sum of `value_hint` over a list.
pub open spec fn list_hint(l: Seq<EncodedValue>) -> nat
    decreases l,
{
    if l.len() == 0 {
        0
    } else {
        capped((list_hint(l.subrange(0, l.len() - 1)) + value_hint(l[l.len() - 1])) as int)
    }
}

/// The capped sum of `value_hint` over the values of a message.
pub open spec fn fields_hint(f: Seq<(u32, EncodedValue)>) -> nat
    decreases f,
{
    if f.len() == 0 {
        0
    } else {
        capped((fields_hint(f.subrange(0, f.len() - 1)) + value_hint(f[f.len() - 1].1)) as int)
    }
}

impl<'a> Element<'a> {
    fn size_hint(&self) -> (h: usize)
        ensures
            h == value_hint(self@),
        decreases self,
    {
        match self {
            Element::Integer(_) => {
                assert(value_hint(self@) == 8);
                8
            },
            Element::Double(_) => {
                assert(value_hint(self@) == 8);
                8
            },
            Element::Bytes(b) => {
                let n: usize = b.len();
                assert(value_hint(self@) == capped(b@.len() as int));
                n
            },
            Element::String(s) => {
                let n: usize = s.as_bytes().len();
                assert(value_hint(self@) == capped(encode_utf8(s@).len() as int));
                n
            },
            Element::Array(list) => {
                assert(value_hint(self@) == list_hint(elements_view(list@)));
                list_size_hint(list)
            },
            Element::Object(obj) => {
                assert(value_hint(self@) == capped((obj.fields@.len() * 4 + fields_hint(object_view(obj.fields@))) as int)) by {
                    lemma_object_view(obj.fields@);
                }
                fields_size_hint(&obj.fields)
            },
        }
    }
}

fn list_size_hint<'a>(list: &Vec<Element<'a>>) -> (h: usize)
    ensures
        h == list_hint(elements_view(list@)),
    decreases list,
{
    proof {
        lemma_elements_view(list@);
    }
    let mut sum: usize = 0;
    let mut i: usize = 0;
    while i < list.len()
        invariant
            i <= list@.len(),
            elements_view(list@).len() == list@.len(),
            forall|j: int| 0 <= j < list@.len() ==> #[trigger] elements_view(list@)[j] == list@[j]@,
            sum == list_hint(elements_view(list@).subrange(0, i as int)),
        decreases list@.len() - i,
    {
        let h = list[i].size_hint();
        proof {
            let lv = elements_view(list@);
            assert(lv.subrange(0, i + 1).subrange(0, i as int) =~= lv.subrange(0, i as int));
        }
        sum = sum.saturating_add(h);
        i = i + 1;
    }
    assert(elements_view(list@).subrange(0, list@.len() as int) =~= elements_view(list@));
    sum
}

fn fields_size_hint<'a>(fields: &Vec<(u32, Element<'a>)>) -> (h: usize)
    ensures
        h == capped((fields@.len() * 4 + fields_hint(object_view(fields@))) as int),
    decreases fields,
{
    proof {
        lemma_object_view(fields@);
    }
    let mut sum: usize = 0;
    let mut i: usize = 0;
    while i < fields.len()
        invariant
            i <= fields@.len(),
            object_view(fields@).len() == fields@.len(),
            forall|j: int| 0 <= j < fields@.len() ==> #[trigger] object_view(fields@)[j] == (fields@[j].0, fields@[j].1@),
            sum == fields_hint(object_view(fields@).subrange(0, i as int)),
        decreases fields@.len() - i,
    {
        let h = fields[i].1.size_hint();
        proof {
            let fv = object_view(fields@);
            assert(fv.subrange(0, i + 1).subrange(0, i as int) =~= fv.subrange(0, i as int));
        }
        sum = sum.saturating_add(h);
        i = i + 1;
    }
    assert(object_view(fields@).subrange(0, fields@.len() as int) =~= object_view(fields@));
    let n: usize = fields.len();
    let per_field: usize = if n > usize::MAX / 4 { usize::MAX } else { n * 4 };
    per_field.saturating_add(sum)
}

impl<'a> Element<'a> {
    /// Writes the element as field `tag`, the fields of messages within it in ascending order of
    /// their numbers (see `encode_value` and `ordered_value`).
    pub fn encode(&self, tag: u32, stream: &mut Vec<u8>) -> (r: Result<(), ProtobufError>)
        requires
            tag_ok(tag),
            value_tags_ok(self@),
        ensures
            r is Ok,
            final(stream)@ == old(stream)@ + encode_value(tag, ordered_value(self@)),
        decreases self,
    {
        let ghost start = stream@;
        match self {
            Element::Integer(v) => {
                write_varint(stream, (tag as u64) * 8);
                if *v < 0 {
                    write_varint(stream, zigzag_of(*v as i64));
                } else {
                    write_varint(stream, (*v as i64) as u64);
                }
            },
            Element::Double(v) => {
                write_varint(stream, (tag as u64) * 8 + 1);
                write_le_u64(stream, *v);
            },
            Element::Bytes(b) => {
                write_varint(stream, (tag as u64) * 8 + 2);
                write_varint(stream, (b.len() as u32) as u64);
                write_bytes(stream, b);
            },
            Element::String(s) => {
                let b = s.as_bytes();
                write_varint(stream, (tag as u64) * 8 + 2);
                write_varint(stream, (b.len() as u32) as u64);
                write_bytes(stream, b);
            },
            Element::Array(list) => {
                proof {
                    lemma_list_tags_ok(elements_view(list@));
                }
                encode_list_into(list, tag, stream);
            },
            Element::Object(obj) => {
                let mut body: Vec<u8> = Vec::new();
                proof {
                    lemma_fields_tags_ok(object_view(obj.fields@));
                }
                encode_fields_into(&obj.fields, &mut body);
                write_varint(stream, (tag as u64) * 8 + 2);
                write_varint(stream, (body.len() as u32) as u64);
                write_bytes(stream, body.as_slice());
            },
        }
        assert(stream@ =~= start + encode_value(tag, ordered_value(self@)));
        Ok(())
    }
}

fn encode_list_into<'a>(items: &Vec<Element<'a>>, tag: u32, stream: &mut Vec<u8>)
    requires
        tag_ok(tag),
        forall|i: int| 0 <= i < elements_view(items@).len() ==> value_tags_ok(#[trigger] elements_view(items@)[i]),
    ensures
        final(stream)@ == old(stream)@ + encode_list(tag, ordered_list(elements_view(items@))),
    decreases items,
{
    proof {
        lemma_elements_view(items@);
        lemma_ordered_list(elements_view(items@));
    }
    let mut i: usize = 0;
    while i < items.len()
        invariant
            tag_ok(tag),
            i <= items@.len(),
            elements_view(items@).len() == items@.len(),
            forall|j: int| 0 <= j < items@.len() ==> #[trigger] elements_view(items@)[j] == items@[j]@,
            forall|j: int| 0 <= j < elements_view(items@).len() ==> value_tags_ok(#[trigger] elements_view(items@)[j]),
            ordered_list(elements_view(items@)).len() == items@.len(),
            forall|j: int| 0 <= j < items@.len() ==> #[trigger] ordered_list(elements_view(items@))[j] == ordered_value(elements_view(items@)[j]),
            stream@ == old(stream)@ + encode_list(tag, ordered_list(elements_view(items@)).subrange(0, i as int)),
        decreases items@.len() - i,
    {
        assert(value_tags_ok(elements_view(items@)[i as int]));
        let _ = items[i].encode(tag, stream);
        proof {
            let lv = ordered_list(elements_view(items@));
            assert(lv.subrange(0, i + 1).subrange(0, i as int) =~= lv.subrange(0, i as int));
            assert(lv[i as int] == ordered_value(items@[i as int]@));
        }
        i = i + 1;
    }
    assert(ordered_list(elements_view(items@)).subrange(0, items@.len() as int) =~= ordered_list(elements_view(items@)));
}

fn encode_fields_into<'a>(fields: &Vec<(u32, Element<'a>)>, stream: &mut Vec<u8>)
    requires
        forall|i: int| 0 <= i < object_view(fields@).len() ==> field_ok(#[trigger] object_view(fields@)[i]),
    ensures
        final(stream)@ == old(stream)@ + message_bytes(object_view(fields@)),
    decreases fields,
{
    let ghost fv = object_view(fields@);
    let ghost of = ordered_fields(fv);
    let ghost sorted = by_tag(of);
    proof {
        lemma_object_view(fields@);
        lemma_ordered_fields(fv);
        lemma_tag_order_range(field_tags(of));
        assert(field_tags(fields@) =~= field_tags(fv));
    }
    let ord = order_of(fields);
    let n: usize = ord.len();
    let mut j: usize = 0;
    while j < n
        invariant
            n == ord@.len(),
            n == fields@.len(),
            fv == object_view(fields@),
            of == ordered_fields(fv),
            sorted == by_tag(of),
            sorted.len() == n,
            fv.len() == n,
            forall|m: int| 0 <= m < n ==> #[trigger] fv[m] == (fields@[m].0, fields@[m].1@),
            forall|m: int| 0 <= m < n ==> field_ok(#[trigger] fv[m]),
            forall|m: int| 0 <= m < n ==> #[trigger] ord@[m] < n,
            forall|m: int| 0 <= m < n ==> #[trigger] sorted[m] == (fv[ord@[m] as int].0, ordered_value(fv[ord@[m] as int].1)),
            j <= n,
            stream@ == old(stream)@ + encode_fields(sorted.subrange(0, j as int)),
        decreases n - j,
    {
        let k = ord[j];
        let field = &fields[k];
        assert(field_ok(fv[k as int]));
        let _ = field.1.encode(field.0, stream);
        proof {
            assert(sorted.subrange(0, j + 1).subrange(0, j as int) =~= sorted.subrange(0, j as int));
            assert(sorted[j as int] == (field.0, ordered_value(field.1@)));
        }
        j = j + 1;
    }
    assert(sorted.subrange(0, n as int) =~= sorted);
}

impl<'a> Object<'a> {
    /// An empty message.
    pub fn new() -> (o: Self)
        ensures
            o@ == Seq::<(u32, EncodedValue)>::empty(),
    {
        Object { fields: Vec::new() }
    }

    /// An empty message with room for `capacity` fields.
    pub fn with_capacity(capacity: usize) -> (o: Self)
        ensures
            o@ == Seq::<(u32, EncodedValue)>::empty(),
    {
        Object { fields: Vec::with_capacity(capacity) }
    }

    /// The bytes of the message: its fields, at every depth in ascending order of their numbers
    /// (see `message_bytes`).
    pub fn encode(&self) -> (r: Result<Vec<u8>, ProtobufError>)
        requires
            value_tags_ok(EncodedValue::Object(self@)),
        ensures
            r matches Ok(b) && b@ == message_bytes(self@),
    {
        let mut buf: Vec<u8> = Vec::with_capacity(fields_size_hint(&self.fields));
        proof {
            lemma_fields_tags_ok(self@);
        }
        encode_fields_into(&self.fields, &mut buf);
        Ok(buf)
    }
}


proof fn lemma_object_push<'a>(s: Seq<(u32, Element<'a>)>, x: (u32, Element<'a>))
    ensures
        object_view(s.push(x)) == object_view(s).push((x.0, x.1@)),
{
    assert(s.push(x).subrange(0, s.len() as int) =~= s);
}

proof fn lemma_object_update<'a>(s: Seq<(u32, Element<'a>)>, i: int, x: (u32, Element<'a>))
    requires
        0 <= i < s.len(),
    ensures
        object_view(s.update(i, x)) == object_view(s).update(i, (x.0, x.1@)),
{
    lemma_object_view(s);
    lemma_object_view(s.update(i, x));
    assert(object_view(s.update(i, x)) =~= object_view(s).update(i, (x.0, x.1@)));
}

impl<'a> Object<'a> {
    fn position(&self, tag: u32) -> (r: usize)
        ensures
            r <= self.fields@.len(),
            r == self.fields@.len() ==> find_field(self@, tag, 0) == -1,
            r < self.fields@.len() ==> find_field(self@, tag, 0) == r,
    {
        proof {
            lemma_object_view(self.fields@);
        }
        let mut i: usize = 0;
        while i < self.fields.len()
            invariant
                i <= self.fields@.len(),
                object_view(self.fields@).len() == self.fields@.len(),
                forall|j: int| 0 <= j < self.fields@.len() ==> #[trigger] object_view(self.fields@)[j] == (self.fields@[j].0, self.fields@[j].1@),
                find_field(self@, tag, 0) == find_field(self@, tag, i as int),
            decreases self.fields@.len() - i,
        {
            assert(object_view(self.fields@)[i as int].0 == self.fields@[i as int].0);
            if self.fields[i].0 == tag {
                return i;
            }
            i = i + 1;
        }
        i
    }

    /// Sets field `tag` to `value`: in place where the number is there, else at the end.
    pub fn insert(&mut self, tag: u32, value: Element<'a>)
        ensures
            final(self)@ == pb_set(old(self)@, tag, value@),
    {
        let i = self.position(tag);
        if i == self.fields.len() {
            proof {
                lemma_object_push(self.fields@, (tag, value));
            }
            self.fields.push((tag, value));
        } else {
            let ghost before = self.fields@;
            self.fields.set(i, (tag, value));
            proof {
                lemma_object_update(before, i as int, (tag, value));
            }
        }
    }

    /// The message of the given fields, a later value of a number replacing an earlier one (see
    /// `pb_collect`).
    pub fn from_fields(arr: Vec<(u32, Element<'a>)>) -> (o: Self)
        ensures
            o@ == pb_collect(object_view(arr@)),
    {
        let ghost all = object_view(arr@);
        proof {
            lemma_object_view(arr@);
        }
        let mut rest = arr;
        let mut o = Object::new();
        let ghost mut k: int = 0;
        while rest.len() > 0
            invariant
                0 <= k <= all.len(),
                all.len() == k + rest@.len(),
                forall|j: int| 0 <= j < rest@.len() ==> all[k + j] == (#[trigger] rest@[j].0, rest@[j].1@),
                o@ == pb_collect(all.take(k)),
            decreases rest@.len(),
        {
            let ghost before = rest@;
            let (tag, value) = rest.remove(0);
            proof {
                assert(all[k] == (tag, value@));
                assert(all.take(k + 1).drop_last() =~= all.take(k));
                assert forall|j: int| 0 <= j < rest@.len() implies all[k + 1 + j] == (#[trigger] rest@[j].0, rest@[j].1@) by {
                    assert(rest@[j] == before[j + 1]);
                }
            }
            o.insert(tag, value);
            proof {
                k = k + 1;
            }
        }
        assert(all.take(k) =~= all);
        o
    }
}


impl<'a> Element<'a> {
    /// Whether every field number in the element can be written (see `value_tags_ok`).
    pub fn tags_fit(&self) -> (b: bool)
        ensures
            b == value_tags_ok(self@),
        decreases self,
    {
        match self {
            Element::Array(items) => list_fits(items),
            Element::Object(o) => fields_fit(&o.fields),
            _ => true,
        }
    }
}

fn list_fits<'a>(items: &Vec<Element<'a>>) -> (b: bool)
    ensures
        b == list_tags_ok(elements_view(items@)),
    decreases items,
{
    proof {
        lemma_elements_view(items@);
        lemma_list_tags_ok(elements_view(items@));
    }
    let mut i: usize = 0;
    while i < items.len()
        invariant
            i <= items@.len(),
            elements_view(items@).len() == items@.len(),
            forall|j: int| 0 <= j < items@.len() ==> #[trigger] elements_view(items@)[j] == items@[j]@,
            forall|j: int| 0 <= j < i ==> value_tags_ok(#[trigger] elements_view(items@)[j]),
            list_tags_ok(elements_view(items@)) <==> forall|j: int| 0 <= j < elements_view(items@).len() ==> value_tags_ok(#[trigger] elements_view(items@)[j]),
        decreases items@.len() - i,
    {
        if !items[i].tags_fit() {
            assert(!value_tags_ok(elements_view(items@)[i as int]));
            return false;
        }
        i = i + 1;
    }
    true
}

fn fields_fit<'a>(fields: &Vec<(u32, Element<'a>)>) -> (b: bool)
    ensures
        b == fields_tags_ok(object_view(fields@)),
    decreases fields,
{
    proof {
        lemma_object_view(fields@);
        lemma_fields_tags_ok(object_view(fields@));
    }
    let mut i: usize = 0;
    while i < fields.len()
        invariant
            i <= fields@.len(),
            object_view(fields@).len() == fields@.len(),
            forall|j: int| 0 <= j < fields@.len() ==> #[trigger] object_view(fields@)[j] == (fields@[j].0, fields@[j].1@),
            forall|j: int| 0 <= j < i ==> field_ok(#[trigger] object_view(fields@)[j]),
            fields_tags_ok(object_view(fields@)) <==> forall|j: int| 0 <= j < object_view(fields@).len() ==> field_ok(#[trigger] object_view(fields@)[j]),
        decreases fields@.len() - i,
    {
        let tag = fields[i].0;
        if !(1 <= tag && tag < 0x2000_0000) || !fields[i].1.tags_fit() {
            assert(!field_ok(object_view(fields@)[i as int]));
            return false;
        }
        i = i + 1;
    }
    true
}

impl<'a> Object<'a> {
    /// Whether every field number of the message, and within its values, can be written: what
    /// a caller tests before `encode`.
    pub fn tags_fit(&self) -> (b: bool)
        ensures
            b == value_tags_ok(EncodedValue::Object(self@)),
    {
        fields_fit(&self.fields)
    }
}

} // verus!
