use vstd::prelude::*;
use vstd::utf8::{decode_utf8, encode_utf8, valid_utf8};

use super::writer::{bytes_result, be_u16, be_u32, be_u64, be_word, copy_range, lemma_be_word_of_be_u32, read_be_u32, write_bytes, write_i16, write_i32, write_i64, write_u32, write_u64, write_u8};


verus! {

/// Errors of the JCE codec and of reading elements out of JCE values.
#[derive(Debug, Clone, Copy, PartialEq, Eq)]
pub enum JceError {
    NotFloat,
    NotDouble,
    NotInt64,
    NotInt32,
    NotInt16,
    NotInt8,
    NotString,
    NotSimpleList,
    TagOverflowed(usize),
    DecodeError,
    TypeNotMatched(u8),
    ItemNotFound(u8),
    /// The input ended inside an element.
    UnexpectedEof,
    /// A string's bytes are not UTF-8.
    InvalidUtf8,
}

/// The type of a JCE element, as it is written in the low four bits of the element's head.
#[derive(Debug, Clone, Copy, PartialEq, Eq)]
pub enum Type {
    Int8,
    Int16,
    Int32,
    Int64,
    Float,
    Double,
    String1,
    String4,
    Mapping,
    List,
    StructBegin,
    StructEnd,
    Zero,
    SimpleList,
}

/// A JCE element. `Float` and `Double` hold the bits of the IEEE-754 number (`f32::to_bits`,
/// `f64::to_bits`), which is all the codec reads and writes of them.
#[derive(Debug)]
pub enum JceElement {
    Zero,
    Int8(i8),
    Int16(i16),
    Int32(i32),
    Int64(i64),
    Float(u32),
    Double(u64),
    String1(String),
    String4(String),
    SimpleList(Vec<u8>),
    List(Vec<JceElement>),
    Mapping(Vec<(String, JceElement)>),
    StructBegin(JceObject),
    StructEnd,
}

/// A JCE struct: elements by tag. The methods keep the fields in increasing tag order with each
/// tag at most once (`fields_wf`), which is the order they are written in.
#[derive(Debug)]
pub struct JceObject {
    pub fields: Vec<(u8, JceElement)>,
}

/// The mathematical value of a JCE element: strings by their characters, byte lists by their
/// bytes, structs as the sequence of their (tag, value) pairs.
pub enum JceValue {
    Zero,
    Int8(i8),
    Int16(i16),
    Int32(i32),
    Int64(i64),
    Float(u32),
    Double(u64),
    String1(Seq<char>),
    String4(Seq<char>),
    SimpleList(Seq<u8>),
    List(Seq<JceValue>),
    Mapping(Seq<(Seq<char>, JceValue)>),
    Struct(Seq<(u8, JceValue)>),
    StructEnd,
}

/// The value of an element.
pub open spec fn element_view(e: JceElement) -> JceValue
    decreases e,
{
    match e {
        JceElement::Zero => JceValue::Zero,
        JceElement::Int8(v) => JceValue::Int8(v),
        JceElement::Int16(v) => JceValue::Int16(v),
        JceElement::Int32(v) => JceValue::Int32(v),
        JceElement::Int64(v) => JceValue::Int64(v),
        JceElement::Float(v) => JceValue::Float(v),
        JceElement::Double(v) => JceValue::Double(v),
        JceElement::String1(s) => JceValue::String1(s@),
        JceElement::String4(s) => JceValue::String4(s@),
        JceElement::SimpleList(b) => JceValue::SimpleList(b@),
        JceElement::List(l) => JceValue::List(list_view(l@)),
        JceElement::Mapping(m) => JceValue::Mapping(map_view(m@)),
        JceElement::StructBegin(o) => JceValue::Struct(fields_view(o.fields@)),
        JceElement::StructEnd => JceValue::StructEnd,
    }
}

/// The values of a list's elements.
pub open spec fn list_view(s: Seq<JceElement>) -> Seq<JceValue>
    decreases s,
{
    if s.len() == 0 {
        Seq::empty()
    } else {
        list_view(s.subrange(0, s.len() - 1)).push(element_view(s[s.len() - 1]))
    }
}

/// The entries of a map by value.
pub open spec fn map_view(s: Seq<(String, JceElement)>) -> Seq<(Seq<char>, JceValue)>
    decreases s,
{
    if s.len() == 0 {
        Seq::empty()
    } else {
        map_view(s.subrange(0, s.len() - 1)).push((s[s.len() - 1].0@, element_view(s[s.len() - 1].1)))
    }
}

/// The fields of a struct by value.
pub open spec fn fields_view(s: Seq<(u8, JceElement)>) -> Seq<(u8, JceValue)>
    decreases s,
{
    if s.len() == 0 {
        Seq::empty()
    } else {
        fields_view(s.subrange(0, s.len() - 1)).push((s[s.len() - 1].0, element_view(s[s.len() - 1].1)))
    }
}

impl View for JceElement {
    type V = JceValue;

    open spec fn view(&self) -> JceValue {
        element_view(*self)
    }
}

impl View for JceObject {
    type V = Seq<(u8, JceValue)>;

    open spec fn view(&self) -> Seq<(u8, JceValue)> {
        fields_view(self.fields@)
    }
}


/// The number a type is written as.
pub open spec fn type_code(v: JceValue) -> u8 {
    match v {
        JceValue::Int8(_) => 0,
        JceValue::Int16(_) => 1,
        JceValue::Int32(_) => 2,
        JceValue::Int64(_) => 3,
        JceValue::Float(_) => 4,
        JceValue::Double(_) => 5,
        JceValue::String1(_) => 6,
        JceValue::String4(_) => 7,
        JceValue::Mapping(_) => 8,
        JceValue::List(_) => 9,
        JceValue::Struct(_) => 10,
        JceValue::StructEnd => 11,
        JceValue::Zero => 12,
        JceValue::SimpleList(_) => 13,
    }
}

/// The head of an element: the tag in the high four bits and the type in the low four, or, for
/// a tag of 15 or more, `0xf0 | type` followed by the tag.
pub open spec fn head_bytes(tag: u8, t: u8) -> Seq<u8> {
    if tag < 15 {
        seq![(tag << 4u8) | t]
    } else {
        seq![0xf0u8 | t, tag]
    }
}

/// The smallest element that holds the integer `n`: `Zero` for 0, else the narrowest of
/// `Int8`, `Int16`, `Int32` and `Int64` that it fits in.
pub open spec fn int_value(n: i64) -> JceValue {
    if n == 0 {
        JceValue::Zero
    } else if -0x80 <= n <= 0x7f {
        JceValue::Int8(n as i8)
    } else if -0x8000 <= n <= 0x7fff {
        JceValue::Int16(n as i16)
    } else if -0x8000_0000 <= n <= 0x7fff_ffff {
        JceValue::Int32(n as i32)
    } else {
        JceValue::Int64(n)
    }
}

/// The element that holds a string: `String1` when its UTF-8 bytes number at most 255, else
/// `String4`.
pub open spec fn string_value(s: Seq<char>) -> JceValue {
    if encode_utf8(s).len() <= 255 {
        JceValue::String1(s)
    } else {
        JceValue::String4(s)
    }
}

/// The bytes of an integer element (as `int_value` chooses it) with the given tag.
pub open spec fn encode_int(tag: u8, n: i64) -> Seq<u8> {
    let v = int_value(n);
    head_bytes(tag, type_code(v)) + match v {
        JceValue::Int8(x) => seq![x as u8],
        JceValue::Int16(x) => be_u16(x as u16),
        JceValue::Int32(x) => be_u32(x as u32),
        JceValue::Int64(x) => be_u64(x as u64),
        _ => Seq::empty(),
    }
}

/// The bytes of a string element (as `string_value` chooses it) with the given tag.
pub open spec fn encode_string(tag: u8, s: Seq<char>) -> Seq<u8> {
    let b = encode_utf8(s);
    if b.len() <= 255 {
        head_bytes(tag, 6) + seq![b.len() as u8] + b
    } else {
        head_bytes(tag, 7) + be_u32(b.len() as u32) + b
    }
}

/// The bytes of an element with the given tag. List items are written with tag 0, map keys with
/// tag 0 and map values with tag 1; a struct's fields are followed by a `StructEnd` head.
pub open spec fn encode_element(tag: u8, v: JceValue) -> Seq<u8>
    decreases v,
{
    head_bytes(tag, type_code(v)) + match v {
        JceValue::Zero => Seq::empty(),
        JceValue::Int8(x) => seq![x as u8],
        JceValue::Int16(x) => be_u16(x as u16),
        JceValue::Int32(x) => be_u32(x as u32),
        JceValue::Int64(x) => be_u64(x as u64),
        JceValue::Float(b) => be_u32(b),
        JceValue::Double(b) => be_u64(b),
        JceValue::String1(s) => seq![encode_utf8(s).len() as u8] + encode_utf8(s),
        JceValue::String4(s) => be_u32(encode_utf8(s).len() as u32) + encode_utf8(s),
        JceValue::SimpleList(b) => head_bytes(0, 0) + encode_int(0, b.len() as i64) + b,
        JceValue::List(items) => encode_int(0, items.len() as i64) + encode_items(items),
        JceValue::Mapping(entries) => encode_int(0, entries.len() as i64) + encode_entries(entries),
        JceValue::Struct(fields) => encode_fields(fields) + head_bytes(0, 11),
        JceValue::StructEnd => Seq::empty(),
    }
}

/// The items of a list, each with tag 0, one after another.
pub open spec fn encode_items(items: Seq<JceValue>) -> Seq<u8>
    decreases items,
{
    if items.len() == 0 {
        Seq::empty()
    } else {
        encode_items(items.subrange(0, items.len() - 1)) + encode_element(0, items[items.len() - 1])
    }
}

/// The entries of a map: each key as a string with tag 0, then its value with tag 1.
pub open spec fn encode_entries(entries: Seq<(Seq<char>, JceValue)>) -> Seq<u8>
    decreases entries,
{
    if entries.len() == 0 {
        Seq::empty()
    } else {
        let last = entries[entries.len() - 1];
        encode_entries(entries.subrange(0, entries.len() - 1)) + encode_string(0, last.0)
            + encode_element(1, last.1)
    }
}

/// The fields of a struct, each with its tag, in order.
pub open spec fn encode_fields(fields: Seq<(u8, JceValue)>) -> Seq<u8>
    decreases fields,
{
    if fields.len() == 0 {
        Seq::empty()
    } else {
        let last = fields[fields.len() - 1];
        encode_fields(fields.subrange(0, fields.len() - 1)) + encode_element(last.0, last.1)
    }
}

pub proof fn lemma_list_view(s: Seq<JceElement>)
    ensures
        list_view(s).len() == s.len(),
        forall|i: int| 0 <= i < s.len() ==> #[trigger] list_view(s)[i] == s[i]@,
    decreases s.len(),
{
    if s.len() > 0 {
        lemma_list_view(s.subrange(0, s.len() - 1));
    }
}

pub proof fn lemma_map_view(s: Seq<(String, JceElement)>)
    ensures
        map_view(s).len() == s.len(),
        forall|i: int| 0 <= i < s.len() ==> #[trigger] map_view(s)[i] == (s[i].0@, s[i].1@),
    decreases s.len(),
{
    if s.len() > 0 {
        lemma_map_view(s.subrange(0, s.len() - 1));
    }
}

pub proof fn lemma_fields_view(s: Seq<(u8, JceElement)>)
    ensures
        fields_view(s).len() == s.len(),
        forall|i: int| 0 <= i < s.len() ==> #[trigger] fields_view(s)[i] == (s[i].0, s[i].1@),
    decreases s.len(),
{
    if s.len() > 0 {
        lemma_fields_view(s.subrange(0, s.len() - 1));
    }
}

impl Type {
    /// The number this type is written as.
    pub open spec fn spec_code(self) -> u8 {
        match self {
            Type::Int8 => 0,
            Type::Int16 => 1,
            Type::Int32 => 2,
            Type::Int64 => 3,
            Type::Float => 4,
            Type::Double => 5,
            Type::String1 => 6,
            Type::String4 => 7,
            Type::Mapping => 8,
            Type::List => 9,
            Type::StructBegin => 10,
            Type::StructEnd => 11,
            Type::Zero => 12,
            Type::SimpleList => 13,
        }
    }

    /// The number this type is written as.
    #[verifier::when_used_as_spec(spec_code)]
    pub fn code(self) -> (c: u8)
        ensures
            c == self.spec_code(),
    {
        match self {
            Type::Int8 => 0,
            Type::Int16 => 1,
            Type::Int32 => 2,
            Type::Int64 => 3,
            Type::Float => 4,
            Type::Double => 5,
            Type::String1 => 6,
            Type::String4 => 7,
            Type::Mapping => 8,
            Type::List => 9,
            Type::StructBegin => 10,
            Type::StructEnd => 11,
            Type::Zero => 12,
            Type::SimpleList => 13,
        }
    }

    /// The type written as `byte`; a number above 13 names none.
    pub fn try_from_code(byte: u8) -> (r: Result<Type, JceError>)
        ensures
            match r {
                Ok(t) => byte <= 13 && t.spec_code() == byte,
                Err(e) => byte > 13 && e == JceError::TypeNotMatched(byte),
            },
    {
        if byte == 0 {
            Ok(Type::Int8)
        } else if byte == 1 {
            Ok(Type::Int16)
        } else if byte == 2 {
            Ok(Type::Int32)
        } else if byte == 3 {
            Ok(Type::Int64)
        } else if byte == 4 {
            Ok(Type::Float)
        } else if byte == 5 {
            Ok(Type::Double)
        } else if byte == 6 {
            Ok(Type::String1)
        } else if byte == 7 {
            Ok(Type::String4)
        } else if byte == 8 {
            Ok(Type::Mapping)
        } else if byte == 9 {
            Ok(Type::List)
        } else if byte == 10 {
            Ok(Type::StructBegin)
        } else if byte == 11 {
            Ok(Type::StructEnd)
        } else if byte == 12 {
            Ok(Type::Zero)
        } else if byte == 13 {
            Ok(Type::SimpleList)
        } else {
            Err(JceError::TypeNotMatched(byte))
        }
    }
}

fn create_head(stream: &mut Vec<u8>, tag: u8, t: u8)
    requires
        t <= 15,
    ensures
        final(stream)@ == old(stream)@ + head_bytes(tag, t),
{
    if tag < 15 {
        stream.push((tag << 4u8) | t);
    } else {
        stream.push(0xf0u8 | t);
        stream.push(tag);
    }
    assert(final(stream)@ =~= old(stream)@ + head_bytes(tag, t));
}

impl JceElement {
    /// The smallest element that holds `value` (see `int_value`).
    pub fn from_i64(value: i64) -> (e: JceElement)
        ensures
            e@ == int_value(value),
    {
        if value == 0 {
            JceElement::Zero
        } else if value >= -0x80 && value <= 0x7f {
            JceElement::Int8(value as i8)
        } else if value >= -0x8000 && value <= 0x7fff {
            JceElement::Int16(value as i16)
        } else if value >= -0x8000_0000 && value <= 0x7fff_ffff {
            JceElement::Int32(value as i32)
        } else {
            JceElement::Int64(value)
        }
    }

    /// The type this element is written with.
    pub fn type_of(&self) -> (t: Type)
        ensures
            t.code() == type_code(self@),
    {
        match self {
            JceElement::Zero => Type::Zero,
            JceElement::Int8(_) => Type::Int8,
            JceElement::Int16(_) => Type::Int16,
            JceElement::Int32(_) => Type::Int32,
            JceElement::Int64(_) => Type::Int64,
            JceElement::Float(_) => Type::Float,
            JceElement::Double(_) => Type::Double,
            JceElement::String1(_) => Type::String1,
            JceElement::String4(_) => Type::String4,
            JceElement::SimpleList(_) => Type::SimpleList,
            JceElement::List(_) => Type::List,
            JceElement::Mapping(_) => Type::Mapping,
            JceElement::StructBegin(_) => Type::StructBegin,
            JceElement::StructEnd => Type::StructEnd,
        }
    }
}

fn create_int(stream: &mut Vec<u8>, tag: u8, n: i64)
    ensures
        final(stream)@ == old(stream)@ + encode_int(tag, n),
{
    let e = JceElement::from_i64(n);
    let t = e.type_of();
    create_head(stream, tag, t.code());
    match e {
        JceElement::Int8(x) => write_u8(stream, x as u8),
        JceElement::Int16(x) => write_i16(stream, x),
        JceElement::Int32(x) => write_i32(stream, x),
        JceElement::Int64(x) => write_i64(stream, x),
        _ => {},
    }
    assert(final(stream)@ =~= old(stream)@ + encode_int(tag, n));
}

fn create_string(stream: &mut Vec<u8>, tag: u8, s: &String)
    ensures
        final(stream)@ == old(stream)@ + encode_string(tag, s@),
{
    let b = s.as_str().as_bytes();
    let len = b.len();
    if len <= 255 {
        create_head(stream, tag, 6);
        write_u8(stream, len as u8);
    } else {
        create_head(stream, tag, 7);
        write_u32(stream, len as u32);
    }
    write_bytes(stream, b);
    assert(final(stream)@ =~= old(stream)@ + encode_string(tag, s@));
}

fn create_element(stream: &mut Vec<u8>, tag: u8, element: &JceElement)
    ensures
        final(stream)@ == old(stream)@ + encode_element(tag, element@),
    decreases element,
{
    let t = element.type_of();
    create_head(stream, tag, t.code());
    let ghost start = stream@;
    match element {
        JceElement::Zero => {},
        JceElement::Int8(x) => write_u8(stream, *x as u8),
        JceElement::Int16(x) => write_i16(stream, *x),
        JceElement::Int32(x) => write_i32(stream, *x),
        JceElement::Int64(x) => write_i64(stream, *x),
        JceElement::Float(b) => write_u32(stream, *b),
        JceElement::Double(b) => write_u64(stream, *b),
        JceElement::String1(s) => {
            let b = s.as_str().as_bytes();
            write_u8(stream, b.len() as u8);
            write_bytes(stream, b);
        },
        JceElement::String4(s) => {
            let b = s.as_str().as_bytes();
            write_u32(stream, b.len() as u32);
            write_bytes(stream, b);
        },
        JceElement::SimpleList(b) => {
            create_head(stream, 0, 0);
            create_int(stream, 0, b.len() as i64);
            write_bytes(stream, b.as_slice());
        },
        JceElement::List(items) => {
            proof {
                lemma_list_view(items@);
            }
            create_int(stream, 0, items.len() as i64);
            encode_items_into(stream, items);
        },
        JceElement::Mapping(entries) => {
            proof {
                lemma_map_view(entries@);
            }
            create_int(stream, 0, entries.len() as i64);
            encode_entries_into(stream, entries);
        },
        JceElement::StructBegin(object) => {
            encode_fields_into(stream, &object.fields);
            create_head(stream, 0, 11);
        },
        JceElement::StructEnd => {},
    }
    assert(final(stream)@ =~= old(stream)@ + encode_element(tag, element@));
}

fn encode_items_into(stream: &mut Vec<u8>, items: &Vec<JceElement>)
    ensures
        final(stream)@ == old(stream)@ + encode_items(list_view(items@)),
    decreases items,
{
    proof {
        lemma_list_view(items@);
    }
    let mut i: usize = 0;
    while i < items.len()
        invariant
            i <= items@.len(),
            list_view(items@).len() == items@.len(),
            forall|j: int| 0 <= j < items@.len() ==> #[trigger] list_view(items@)[j] == items@[j]@,
            stream@ == old(stream)@ + encode_items(list_view(items@).subrange(0, i as int)),
        decreases items@.len() - i,
    {
        create_element(stream, 0, &items[i]);
        proof {
            let lv = list_view(items@);
            assert(lv.subrange(0, i + 1).subrange(0, i as int) =~= lv.subrange(0, i as int));
        }
        i = i + 1;
    }
    assert(list_view(items@).subrange(0, items@.len() as int) =~= list_view(items@));
}

fn encode_entries_into(stream: &mut Vec<u8>, entries: &Vec<(String, JceElement)>)
    ensures
        final(stream)@ == old(stream)@ + encode_entries(map_view(entries@)),
    decreases entries,
{
    proof {
        lemma_map_view(entries@);
    }
    let mut i: usize = 0;
    while i < entries.len()
        invariant
            i <= entries@.len(),
            map_view(entries@).len() == entries@.len(),
            forall|j: int| 0 <= j < entries@.len() ==> #[trigger] map_view(entries@)[j] == (entries@[j].0@, entries@[j].1@),
            stream@ == old(stream)@ + encode_entries(map_view(entries@).subrange(0, i as int)),
        decreases entries@.len() - i,
    {
        let entry = &entries[i];
        create_string(stream, 0, &entry.0);
        create_element(stream, 1, &entry.1);
        proof {
            let mv = map_view(entries@);
            assert(mv.subrange(0, i + 1).subrange(0, i as int) =~= mv.subrange(0, i as int));
        }
        i = i + 1;
    }
    assert(map_view(entries@).subrange(0, entries@.len() as int) =~= map_view(entries@));
}

fn encode_fields_into(stream: &mut Vec<u8>, fields: &Vec<(u8, JceElement)>)
    ensures
        final(stream)@ == old(stream)@ + encode_fields(fields_view(fields@)),
    decreases fields,
{
    proof {
        lemma_fields_view(fields@);
    }
    let mut i: usize = 0;
    while i < fields.len()
        invariant
            i <= fields@.len(),
            fields_view(fields@).len() == fields@.len(),
            forall|j: int| 0 <= j < fields@.len() ==> #[trigger] fields_view(fields@)[j] == (fields@[j].0, fields@[j].1@),
            stream@ == old(stream)@ + encode_fields(fields_view(fields@).subrange(0, i as int)),
        decreases fields@.len() - i,
    {
        let field = &fields[i];
        create_element(stream, field.0, &field.1);
        proof {
            let fv = fields_view(fields@);
            assert(fv.subrange(0, i + 1).subrange(0, i as int) =~= fv.subrange(0, i as int));
        }
        i = i + 1;
    }
    assert(fields_view(fields@).subrange(0, fields@.len() as int) =~= fields_view(fields@));
}


// ---------------------------------------------------------------------------------------------
// Decoding
// ---------------------------------------------------------------------------------------------

/// The 16-bit number held big-endian at `s[i..i + 2]`.
pub open spec fn be_half(s: Seq<u8>, i: int) -> u16 {
    ((s[i] as u16) << 8u16) | (s[i + 1] as u16)
}

/// The 64-bit number held big-endian at `s[i..i + 8]`.
pub open spec fn be_dword(s: Seq<u8>, i: int) -> u64 {
    ((be_word(s, i) as u64) << 32u64) | (be_word(s, i + 4) as u64)
}

/// Whether a parse that started at `p` stopped at `q` further on, inside `s`.
pub open spec fn advanced(s: Seq<u8>, p: int, q: int) -> bool {
    p < q <= s.len()
}

/// Reads a head at `p`: the tag, the type number and where the body starts. A type number above
/// 13 is rejected before an extended tag byte is read.
pub open spec fn parse_head(s: Seq<u8>, p: int) -> Result<(u8, u8, int), JceError> {
    if p < 0 || p >= s.len() {
        Err(JceError::UnexpectedEof)
    } else {
        let h = s[p];
        let t = h & 0x0fu8;
        if t > 13 {
            Err(JceError::TypeNotMatched(t))
        } else if (h >> 4u8) == 15 {
            if p + 1 >= s.len() {
                Err(JceError::UnexpectedEof)
            } else {
                Ok((s[p + 1], t, p + 2))
            }
        } else {
            Ok((h >> 4u8, t, p + 1))
        }
    }
}

/// The integer an element holds, for a length or a count (`Zero` and the four integer types).
pub open spec fn as_count(v: JceValue) -> Result<i64, JceError> {
    match v {
        JceValue::Zero => Ok(0),
        JceValue::Int8(x) => Ok(x as i64),
        JceValue::Int16(x) => Ok(x as i64),
        JceValue::Int32(x) => Ok(x as i64),
        JceValue::Int64(x) => Ok(x),
        _ => Err(JceError::NotInt64),
    }
}

/// The string a map key holds.
pub open spec fn as_key(v: JceValue) -> Result<Seq<char>, JceError> {
    match v {
        JceValue::String1(c) => Ok(c),
        JceValue::String4(c) => Ok(c),
        _ => Err(JceError::NotString),
    }
}

/// Reads `len` bytes at `p` as a UTF-8 string.
pub open spec fn parse_string(s: Seq<u8>, p: int, len: int) -> Result<(Seq<char>, int), JceError> {
    if p + len > s.len() {
        Err(JceError::UnexpectedEof)
    } else {
        let b = s.subrange(p, p + len);
        if valid_utf8(b) {
            Ok((decode_utf8(b), p + len))
        } else {
            Err(JceError::InvalidUtf8)
        }
    }
}

/// Where `k` is in the map's entries, or the number of entries where it is not there.
pub open spec fn key_pos(m: Seq<(Seq<char>, JceValue)>, k: Seq<char>) -> int
    decreases m.len(),
{
    if m.len() == 0 {
        0
    } else if m[0].0 == k {
        0
    } else {
        1 + key_pos(m.subrange(1, m.len() as int), k)
    }
}

/// A map with `k` set to `v`: in place where `k` is there, else added at the end.
pub open spec fn map_insert(m: Seq<(Seq<char>, JceValue)>, k: Seq<char>, v: JceValue) -> Seq<(Seq<char>, JceValue)> {
    let i = key_pos(m, k);
    if i < m.len() {
        m.update(i, (k, v))
    } else {
        m.push((k, v))
    }
}

/// How many of the struct's leading fields have a tag below `tag`.
pub open spec fn tag_pos(f: Seq<(u8, JceValue)>, tag: u8) -> int
    decreases f.len(),
{
    if f.len() == 0 {
        0
    } else if f[0].0 < tag {
        1 + tag_pos(f.subrange(1, f.len() as int), tag)
    } else {
        0
    }
}

/// A struct with the field `tag` set to `v`: in place where the tag is there, else inserted in
/// tag order.
pub open spec fn obj_insert(f: Seq<(u8, JceValue)>, tag: u8, v: JceValue) -> Seq<(u8, JceValue)> {
    let i = tag_pos(f, tag);
    if i < f.len() && f[i].0 == tag {
        f.update(i, (tag, v))
    } else {
        f.insert(i, (tag, v))
    }
}

/// Reads one element at `p`: its tag, its value and where it ends.
pub open spec fn parse_element(s: Seq<u8>, p: int) -> Result<(u8, JceValue, int), JceError>
    decreases s.len() - p, 0nat,
{
    if p < 0 || p > s.len() {
        Err(JceError::UnexpectedEof)
    } else {
        match parse_head(s, p) {
            Err(e) => Err(e),
            Ok((tag, t, q)) => match parse_body(s, q, t) {
                Err(e) => Err(e),
                Ok((v, r)) => Ok((tag, v, r)),
            },
        }
    }
}

/// Reads the body of an element of type number `t` at `p`. Lengths and counts are elements of
/// their own, taken as `i64` and then as `usize`.
pub open spec fn parse_body(s: Seq<u8>, p: int, t: u8) -> Result<(JceValue, int), JceError>
    decreases s.len() - p, 2nat,
{
    if p < 0 || p > s.len() {
        Err(JceError::UnexpectedEof)
    } else if t == 0 {
        if p + 1 > s.len() { Err(JceError::UnexpectedEof) } else { Ok((JceValue::Int8(s[p] as i8), p + 1)) }
    } else if t == 1 {
        if p + 2 > s.len() { Err(JceError::UnexpectedEof) } else { Ok((JceValue::Int16(be_half(s, p) as i16), p + 2)) }
    } else if t == 2 {
        if p + 4 > s.len() { Err(JceError::UnexpectedEof) } else { Ok((JceValue::Int32(be_word(s, p) as i32), p + 4)) }
    } else if t == 3 {
        if p + 8 > s.len() { Err(JceError::UnexpectedEof) } else { Ok((JceValue::Int64(be_dword(s, p) as i64), p + 8)) }
    } else if t == 4 {
        if p + 4 > s.len() { Err(JceError::UnexpectedEof) } else { Ok((JceValue::Float(be_word(s, p)), p + 4)) }
    } else if t == 5 {
        if p + 8 > s.len() { Err(JceError::UnexpectedEof) } else { Ok((JceValue::Double(be_dword(s, p)), p + 8)) }
    } else if t == 6 {
        if p + 1 > s.len() {
            Err(JceError::UnexpectedEof)
        } else {
            match parse_string(s, p + 1, s[p] as int) {
                Err(e) => Err(e),
                Ok((c, r)) => Ok((JceValue::String1(c), r)),
            }
        }
    } else if t == 7 {
        if p + 4 > s.len() {
            Err(JceError::UnexpectedEof)
        } else {
            match parse_string(s, p + 4, be_word(s, p) as int) {
                Err(e) => Err(e),
                Ok((c, r)) => Ok((JceValue::String4(c), r)),
            }
        }
    } else if t == 8 {
        match parse_element(s, p) {
            Err(e) => Err(e),
            Ok((_, c, q)) => match as_count(c) {
                Err(e) => Err(e),
                Ok(n) => if !advanced(s, p, q) {
                    Err(JceError::DecodeError)
                } else {
                    match parse_entries(s, q, (n as usize) as nat, Seq::empty()) {
                        Err(e) => Err(e),
                        Ok((m, r)) => Ok((JceValue::Mapping(m), r)),
                    }
                },
            },
        }
    } else if t == 9 {
        match parse_element(s, p) {
            Err(e) => Err(e),
            Ok((_, c, q)) => match as_count(c) {
                Err(e) => Err(e),
                Ok(n) => if !advanced(s, p, q) {
                    Err(JceError::DecodeError)
                } else {
                    match parse_items(s, q, (n as usize) as nat, Seq::empty()) {
                        Err(e) => Err(e),
                        Ok((l, r)) => Ok((JceValue::List(l), r)),
                    }
                },
            },
        }
    } else if t == 10 {
        match parse_fields(s, p, Seq::empty()) {
            Err(e) => Err(e),
            Ok((f, r)) => Ok((JceValue::Struct(f), r)),
        }
    } else if t == 11 {
        Ok((JceValue::StructEnd, p))
    } else if t == 12 {
        Ok((JceValue::Zero, p))
    } else {
        match parse_head(s, p) {
            Err(e) => Err(e),
            Ok((_, _, q)) => match parse_element(s, q) {
                Err(e) => Err(e),
                Ok((_, c, r)) => match as_count(c) {
                    Err(e) => Err(e),
                    Ok(n) => {
                        let len = (n as usize) as int;
                        if r + len > s.len() {
                            Err(JceError::UnexpectedEof)
                        } else {
                            Ok((JceValue::SimpleList(s.subrange(r, r + len)), r + len))
                        }
                    },
                },
            },
        }
    }
}

/// Reads `count` list items at `p`, after those already read in `acc`.
pub open spec fn parse_items(s: Seq<u8>, p: int, count: nat, acc: Seq<JceValue>) -> Result<(Seq<JceValue>, int), JceError>
    decreases s.len() - p, 1nat,
{
    if p < 0 || p > s.len() {
        Err(JceError::UnexpectedEof)
    } else if count == 0 {
        Ok((acc, p))
    } else {
        match parse_element(s, p) {
            Err(e) => Err(e),
            Ok((_, v, q)) => if !advanced(s, p, q) {
                Err(JceError::DecodeError)
            } else {
                parse_items(s, q, (count - 1) as nat, acc.push(v))
            },
        }
    }
}

/// Reads `count` map entries at `p` into `acc`: a key, which must be a string, then a value.
pub open spec fn parse_entries(s: Seq<u8>, p: int, count: nat, acc: Seq<(Seq<char>, JceValue)>) -> Result<(Seq<(Seq<char>, JceValue)>, int), JceError>
    decreases s.len() - p, 1nat,
{
    if p < 0 || p > s.len() {
        Err(JceError::UnexpectedEof)
    } else if count == 0 {
        Ok((acc, p))
    } else {
        match parse_element(s, p) {
            Err(e) => Err(e),
            Ok((_, k, q)) => match as_key(k) {
                Err(e) => Err(e),
                Ok(key) => if !advanced(s, p, q) {
                    Err(JceError::DecodeError)
                } else {
                    match parse_element(s, q) {
                        Err(e) => Err(e),
                        Ok((_, v, r)) => if !advanced(s, q, r) {
                            Err(JceError::DecodeError)
                        } else {
                            parse_entries(s, r, (count - 1) as nat, map_insert(acc, key, v))
                        },
                    }
                },
            },
        }
    }
}

/// Reads a struct's fields at `p` into `acc` up to and including its `StructEnd`.
pub open spec fn parse_fields(s: Seq<u8>, p: int, acc: Seq<(u8, JceValue)>) -> Result<(Seq<(u8, JceValue)>, int), JceError>
    decreases s.len() - p, 1nat,
{
    if p < 0 || p > s.len() {
        Err(JceError::UnexpectedEof)
    } else {
        match parse_element(s, p) {
            Err(e) => Err(e),
            Ok((tag, v, q)) => if v is StructEnd {
                Ok((acc, q))
            } else if !advanced(s, p, q) {
                Err(JceError::DecodeError)
            } else {
                parse_fields(s, q, obj_insert(acc, tag, v))
            },
        }
    }
}

/// Reads top-level elements at `p` into `acc` until the input runs out; running out inside an
/// element ends the reading too, and what was read before that element is the result.
pub open spec fn parse_top(s: Seq<u8>, p: int, acc: Seq<(u8, JceValue)>) -> Result<Seq<(u8, JceValue)>, JceError>
    decreases s.len() - p,
{
    if p < 0 || p > s.len() {
        Err(JceError::UnexpectedEof)
    } else {
        match parse_element(s, p) {
            Ok((tag, v, q)) => if !advanced(s, p, q) {
                Err(JceError::DecodeError)
            } else {
                parse_top(s, q, obj_insert(acc, tag, v))
            },
            Err(e) => if e is UnexpectedEof {
                Ok(acc)
            } else {
                Err(e)
            },
        }
    }
}

/// The struct that `decode` reads from `s`.
pub open spec fn jce_decode(s: Seq<u8>) -> Result<Seq<(u8, JceValue)>, JceError> {
    parse_top(s, 0, Seq::empty())
}


pub open spec fn head_result(r: Result<(u8, u8, usize), JceError>) -> Result<(u8, u8, int), JceError> {
    match r {
        Ok((tag, t, q)) => Ok((tag, t, q as int)),
        Err(e) => Err(e),
    }
}

pub open spec fn element_result(r: Result<(u8, JceElement, usize), JceError>) -> Result<(u8, JceValue, int), JceError> {
    match r {
        Ok((tag, v, q)) => Ok((tag, v@, q as int)),
        Err(e) => Err(e),
    }
}

pub open spec fn body_result(r: Result<(JceElement, usize), JceError>) -> Result<(JceValue, int), JceError> {
    match r {
        Ok((v, q)) => Ok((v@, q as int)),
        Err(e) => Err(e),
    }
}

pub open spec fn string_result(r: Result<(String, usize), JceError>) -> Result<(Seq<char>, int), JceError> {
    match r {
        Ok((c, q)) => Ok((c@, q as int)),
        Err(e) => Err(e),
    }
}

/// The struct a decoding result holds, by value.
pub open spec fn object_result(r: Result<JceObject, JceError>) -> Result<Seq<(u8, JceValue)>, JceError> {
    match r {
        Ok(o) => Ok(o@),
        Err(e) => Err(e),
    }
}

/// `String::from_utf8`: the bytes as a string when they are UTF-8, `None` where they are not.
#[verifier::external_body]
pub(crate) fn string_from_utf8(bytes: Vec<u8>) -> (res: Option<String>)
    ensures
        res is Some <==> valid_utf8(bytes@),
        res matches Some(s) ==> encode_utf8(s@) == bytes@,
{
    String::from_utf8(bytes).ok()
}

fn read_be_u16(s: &[u8], i: usize) -> (n: u16)
    requires
        i + 2 <= s@.len(),
    ensures
        n == be_half(s@, i as int),
{
    ((s[i] as u16) << 8u16) | (s[i + 1] as u16)
}

fn read_be_u64(s: &[u8], i: usize) -> (n: u64)
    requires
        i + 8 <= s@.len(),
    ensures
        n == be_dword(s@, i as int),
{
    let n = s.len();
    let hi = read_be_u32(s, i);
    let lo = read_be_u32(s, i + 4);
    ((hi as u64) << 32u64) | (lo as u64)
}

fn read_head(s: &[u8], p: usize) -> (r: Result<(u8, u8, usize), JceError>)
    requires
        p <= s@.len(),
    ensures
        head_result(r) == parse_head(s@, p as int),
{
    if p >= s.len() {
        return Err(JceError::UnexpectedEof);
    }
    let h = s[p];
    let t = h & 0x0fu8;
    if let Err(e) = Type::try_from_code(t) {
        return Err(e);
    }
    if (h >> 4u8) == 15 {
        if p + 1 >= s.len() {
            Err(JceError::UnexpectedEof)
        } else {
            Ok((s[p + 1], t, p + 2))
        }
    } else {
        Ok((h >> 4u8, t, p + 1))
    }
}

fn read_string(s: &[u8], p: usize, len: usize) -> (r: Result<(String, usize), JceError>)
    requires
        p <= s@.len(),
    ensures
        string_result(r) == parse_string(s@, p as int, len as int),
        r matches Ok((_, q)) ==> p <= q <= s@.len(),
{
    if len > s.len() - p {
        return Err(JceError::UnexpectedEof);
    }
    let bytes = copy_range(s, p, p + len);
    match string_from_utf8(bytes) {
        Some(c) => {
            proof {
                vstd::utf8::encode_utf8_decode_utf8(c@);
            }
            Ok((c, p + len))
        },
        None => Err(JceError::InvalidUtf8),
    }
}

fn count_of(e: &JceElement) -> (r: Result<i64, JceError>)
    ensures
        r == as_count(e@),
{
    match e {
        JceElement::Zero => Ok(0),
        JceElement::Int8(x) => Ok(*x as i64),
        JceElement::Int16(x) => Ok(*x as i64),
        JceElement::Int32(x) => Ok(*x as i64),
        JceElement::Int64(x) => Ok(*x),
        _ => Err(JceError::NotInt64),
    }
}

fn read_element(s: &[u8], p: usize) -> (r: Result<(u8, JceElement, usize), JceError>)
    requires
        p <= s@.len(),
    ensures
        element_result(r) == parse_element(s@, p as int),
        r matches Ok((_, _, q)) ==> p < q <= s@.len(),
    decreases s@.len() - p, 0nat,
{
    match read_head(s, p) {
        Err(e) => Err(e),
        Ok((tag, t, q)) => match read_body(s, q, t) {
            Err(e) => Err(e),
            Ok((v, r)) => Ok((tag, v, r)),
        },
    }
}

fn read_body(s: &[u8], p: usize, t: u8) -> (r: Result<(JceElement, usize), JceError>)
    requires
        p <= s@.len(),
    ensures
        body_result(r) == parse_body(s@, p as int, t),
        r matches Ok((_, q)) ==> p <= q <= s@.len(),
    decreases s@.len() - p, 2nat,
{
    let len = s.len();
    if t == 0 {
        if p >= len { Err(JceError::UnexpectedEof) } else { Ok((JceElement::Int8(s[p] as i8), p + 1)) }
    } else if t == 1 {
        if 2 > len - p { Err(JceError::UnexpectedEof) } else { Ok((JceElement::Int16(read_be_u16(s, p) as i16), p + 2)) }
    } else if t == 2 {
        if 4 > len - p { Err(JceError::UnexpectedEof) } else { Ok((JceElement::Int32(read_be_u32(s, p) as i32), p + 4)) }
    } else if t == 3 {
        if 8 > len - p { Err(JceError::UnexpectedEof) } else { Ok((JceElement::Int64(read_be_u64(s, p) as i64), p + 8)) }
    } else if t == 4 {
        if 4 > len - p { Err(JceError::UnexpectedEof) } else { Ok((JceElement::Float(read_be_u32(s, p)), p + 4)) }
    } else if t == 5 {
        if 8 > len - p { Err(JceError::UnexpectedEof) } else { Ok((JceElement::Double(read_be_u64(s, p)), p + 8)) }
    } else if t == 6 {
        if p >= len {
            Err(JceError::UnexpectedEof)
        } else {
            match read_string(s, p + 1, s[p] as usize) {
                Err(e) => Err(e),
                Ok((c, r)) => Ok((JceElement::String1(c), r)),
            }
        }
    } else if t == 7 {
        if 4 > len - p {
            Err(JceError::UnexpectedEof)
        } else {
            match read_string(s, p + 4, read_be_u32(s, p) as usize) {
                Err(e) => Err(e),
                Ok((c, r)) => Ok((JceElement::String4(c), r)),
            }
        }
    } else if t == 8 {
        match read_element(s, p) {
            Err(e) => Err(e),
            Ok((_, c, q)) => match count_of(&c) {
                Err(e) => Err(e),
                Ok(n) => match read_entries(s, q, n as usize) {
                    Err(e) => Err(e),
                    Ok((m, r)) => Ok((JceElement::Mapping(m), r)),
                },
            },
        }
    } else if t == 9 {
        match read_element(s, p) {
            Err(e) => Err(e),
            Ok((_, c, q)) => match count_of(&c) {
                Err(e) => Err(e),
                Ok(n) => match read_items(s, q, n as usize) {
                    Err(e) => Err(e),
                    Ok((l, r)) => Ok((JceElement::List(l), r)),
                },
            },
        }
    } else if t == 10 {
        match read_fields(s, p) {
            Err(e) => Err(e),
            Ok((f, r)) => Ok((JceElement::StructBegin(JceObject { fields: f }), r)),
        }
    } else if t == 11 {
        Ok((JceElement::StructEnd, p))
    } else if t == 12 {
        Ok((JceElement::Zero, p))
    } else {
        match read_head(s, p) {
            Err(e) => Err(e),
            Ok((_, _, q)) => match read_element(s, q) {
                Err(e) => Err(e),
                Ok((_, c, r)) => match count_of(&c) {
                    Err(e) => Err(e),
                    Ok(n) => {
                        let n = n as usize;
                        if n > len - r {
                            Err(JceError::UnexpectedEof)
                        } else {
                            Ok((JceElement::SimpleList(copy_range(s, r, r + n)), r + n))
                        }
                    },
                },
            },
        }
    }
}

fn read_items(s: &[u8], p: usize, count: usize) -> (r: Result<(Vec<JceElement>, usize), JceError>)
    requires
        p <= s@.len(),
    ensures
        match r {
            Ok((l, q)) => parse_items(s@, p as int, count as nat, Seq::empty()) == Ok::<(Seq<JceValue>, int), JceError>((list_view(l@), q as int)) && p <= q <= s@.len(),
            Err(e) => parse_items(s@, p as int, count as nat, Seq::empty()) == Err::<(Seq<JceValue>, int), JceError>(e),
        },
    decreases s@.len() - p, 1nat,
{
    let mut acc: Vec<JceElement> = Vec::new();
    let mut cur = p;
    let mut left = count;
    assert(list_view(acc@) =~= Seq::<JceValue>::empty());
    while left > 0
        invariant
            p <= cur <= s@.len(),
            parse_items(s@, cur as int, left as nat, list_view(acc@)) == parse_items(s@, p as int, count as nat, Seq::empty()),
        decreases s@.len() - cur,
    {
        match read_element(s, cur) {
            Err(e) => {
                return Err(e);
            },
            Ok((_, v, q)) => {
                let ghost vv = v@;
                let ghost old_acc = acc@;
                acc.push(v);
                assert(acc@.subrange(0, acc@.len() - 1) =~= old_acc);
                assert(list_view(acc@) == list_view(old_acc).push(vv));
                cur = q;
                left = left - 1;
            },
        }
    }
    Ok((acc, cur))
}

fn read_fields(s: &[u8], p: usize) -> (r: Result<(Vec<(u8, JceElement)>, usize), JceError>)
    requires
        p <= s@.len(),
    ensures
        match r {
            Ok((f, q)) => parse_fields(s@, p as int, Seq::empty()) == Ok::<(Seq<(u8, JceValue)>, int), JceError>((fields_view(f@), q as int)) && p <= q <= s@.len(),
            Err(e) => parse_fields(s@, p as int, Seq::empty()) == Err::<(Seq<(u8, JceValue)>, int), JceError>(e),
        },
    decreases s@.len() - p, 1nat,
{
    let mut acc: Vec<(u8, JceElement)> = Vec::new();
    let mut cur = p;
    assert(fields_view(acc@) =~= Seq::<(u8, JceValue)>::empty());
    loop
        invariant
            p <= cur <= s@.len(),
            parse_fields(s@, cur as int, fields_view(acc@)) == parse_fields(s@, p as int, Seq::empty()),
        decreases s@.len() - cur,
    {
        match read_element(s, cur) {
            Err(e) => {
                return Err(e);
            },
            Ok((tag, v, q)) => {
                if let JceElement::StructEnd = v {
                    return Ok((acc, q));
                }
                insert_field(&mut acc, tag, v);
                cur = q;
            },
        }
    }
}

fn read_entries(s: &[u8], p: usize, count: usize) -> (r: Result<(Vec<(String, JceElement)>, usize), JceError>)
    requires
        p <= s@.len(),
    ensures
        match r {
            Ok((m, q)) => parse_entries(s@, p as int, count as nat, Seq::empty()) == Ok::<(Seq<(Seq<char>, JceValue)>, int), JceError>((map_view(m@), q as int)) && p <= q <= s@.len(),
            Err(e) => parse_entries(s@, p as int, count as nat, Seq::empty()) == Err::<(Seq<(Seq<char>, JceValue)>, int), JceError>(e),
        },
    decreases s@.len() - p, 1nat,
{
    let mut acc: Vec<(String, JceElement)> = Vec::new();
    let mut cur = p;
    let mut left = count;
    assert(map_view(acc@) =~= Seq::<(Seq<char>, JceValue)>::empty());
    while left > 0
        invariant
            p <= cur <= s@.len(),
            parse_entries(s@, cur as int, left as nat, map_view(acc@)) == parse_entries(s@, p as int, count as nat, Seq::empty()),
        decreases s@.len() - cur,
    {
        let (_, k, q) = match read_element(s, cur) {
            Err(e) => {
                return Err(e);
            },
            Ok(x) => x,
        };
        let key = match k {
            JceElement::String1(c) => c,
            JceElement::String4(c) => c,
            _ => {
                return Err(JceError::NotString);
            },
        };
        let (_, v, r) = match read_element(s, q) {
            Err(e) => {
                return Err(e);
            },
            Ok(x) => x,
        };
        insert_entry(&mut acc, key, v);
        cur = r;
        left = left - 1;
    }
    Ok((acc, cur))
}

proof fn lemma_key_pos(m: Seq<(Seq<char>, JceValue)>, k: Seq<char>, i: int)
    requires
        0 <= i <= m.len(),
        forall|j: int| 0 <= j < i ==> m[j].0 != k,
        i == m.len() || m[i].0 == k,
    ensures
        key_pos(m, k) == i,
    decreases i,
{
    if i > 0 {
        let rest = m.subrange(1, m.len() as int);
        lemma_key_pos(rest, k, i - 1);
    }
}

proof fn lemma_tag_pos(f: Seq<(u8, JceValue)>, tag: u8, i: int)
    requires
        0 <= i <= f.len(),
        forall|j: int| 0 <= j < i ==> f[j].0 < tag,
        i == f.len() || f[i].0 >= tag,
    ensures
        tag_pos(f, tag) == i,
    decreases i,
{
    if i > 0 {
        let rest = f.subrange(1, f.len() as int);
        lemma_tag_pos(rest, tag, i - 1);
    }
}

/// Sets `key` to `v` in a map's entries (see `map_insert`).
fn insert_entry(m: &mut Vec<(String, JceElement)>, key: String, v: JceElement)
    ensures
        map_view(final(m)@) == map_insert(map_view(old(m)@), key@, v@),
{
    proof {
        lemma_map_view(m@);
    }
    let ghost mv = map_view(m@);
    let mut i: usize = 0;
    while i < m.len() && m[i].0 != key
        invariant
            i <= m@.len(),
            mv == map_view(m@),
            mv.len() == m@.len(),
            forall|j: int| 0 <= j < m@.len() ==> #[trigger] mv[j] == (m@[j].0@, m@[j].1@),
            forall|j: int| 0 <= j < i ==> mv[j].0 != key@,
        decreases m@.len() - i,
    {
        i = i + 1;
    }
    proof {
        lemma_key_pos(mv, key@, i as int);
    }
    let ghost kv = (key@, v@);
    if i < m.len() {
        m[i] = (key, v);
        proof {
            lemma_map_view(m@);
            assert(map_view(m@) =~= mv.update(i as int, kv));
        }
    } else {
        m.push((key, v));
        proof {
            lemma_map_view(m@);
            assert(map_view(m@) =~= mv.push(kv));
        }
    }
}

/// Sets field `tag` to `v` in a struct's fields (see `obj_insert`).
fn insert_field(f: &mut Vec<(u8, JceElement)>, tag: u8, v: JceElement)
    ensures
        fields_view(final(f)@) == obj_insert(fields_view(old(f)@), tag, v@),
{
    proof {
        lemma_fields_view(f@);
    }
    let ghost fv = fields_view(f@);
    let mut i: usize = 0;
    while i < f.len() && f[i].0 < tag
        invariant
            i <= f@.len(),
            fv == fields_view(f@),
            fv.len() == f@.len(),
            forall|j: int| 0 <= j < f@.len() ==> #[trigger] fv[j] == (f@[j].0, f@[j].1@),
            forall|j: int| 0 <= j < i ==> fv[j].0 < tag,
        decreases f@.len() - i,
    {
        i = i + 1;
    }
    proof {
        lemma_tag_pos(fv, tag, i as int);
    }
    let ghost tv = (tag, v@);
    if i < f.len() && f[i].0 == tag {
        f[i] = (tag, v);
        proof {
            lemma_fields_view(f@);
            assert(fields_view(f@) =~= fv.update(i as int, tv));
        }
    } else {
        f.insert(i, (tag, v));
        proof {
            lemma_fields_view(f@);
            assert(fields_view(f@) =~= fv.insert(i as int, tv));
        }
    }
}

/// Decodes a JCE struct from `source`: top-level elements are read until the input runs out,
/// later tags replacing earlier ones (see `jce_decode`).
pub fn decode(source: &[u8]) -> (r: Result<JceObject, JceError>)
    ensures
        object_result(r) == jce_decode(source@),
{
    let mut acc: Vec<(u8, JceElement)> = Vec::new();
    let mut cur: usize = 0;
    assert(fields_view(acc@) =~= Seq::<(u8, JceValue)>::empty());
    loop
        invariant
            cur <= source@.len(),
            parse_top(source@, cur as int, fields_view(acc@)) == jce_decode(source@),
        decreases source@.len() - cur,
    {
        match read_element(source, cur) {
            Ok((tag, v, q)) => {
                insert_field(&mut acc, tag, v);
                cur = q;
            },
            Err(e) => {
                if let JceError::UnexpectedEof = e {
                    return Ok(JceObject { fields: acc });
                } else {
                    return Err(e);
                }
            },
        }
    }
}


// ---------------------------------------------------------------------------------------------
// What decoding gives back of encoding
// ---------------------------------------------------------------------------------------------

/// A length or count that survives being written as an `i64` and read back as a `usize`.
pub open spec fn count_ok(n: nat) -> bool {
    n <= usize::MAX && n <= i64::MAX
}

/// The values that encoding and decoding carry unchanged: string lengths fit their length
/// fields, counts fit, map keys are distinct and not longer than a `String4` can say, and a
/// struct's tags increase, with no field holding `StructEnd` (which would end the struct early).
pub open spec fn value_wf(v: JceValue) -> bool
    decreases v,
{
    match v {
        JceValue::String1(c) => encode_utf8(c).len() <= 255,
        JceValue::String4(c) => encode_utf8(c).len() <= u32::MAX,
        JceValue::SimpleList(b) => count_ok(b.len()),
        JceValue::List(items) => count_ok(items.len()) && forall|i: int| 0 <= i < items.len() ==> value_wf(#[trigger] items[i]),
        JceValue::Mapping(m) => {
            &&& count_ok(m.len())
            &&& forall|i: int| 0 <= i < m.len() ==> encode_utf8(#[trigger] m[i].0).len() <= u32::MAX && value_wf(m[i].1)
            &&& forall|i: int, j: int| 0 <= i < j < m.len() ==> #[trigger] m[i].0 != #[trigger] m[j].0
        },
        JceValue::Struct(f) => {
            &&& forall|i: int| 0 <= i < f.len() ==> value_wf(#[trigger] f[i].1) && !(f[i].1 is StructEnd)
            &&& forall|i: int, j: int| 0 <= i < j < f.len() ==> #[trigger] f[i].0 < #[trigger] f[j].0
        },
        _ => true,
    }
}

/// A struct at the top level of a buffer: tags increase and every value is well formed
/// (`StructEnd` among them is read back as a value there).
pub open spec fn fields_wf(f: Seq<(u8, JceValue)>) -> bool {
    &&& forall|i: int| 0 <= i < f.len() ==> value_wf(#[trigger] f[i].1)
    &&& forall|i: int, j: int| 0 <= i < j < f.len() ==> #[trigger] f[i].0 < #[trigger] f[j].0
}


/// `e` is found in `s` at `p`.
pub open spec fn holds(s: Seq<u8>, p: int, e: Seq<u8>) -> bool {
    &&& 0 <= p
    &&& p + e.len() <= s.len()
    &&& s.subrange(p, p + e.len()) == e
}

proof fn lemma_holds_split(s: Seq<u8>, p: int, a: Seq<u8>, b: Seq<u8>)
    requires
        holds(s, p, a + b),
    ensures
        holds(s, p, a),
        holds(s, p + a.len(), b),
{
    assert(s.subrange(p, p + a.len()) =~= (a + b).subrange(0, a.len() as int));
    assert((a + b).subrange(0, a.len() as int) =~= a);
    assert(s.subrange(p + a.len(), p + a.len() + b.len()) =~= (a + b).subrange(a.len() as int, (a + b).len() as int));
    assert((a + b).subrange(a.len() as int, (a + b).len() as int) =~= b);
}

proof fn lemma_holds_at(s: Seq<u8>, p: int, e: Seq<u8>, i: int)
    requires
        holds(s, p, e),
        0 <= i < e.len(),
    ensures
        s[p + i] == e[i],
{
    assert(s.subrange(p, p + e.len())[i] == s[p + i]);
}

proof fn lemma_parse_head(s: Seq<u8>, p: int, tag: u8, t: u8)
    requires
        t <= 13,
        holds(s, p, head_bytes(tag, t)),
    ensures
        parse_head(s, p) == Ok::<(u8, u8, int), JceError>((tag, t, p + head_bytes(tag, t).len())),
{
    let h = head_bytes(tag, t);
    lemma_holds_at(s, p, h, 0);
    if tag < 15 {
        let b = (tag << 4u8) | t;
        assert(b & 0x0fu8 == t && b >> 4u8 == tag) by (bit_vector)
            requires
                tag < 15,
                t <= 13,
                b == (tag << 4u8) | t,
        ;
    } else {
        let b = 0xf0u8 | t;
        lemma_holds_at(s, p, h, 1);
        assert(b & 0x0fu8 == t && b >> 4u8 == 15) by (bit_vector)
            requires
                t <= 13,
                b == 0xf0u8 | t,
        ;
    }
}

proof fn lemma_int_casts(a: i8, b: i16, c: i32, d: i64)
    ensures
        (a as u8) as i8 == a,
        (b as u16) as i16 == b,
        (c as u32) as i32 == c,
        (d as u64) as i64 == d,
{
    assert((a as u8) as i8 == a) by (bit_vector);
    assert((b as u16) as i16 == b) by (bit_vector);
    assert((c as u32) as i32 == c) by (bit_vector);
    assert((d as u64) as i64 == d) by (bit_vector);
}

proof fn lemma_be_half_of_be_u16(s: Seq<u8>, p: int, y: u16)
    requires
        holds(s, p, be_u16(y)),
    ensures
        be_half(s, p) == y,
{
    lemma_holds_at(s, p, be_u16(y), 0);
    lemma_holds_at(s, p, be_u16(y), 1);
    let b0 = (y >> 8u16) as u8;
    let b1 = y as u8;
    assert((((b0 as u16) << 8u16) | (b1 as u16)) == y) by (bit_vector)
        requires
            b0 == (y >> 8u16) as u8,
            b1 == y as u8,
    ;
}

proof fn lemma_be_word_at(s: Seq<u8>, p: int, y: u32)
    requires
        holds(s, p, be_u32(y)),
    ensures
        be_word(s, p) == y,
{
    lemma_holds_at(s, p, be_u32(y), 0);
    lemma_holds_at(s, p, be_u32(y), 1);
    lemma_holds_at(s, p, be_u32(y), 2);
    lemma_holds_at(s, p, be_u32(y), 3);
    lemma_be_word_of_be_u32(y);
    assert(be_word(s, p) == be_word(be_u32(y), 0));
}

proof fn lemma_be_dword_at(s: Seq<u8>, p: int, y: u64)
    requires
        holds(s, p, be_u64(y)),
    ensures
        be_dword(s, p) == y,
{
    let hi = (y >> 32u64) as u32;
    let lo = y as u32;
    lemma_holds_split(s, p, be_u32(hi), be_u32(lo));
    lemma_be_word_at(s, p, hi);
    lemma_be_word_at(s, p + 4, lo);
    assert((((hi as u64) << 32u64) | (lo as u64)) == y) by (bit_vector)
        requires
            hi == (y >> 32u64) as u32,
            lo == y as u32,
    ;
}

proof fn lemma_int_value(n: i64)
    ensures
        encode_int(0, n) == encode_element(0, int_value(n)),
        as_count(int_value(n)) == Ok::<i64, JceError>(n),
        value_wf(int_value(n)),
        forall|tag: u8| #[trigger] encode_int(tag, n) == encode_element(tag, int_value(n)),
{
    let v = int_value(n);
    assert forall|tag: u8| #[trigger] encode_int(tag, n) == encode_element(tag, int_value(n)) by {
        assert(encode_int(tag, n) =~= encode_element(tag, int_value(n)));
    }
}

proof fn lemma_parse_string(s: Seq<u8>, p: int, c: Seq<char>)
    requires
        holds(s, p, encode_utf8(c)),
    ensures
        parse_string(s, p, encode_utf8(c).len() as int) == Ok::<(Seq<char>, int), JceError>((c, p + encode_utf8(c).len())),
{
    vstd::utf8::encode_utf8_valid_utf8(c);
    vstd::utf8::encode_utf8_decode_utf8(c);
}

proof fn lemma_encode_items_front(items: Seq<JceValue>)
    requires
        items.len() > 0,
    ensures
        encode_items(items) == encode_element(0, items[0]) + encode_items(items.subrange(1, items.len() as int)),
    decreases items.len(),
{
    let n = items.len();
    if n == 1 {
        assert(items.subrange(0, 0) =~= Seq::<JceValue>::empty());
        assert(items.subrange(1, 1) =~= Seq::<JceValue>::empty());
        assert(encode_items(items.subrange(0, 0)) == Seq::<u8>::empty());
        assert(encode_items(items.subrange(1, 1)) == Seq::<u8>::empty());
        assert(encode_items(items) =~= encode_element(0, items[0]) + encode_items(items.subrange(1, 1)));
    } else {
        let prefix = items.subrange(0, n - 1);
        lemma_encode_items_front(prefix);
        let tail = items.subrange(1, n as int);
        assert(tail.subrange(0, tail.len() - 1) =~= prefix.subrange(1, prefix.len() as int));
        assert(tail[tail.len() - 1] == items[n - 1]);
        assert(prefix[0] == items[0]);
        assert(encode_items(items) =~= encode_element(0, items[0]) + encode_items(tail));
    }
}

proof fn lemma_encode_entries_front(m: Seq<(Seq<char>, JceValue)>)
    requires
        m.len() > 0,
    ensures
        encode_entries(m) == encode_string(0, m[0].0) + encode_element(1, m[0].1) + encode_entries(m.subrange(1, m.len() as int)),
    decreases m.len(),
{
    let n = m.len();
    if n == 1 {
        assert(m.subrange(0, 0) =~= Seq::<(Seq<char>, JceValue)>::empty());
        assert(m.subrange(1, 1) =~= Seq::<(Seq<char>, JceValue)>::empty());
        assert(encode_entries(m.subrange(0, 0)) == Seq::<u8>::empty());
        assert(encode_entries(m.subrange(1, 1)) == Seq::<u8>::empty());
        assert(encode_entries(m) =~= encode_string(0, m[0].0) + encode_element(1, m[0].1) + encode_entries(m.subrange(1, 1)));
    } else {
        let prefix = m.subrange(0, n - 1);
        lemma_encode_entries_front(prefix);
        let tail = m.subrange(1, n as int);
        assert(tail.subrange(0, tail.len() - 1) =~= prefix.subrange(1, prefix.len() as int));
        assert(tail[tail.len() - 1] == m[n - 1]);
        assert(prefix[0] == m[0]);
        assert(encode_entries(m) =~= encode_string(0, m[0].0) + encode_element(1, m[0].1) + encode_entries(tail));
    }
}

proof fn lemma_encode_fields_front(f: Seq<(u8, JceValue)>)
    requires
        f.len() > 0,
    ensures
        encode_fields(f) == encode_element(f[0].0, f[0].1) + encode_fields(f.subrange(1, f.len() as int)),
    decreases f.len(),
{
    let n = f.len();
    if n == 1 {
        assert(f.subrange(0, 0) =~= Seq::<(u8, JceValue)>::empty());
        assert(f.subrange(1, 1) =~= Seq::<(u8, JceValue)>::empty());
        assert(encode_fields(f.subrange(0, 0)) == Seq::<u8>::empty());
        assert(encode_fields(f.subrange(1, 1)) == Seq::<u8>::empty());
        assert(encode_fields(f) =~= encode_element(f[0].0, f[0].1) + encode_fields(f.subrange(1, 1)));
    } else {
        let prefix = f.subrange(0, n - 1);
        lemma_encode_fields_front(prefix);
        let tail = f.subrange(1, n as int);
        assert(tail.subrange(0, tail.len() - 1) =~= prefix.subrange(1, prefix.len() as int));
        assert(tail[tail.len() - 1] == f[n - 1]);
        assert(prefix[0] == f[0]);
        assert(encode_fields(f) =~= encode_element(f[0].0, f[0].1) + encode_fields(tail));
    }
}

proof fn lemma_parse_int(s: Seq<u8>, p: int, tag: u8, n: i64)
    requires
        holds(s, p, encode_int(tag, n)),
    ensures
        parse_element(s, p) == Ok::<(u8, JceValue, int), JceError>((tag, int_value(n), p + encode_int(tag, n).len())),
{
    let v = int_value(n);
    let e = encode_int(tag, n);
    let h = head_bytes(tag, type_code(v));
    let q = p + h.len();
    match v {
        JceValue::Int8(x) => {
            assert(e =~= h + seq![x as u8]);
            lemma_holds_split(s, p, h, seq![x as u8]);
            lemma_parse_head(s, p, tag, type_code(v));
            lemma_holds_at(s, q, seq![x as u8], 0);
            lemma_int_casts(x, 0, 0, 0);
        },
        JceValue::Int16(x) => {
            assert(e =~= h + be_u16(x as u16));
            lemma_holds_split(s, p, h, be_u16(x as u16));
            lemma_parse_head(s, p, tag, type_code(v));
            lemma_be_half_of_be_u16(s, q, x as u16);
            lemma_int_casts(0, x, 0, 0);
        },
        JceValue::Int32(x) => {
            assert(e =~= h + be_u32(x as u32));
            lemma_holds_split(s, p, h, be_u32(x as u32));
            lemma_parse_head(s, p, tag, type_code(v));
            lemma_be_word_at(s, q, x as u32);
            lemma_int_casts(0, 0, x, 0);
        },
        JceValue::Int64(x) => {
            assert(e =~= h + be_u64(x as u64));
            lemma_holds_split(s, p, h, be_u64(x as u64));
            lemma_parse_head(s, p, tag, type_code(v));
            lemma_be_dword_at(s, q, x as u64);
            lemma_int_casts(0, 0, 0, x);
        },
        _ => {
            assert(e =~= h);
            lemma_parse_head(s, p, tag, type_code(v));
        },
    }
}

proof fn lemma_parse_string_element(s: Seq<u8>, p: int, tag: u8, c: Seq<char>)
    requires
        encode_utf8(c).len() <= u32::MAX,
        holds(s, p, encode_string(tag, c)),
    ensures
        parse_element(s, p) == Ok::<(u8, JceValue, int), JceError>((tag, string_value(c), p + encode_string(tag, c).len())),
        as_key(string_value(c)) == Ok::<Seq<char>, JceError>(c),
{
    let b = encode_utf8(c);
    let v = string_value(c);
    let h = head_bytes(tag, type_code(v));
    if b.len() <= 255 {
        assert(encode_string(tag, c) =~= h + seq![b.len() as u8] + b);
        lemma_holds_split(s, p, h + seq![b.len() as u8], b);
        lemma_holds_split(s, p, h, seq![b.len() as u8]);
        lemma_parse_head(s, p, tag, 6);
        lemma_holds_at(s, p + h.len(), seq![b.len() as u8], 0);
        lemma_parse_string(s, p + h.len() + 1, c);
    } else {
        assert(encode_string(tag, c) =~= h + be_u32(b.len() as u32) + b);
        lemma_holds_split(s, p, h + be_u32(b.len() as u32), b);
        lemma_holds_split(s, p, h, be_u32(b.len() as u32));
        lemma_parse_head(s, p, tag, 7);
        lemma_be_word_at(s, p + h.len(), b.len() as u32);
        lemma_parse_string(s, p + h.len() + 4, c);
    }
}

#[verifier::rlimit(30)]
proof fn lemma_parse_leaf(s: Seq<u8>, p: int, tag: u8, v: JceValue)
    requires
        value_wf(v),
        !(v is List),
        !(v is Mapping),
        !(v is Struct),
        holds(s, p, encode_element(tag, v)),
    ensures
        parse_element(s, p) == Ok::<(u8, JceValue, int), JceError>((tag, v, p + encode_element(tag, v).len())),
{
    let e = encode_element(tag, v);
    let h = head_bytes(tag, type_code(v));
    let q = p + h.len();
    match v {
        JceValue::Zero => {
            assert(e =~= h);
            lemma_parse_head(s, p, tag, type_code(v));
        },
        JceValue::StructEnd => {
            assert(e =~= h);
            lemma_parse_head(s, p, tag, type_code(v));
        },
        JceValue::Int8(x) => {
            assert(e =~= h + seq![x as u8]);
            lemma_holds_split(s, p, h, seq![x as u8]);
            lemma_parse_head(s, p, tag, type_code(v));
            lemma_holds_at(s, q, seq![x as u8], 0);
            lemma_int_casts(x, 0, 0, 0);
        },
        JceValue::Int16(x) => {
            assert(e =~= h + be_u16(x as u16));
            lemma_holds_split(s, p, h, be_u16(x as u16));
            lemma_parse_head(s, p, tag, type_code(v));
            lemma_be_half_of_be_u16(s, q, x as u16);
            lemma_int_casts(0, x, 0, 0);
        },
        JceValue::Int32(x) => {
            assert(e =~= h + be_u32(x as u32));
            lemma_holds_split(s, p, h, be_u32(x as u32));
            lemma_parse_head(s, p, tag, type_code(v));
            lemma_be_word_at(s, q, x as u32);
            lemma_int_casts(0, 0, x, 0);
        },
        JceValue::Int64(x) => {
            assert(e =~= h + be_u64(x as u64));
            lemma_holds_split(s, p, h, be_u64(x as u64));
            lemma_parse_head(s, p, tag, type_code(v));
            lemma_be_dword_at(s, q, x as u64);
            lemma_int_casts(0, 0, 0, x);
        },
        JceValue::Float(b) => {
            assert(e =~= h + be_u32(b));
            lemma_holds_split(s, p, h, be_u32(b));
            lemma_parse_head(s, p, tag, type_code(v));
            lemma_be_word_at(s, q, b);
        },
        JceValue::Double(b) => {
            assert(e =~= h + be_u64(b));
            lemma_holds_split(s, p, h, be_u64(b));
            lemma_parse_head(s, p, tag, type_code(v));
            lemma_be_dword_at(s, q, b);
        },
        JceValue::String1(c) => {
            let b = encode_utf8(c);
            assert(e =~= h + seq![b.len() as u8] + b);
            lemma_holds_split(s, p, h + seq![b.len() as u8], b);
            lemma_holds_split(s, p, h, seq![b.len() as u8]);
            lemma_parse_head(s, p, tag, type_code(v));
            lemma_holds_at(s, q, seq![b.len() as u8], 0);
            lemma_parse_string(s, q + 1, c);
        },
        JceValue::String4(c) => {
            let b = encode_utf8(c);
            assert(e =~= h + be_u32(b.len() as u32) + b);
            lemma_holds_split(s, p, h + be_u32(b.len() as u32), b);
            lemma_holds_split(s, p, h, be_u32(b.len() as u32));
            lemma_parse_head(s, p, tag, type_code(v));
            lemma_be_word_at(s, q, b.len() as u32);
            lemma_parse_string(s, q + 4, c);
        },
        JceValue::SimpleList(b) => {
            let n = b.len() as i64;
            let mid = head_bytes(0, 0) + encode_int(0, n);
            assert(e =~= h + mid + b);
            lemma_holds_split(s, p, h + mid, b);
            lemma_holds_split(s, p, h, mid);
            lemma_parse_head(s, p, tag, type_code(v));
            lemma_holds_split(s, q, head_bytes(0, 0), encode_int(0, n));
            lemma_parse_head(s, q, 0, 0);
            lemma_parse_int(s, q + 1, 0, n);
            lemma_int_value(n);
        },
        _ => {},
    }
}

/// An encoded element is read back whole, with its tag, wherever it stands in a buffer.
proof fn lemma_parse_element(s: Seq<u8>, p: int, tag: u8, v: JceValue)
    requires
        value_wf(v),
        holds(s, p, encode_element(tag, v)),
    ensures
        parse_element(s, p) == Ok::<(u8, JceValue, int), JceError>((tag, v, p + encode_element(tag, v).len())),
    decreases v,
{
    let e = encode_element(tag, v);
    let h = head_bytes(tag, type_code(v));
    let q = p + h.len();
    match v {
        JceValue::List(items) => {
            let n = items.len() as i64;
            assert(e =~= h + encode_int(0, n) + encode_items(items));
            lemma_holds_split(s, p, h + encode_int(0, n), encode_items(items));
            lemma_holds_split(s, p, h, encode_int(0, n));
            lemma_parse_head(s, p, tag, type_code(v));
            lemma_parse_int(s, q, 0, n);
            lemma_int_value(n);
            let q2 = q + encode_int(0, n).len();
            lemma_parse_items(s, q2, items, Seq::empty());
            assert(Seq::<JceValue>::empty() + items =~= items);
        },
        JceValue::Mapping(m) => {
            let n = m.len() as i64;
            assert(e =~= h + encode_int(0, n) + encode_entries(m));
            lemma_holds_split(s, p, h + encode_int(0, n), encode_entries(m));
            lemma_holds_split(s, p, h, encode_int(0, n));
            lemma_parse_head(s, p, tag, type_code(v));
            lemma_parse_int(s, q, 0, n);
            lemma_int_value(n);
            let q2 = q + encode_int(0, n).len();
            lemma_parse_entries(s, q2, m, Seq::empty());
            assert(Seq::<(Seq<char>, JceValue)>::empty() + m =~= m);
        },
        JceValue::Struct(f) => {
            assert(e =~= h + (encode_fields(f) + head_bytes(0, 11)));
            lemma_holds_split(s, p, h, encode_fields(f) + head_bytes(0, 11));
            lemma_parse_head(s, p, tag, type_code(v));
            lemma_parse_fields(s, q, f, Seq::empty());
            assert(Seq::<(u8, JceValue)>::empty() + f =~= f);
        },
        _ => {
            lemma_parse_leaf(s, p, tag, v);
        },
    }
}

proof fn lemma_parse_items(s: Seq<u8>, p: int, items: Seq<JceValue>, acc: Seq<JceValue>)
    requires
        forall|i: int| 0 <= i < items.len() ==> value_wf(#[trigger] items[i]),
        holds(s, p, encode_items(items)),
    ensures
        parse_items(s, p, items.len(), acc) == Ok::<(Seq<JceValue>, int), JceError>((acc + items, p + encode_items(items).len())),
    decreases items,
{
    if items.len() == 0 {
        assert(acc + items =~= acc);
    } else {
        let tail = items.subrange(1, items.len() as int);
        lemma_encode_items_front(items);
        let e0 = encode_element(0, items[0]);
        lemma_holds_split(s, p, e0, encode_items(tail));
        lemma_parse_element(s, p, 0, items[0]);
        assert(e0.len() > 0);
        lemma_parse_items(s, p + e0.len(), tail, acc.push(items[0]));
        assert(acc.push(items[0]) + tail =~= acc + items);
    }
}

proof fn lemma_parse_entries(s: Seq<u8>, p: int, m: Seq<(Seq<char>, JceValue)>, acc: Seq<(Seq<char>, JceValue)>)
    requires
        forall|i: int| 0 <= i < m.len() ==> encode_utf8(#[trigger] m[i].0).len() <= u32::MAX && value_wf(m[i].1),
        forall|i: int, j: int| 0 <= i < j < m.len() ==> #[trigger] m[i].0 != #[trigger] m[j].0,
        forall|i: int, j: int| 0 <= i < acc.len() && 0 <= j < m.len() ==> #[trigger] acc[i].0 != #[trigger] m[j].0,
        holds(s, p, encode_entries(m)),
    ensures
        parse_entries(s, p, m.len(), acc) == Ok::<(Seq<(Seq<char>, JceValue)>, int), JceError>((acc + m, p + encode_entries(m).len())),
    decreases m,
{
    if m.len() == 0 {
        assert(acc + m =~= acc);
    } else {
        let tail = m.subrange(1, m.len() as int);
        lemma_encode_entries_front(m);
        let ek = encode_string(0, m[0].0);
        let ev = encode_element(1, m[0].1);
        lemma_holds_split(s, p, ek + ev, encode_entries(tail));
        lemma_holds_split(s, p, ek, ev);
        lemma_parse_string_element(s, p, 0, m[0].0);
        lemma_parse_element(s, p + ek.len(), 1, m[0].1);
        assert(ek.len() > 0 && ev.len() > 0);
        assert forall|j: int| 0 <= j < acc.len() implies acc[j].0 != m[0].0 by {
            assert(acc[j].0 != m[0].0);
        }
        lemma_key_pos(acc, m[0].0, acc.len() as int);
        assert(map_insert(acc, m[0].0, m[0].1) == acc.push(m[0]));
        let acc2 = acc.push(m[0]);
        assert forall|i: int, j: int| 0 <= i < acc2.len() && 0 <= j < tail.len() implies #[trigger] acc2[i].0 != #[trigger] tail[j].0 by {
            if i < acc.len() {
                assert(acc[i].0 != m[j + 1].0);
            } else {
                assert(m[0].0 != m[j + 1].0);
            }
        }
        assert forall|i: int| 0 <= i < tail.len() implies encode_utf8(#[trigger] tail[i].0).len() <= u32::MAX && value_wf(tail[i].1) by {
            assert(tail[i] == m[i + 1]);
        }
        assert forall|i: int, j: int| 0 <= i < j < tail.len() implies #[trigger] tail[i].0 != #[trigger] tail[j].0 by {
            assert(tail[i] == m[i + 1] && tail[j] == m[j + 1]);
        }
        lemma_parse_entries(s, p + ek.len() + ev.len(), tail, acc2);
        assert(acc2 + tail =~= acc + m);
    }
}

proof fn lemma_parse_fields(s: Seq<u8>, p: int, f: Seq<(u8, JceValue)>, acc: Seq<(u8, JceValue)>)
    requires
        forall|i: int| 0 <= i < f.len() ==> value_wf(#[trigger] f[i].1) && !(f[i].1 is StructEnd),
        forall|i: int, j: int| 0 <= i < j < f.len() ==> #[trigger] f[i].0 < #[trigger] f[j].0,
        forall|i: int, j: int| 0 <= i < acc.len() && 0 <= j < f.len() ==> #[trigger] acc[i].0 < #[trigger] f[j].0,
        holds(s, p, encode_fields(f) + head_bytes(0, 11)),
    ensures
        parse_fields(s, p, acc) == Ok::<(Seq<(u8, JceValue)>, int), JceError>((acc + f, p + encode_fields(f).len() + 1)),
    decreases f,
{
    lemma_holds_split(s, p, encode_fields(f), head_bytes(0, 11));
    if f.len() == 0 {
        assert(encode_fields(f) == Seq::<u8>::empty());
        lemma_parse_head(s, p, 0, 11);
        assert(parse_body(s, p + 1, 11) == Ok::<(JceValue, int), JceError>((JceValue::StructEnd, p + 1)));
        assert(parse_element(s, p) == Ok::<(u8, JceValue, int), JceError>((0, JceValue::StructEnd, p + 1)));
        assert(acc + f =~= acc);
    } else {
        let tail = f.subrange(1, f.len() as int);
        lemma_encode_fields_front(f);
        let e0 = encode_element(f[0].0, f[0].1);
        assert(encode_fields(f) + head_bytes(0, 11) =~= e0 + (encode_fields(tail) + head_bytes(0, 11)));
        lemma_holds_split(s, p, e0, encode_fields(tail) + head_bytes(0, 11));
        lemma_parse_element(s, p, f[0].0, f[0].1);
        assert(e0.len() > 0);
        assert forall|j: int| 0 <= j < acc.len() implies acc[j].0 < f[0].0 by {
            assert(acc[j].0 < f[0].0);
        }
        lemma_tag_pos(acc, f[0].0, acc.len() as int);
        assert(obj_insert(acc, f[0].0, f[0].1) =~= acc.push(f[0]));
        let acc2 = acc.push(f[0]);
        assert forall|i: int, j: int| 0 <= i < acc2.len() && 0 <= j < tail.len() implies #[trigger] acc2[i].0 < #[trigger] tail[j].0 by {
            if i < acc.len() {
                assert(acc[i].0 < f[j + 1].0);
            } else {
                assert(f[0].0 < f[j + 1].0);
            }
        }
        assert forall|i: int| 0 <= i < tail.len() implies value_wf(#[trigger] tail[i].1) && !(tail[i].1 is StructEnd) by {
            assert(tail[i] == f[i + 1]);
        }
        assert forall|i: int, j: int| 0 <= i < j < tail.len() implies #[trigger] tail[i].0 < #[trigger] tail[j].0 by {
            assert(tail[i] == f[i + 1] && tail[j] == f[j + 1]);
        }
        lemma_parse_fields(s, p + e0.len(), tail, acc2);
        assert(acc2 + tail =~= acc + f);
        assert(!(f[0].1 is StructEnd));
        assert(advanced(s, p, p + e0.len()));
        assert(parse_fields(s, p, acc) == parse_fields(s, p + e0.len(), acc2));
    }
}

proof fn lemma_parse_top(s: Seq<u8>, p: int, f: Seq<(u8, JceValue)>, acc: Seq<(u8, JceValue)>)
    requires
        forall|i: int| 0 <= i < f.len() ==> value_wf(#[trigger] f[i].1),
        forall|i: int, j: int| 0 <= i < j < f.len() ==> #[trigger] f[i].0 < #[trigger] f[j].0,
        forall|i: int, j: int| 0 <= i < acc.len() && 0 <= j < f.len() ==> #[trigger] acc[i].0 < #[trigger] f[j].0,
        holds(s, p, encode_fields(f)),
        p + encode_fields(f).len() == s.len(),
    ensures
        parse_top(s, p, acc) == Ok::<Seq<(u8, JceValue)>, JceError>(acc + f),
    decreases f,
{
    if f.len() == 0 {
        assert(acc + f =~= acc);
    } else {
        let tail = f.subrange(1, f.len() as int);
        lemma_encode_fields_front(f);
        let e0 = encode_element(f[0].0, f[0].1);
        lemma_holds_split(s, p, e0, encode_fields(tail));
        lemma_parse_element(s, p, f[0].0, f[0].1);
        assert(e0.len() > 0);
        assert forall|j: int| 0 <= j < acc.len() implies acc[j].0 < f[0].0 by {
            assert(acc[j].0 < f[0].0);
        }
        lemma_tag_pos(acc, f[0].0, acc.len() as int);
        assert(obj_insert(acc, f[0].0, f[0].1) =~= acc.push(f[0]));
        let acc2 = acc.push(f[0]);
        assert forall|i: int, j: int| 0 <= i < acc2.len() && 0 <= j < tail.len() implies #[trigger] acc2[i].0 < #[trigger] tail[j].0 by {
            if i < acc.len() {
                assert(acc[i].0 < f[j + 1].0);
            } else {
                assert(f[0].0 < f[j + 1].0);
            }
        }
        assert forall|i: int| 0 <= i < tail.len() implies value_wf(#[trigger] tail[i].1) by {
            assert(tail[i] == f[i + 1]);
        }
        assert forall|i: int, j: int| 0 <= i < j < tail.len() implies #[trigger] tail[i].0 < #[trigger] tail[j].0 by {
            assert(tail[i] == f[i + 1] && tail[j] == f[j + 1]);
        }
        lemma_parse_top(s, p + e0.len(), tail, acc2);
        assert(acc2 + tail =~= acc + f);
    }
}

/// Decoding what was encoded gives the struct back: for a struct whose tags increase and whose
/// values are well formed (`fields_wf`), `decode` of the bytes that `encode` writes is that struct.
pub proof fn lemma_decode_encode(f: Seq<(u8, JceValue)>)
    requires
        fields_wf(f),
    ensures
        jce_decode(encode_fields(f)) == Ok::<Seq<(u8, JceValue)>, JceError>(f),
{
    let s = encode_fields(f);
    assert(s.subrange(0, s.len() as int) =~= s);
    lemma_parse_top(s, 0, f, Seq::empty());
    assert(Seq::<(u8, JceValue)>::empty() + f =~= f);
}


// ---------------------------------------------------------------------------------------------
// Structs, conversions and the request wrapper
// ---------------------------------------------------------------------------------------------

/// Whether a struct's tags strictly increase.
pub open spec fn tags_sorted(f: Seq<(u8, JceValue)>) -> bool {
    forall|i: int, j: int| 0 <= i < j < f.len() ==> #[trigger] f[i].0 < #[trigger] f[j].0
}

/// Where the first field with `tag` is, or the number of fields where there is none.
pub open spec fn tag_index(f: Seq<(u8, JceValue)>, tag: u8) -> int
    decreases f.len(),
{
    if f.len() == 0 {
        0
    } else if f[0].0 == tag {
        0
    } else {
        1 + tag_index(f.subrange(1, f.len() as int), tag)
    }
}

/// The value of field `tag`, if the struct has one.
pub open spec fn field_lookup(f: Seq<(u8, JceValue)>, tag: u8) -> Option<JceValue> {
    let i = tag_index(f, tag);
    if i < f.len() {
        Some(f[i].1)
    } else {
        None
    }
}

/// The struct without its field `tag`.
pub open spec fn field_remove(f: Seq<(u8, JceValue)>, tag: u8) -> Seq<(u8, JceValue)> {
    let i = tag_index(f, tag);
    if i < f.len() {
        f.remove(i)
    } else {
        f
    }
}

/// A field of another tag in front does not change a lookup.
pub proof fn lemma_lookup_skip_first(g: Seq<(u8, JceValue)>, t: u8)
    requires
        g.len() > 0,
        g[0].0 != t,
    ensures
        field_lookup(g, t) == field_lookup(g.subrange(1, g.len() as int), t),
{
    let tail = g.subrange(1, g.len() as int);
    lemma_tag_index_bound(tail, t);
    let it = tag_index(tail, t);
    if it < tail.len() {
        assert(tail[it] == g[it + 1]);
    }
}

/// Taking out one field leaves the fields of other tags where lookups find them.
pub proof fn lemma_lookup_after_remove(f: Seq<(u8, JceValue)>, t1: u8, t2: u8)
    requires
        t1 != t2,
    ensures
        field_lookup(field_remove(f, t1), t2) == field_lookup(f, t2),
    decreases f.len(),
{
    if f.len() > 0 {
        let tail = f.subrange(1, f.len() as int);
        let i1 = tag_index(f, t1);
        lemma_tag_index_bound(f, t1);
        if f[0].0 == t1 {
            assert(f.remove(0) =~= tail);
            lemma_lookup_skip_first(f, t2);
        } else if f[0].0 == t2 {
            if i1 < f.len() {
                let r = f.remove(i1);
                assert(r[0] == f[0]);
            }
        } else {
            lemma_lookup_after_remove(tail, t1, t2);
            lemma_lookup_skip_first(f, t2);
            if i1 < f.len() {
                let r = f.remove(i1);
                assert(tag_index(tail, t1) == i1 - 1);
                assert(r.subrange(1, r.len() as int) =~= tail.remove(i1 - 1));
                assert(r[0] == f[0]);
                lemma_lookup_skip_first(r, t2);
            }
        }
    }
}

/// Where a tag stands is within the fields.
pub proof fn lemma_tag_index_bound(f: Seq<(u8, JceValue)>, tag: u8)
    ensures
        0 <= tag_index(f, tag) <= f.len(),
        tag_index(f, tag) < f.len() ==> f[tag_index(f, tag)].0 == tag,
    decreases f.len(),
{
    if f.len() > 0 && f[0].0 != tag {
        let tail = f.subrange(1, f.len() as int);
        lemma_tag_index_bound(tail, tag);
        if tag_index(tail, tag) < tail.len() {
            assert(tail[tag_index(tail, tag)] == f[tag_index(tail, tag) + 1]);
        }
    }
}

proof fn lemma_tag_index_first(f: Seq<(u8, JceValue)>, tag: u8)
    ensures
        forall|j: int| 0 <= j < tag_index(f, tag) ==> #[trigger] f[j].0 != tag,
    decreases f.len(),
{
    if f.len() > 0 && f[0].0 != tag {
        let tail = f.subrange(1, f.len() as int);
        lemma_tag_index_first(tail, tag);
        lemma_tag_index_bound(tail, tag);
        assert forall|j: int| 0 <= j < tag_index(f, tag) implies #[trigger] f[j].0 != tag by {
            if j > 0 {
                assert(f[j] == tail[j - 1]);
            }
        }
    }
}

/// Setting one field leaves what a lookup of any other tag finds.
pub proof fn lemma_lookup_after_insert(f: Seq<(u8, JceValue)>, t1: u8, v: JceValue, t2: u8)
    requires
        t1 != t2,
    ensures
        field_lookup(obj_insert(f, t1, v), t2) == field_lookup(f, t2),
{
    let g = obj_insert(f, t1, v);
    let i = tag_pos(f, t1);
    let k = tag_index(f, t2);
    lemma_tag_index_bound(f, t2);
    lemma_tag_index_first(f, t2);
    lemma_tag_pos_range(f, t1);
    if i < f.len() && f[i].0 == t1 {
        assert forall|j: int| 0 <= j < k implies g[j].0 != t2 by {
            assert(f[j].0 != t2);
        }
        lemma_tag_index(g, t2, k);
    } else if k < i {
        assert forall|j: int| 0 <= j < k implies g[j].0 != t2 by {
            assert(g[j] == f[j]);
        }
        assert(g[k] == f[k]);
        lemma_tag_index(g, t2, k);
    } else {
        assert forall|j: int| 0 <= j < k + 1 implies g[j].0 != t2 by {
            if j < i {
                assert(g[j] == f[j]);
            } else if j > i {
                assert(g[j] == f[j - 1]);
            }
        }
        if k < f.len() {
            assert(g[k + 1] == f[k]);
        }
        lemma_tag_index(g, t2, k + 1);
    }
}

proof fn lemma_tag_pos_range(f: Seq<(u8, JceValue)>, tag: u8)
    ensures
        0 <= tag_pos(f, tag) <= f.len(),
    decreases f.len(),
{
    if f.len() > 0 && f[0].0 < tag {
        lemma_tag_pos_range(f.subrange(1, f.len() as int), tag);
    }
}

proof fn lemma_tag_index(f: Seq<(u8, JceValue)>, tag: u8, i: int)
    requires
        0 <= i <= f.len(),
        forall|j: int| 0 <= j < i ==> f[j].0 != tag,
        i == f.len() || f[i].0 == tag,
    ensures
        tag_index(f, tag) == i,
    decreases i,
{
    if i > 0 {
        lemma_tag_index(f.subrange(1, f.len() as int), tag, i - 1);
    }
}

proof fn lemma_tag_pos_bounds(f: Seq<(u8, JceValue)>, tag: u8)
    requires
        tags_sorted(f),
    ensures
        0 <= tag_pos(f, tag) <= f.len(),
        forall|j: int| 0 <= j < tag_pos(f, tag) ==> #[trigger] f[j].0 < tag,
        tag_pos(f, tag) < f.len() ==> f[tag_pos(f, tag)].0 >= tag,
    decreases f.len(),
{
    if f.len() > 0 && f[0].0 < tag {
        let rest = f.subrange(1, f.len() as int);
        lemma_tag_pos_bounds(rest, tag);
        assert forall|j: int| 0 <= j < tag_pos(f, tag) implies #[trigger] f[j].0 < tag by {
            if j > 0 {
                assert(f[j] == rest[j - 1]);
            }
        }
    }
}

/// Setting a field keeps the tags of a struct in increasing order.
pub proof fn lemma_obj_insert_sorted(f: Seq<(u8, JceValue)>, tag: u8, v: JceValue)
    requires
        tags_sorted(f),
    ensures
        tags_sorted(obj_insert(f, tag, v)),
        field_lookup(obj_insert(f, tag, v), tag) == Some(v),
{
    lemma_tag_pos_bounds(f, tag);
    let i = tag_pos(f, tag);
    let g = obj_insert(f, tag, v);
    if i < f.len() && f[i].0 == tag {
        assert forall|a: int, b: int| 0 <= a < b < g.len() implies #[trigger] g[a].0 < #[trigger] g[b].0 by {
            assert(g[a].0 == f[a].0 && g[b].0 == f[b].0);
        }
    } else {
        assert forall|a: int, b: int| 0 <= a < b < g.len() implies #[trigger] g[a].0 < #[trigger] g[b].0 by {
            if b < i {
                assert(g[a] == f[a] && g[b] == f[b]);
            } else if b == i {
                assert(g[a] == f[a]);
            } else if a < i {
                assert(g[a] == f[a] && g[b] == f[b - 1]);
                assert(f[b - 1].0 >= tag);
            } else if a == i {
                assert(g[b] == f[b - 1]);
                assert(f[i].0 >= tag);
                assert(f[b - 1].0 >= f[i].0 || b - 1 == i);
            } else {
                assert(g[a] == f[a - 1] && g[b] == f[b - 1]);
            }
        }
    }
    assert forall|j: int| 0 <= j < i implies g[j].0 != tag by {
        assert(g[j] == f[j]);
    }
    lemma_tag_index(g, tag, i);
}

impl JceObject {
    /// Whether the fields are in increasing tag order, each tag once.
    pub open spec fn wf(&self) -> bool {
        tags_sorted(self@)
    }

    /// An empty struct.
    pub fn new() -> (o: Self)
        ensures
            o@ == Seq::<(u8, JceValue)>::empty(),
            o.wf(),
    {
        let o = JceObject { fields: Vec::new() };
        assert(o@ =~= Seq::<(u8, JceValue)>::empty());
        o
    }

    /// An empty struct (the capacity is a hint only).
    pub fn with_capacity(capacity: usize) -> (o: Self)
        ensures
            o@ == Seq::<(u8, JceValue)>::empty(),
            o.wf(),
    {
        let o = JceObject { fields: Vec::with_capacity(capacity) };
        assert(o@ =~= Seq::<(u8, JceValue)>::empty());
        o
    }

    /// The fields, in their order.
    pub fn raw(self) -> (f: Vec<(u8, JceElement)>)
        ensures
            fields_view(f@) == self@,
    {
        self.fields
    }

    /// Sets field `tag` to `element`, in place where the tag is there, else in tag order.
    pub fn insert(&mut self, tag: u8, element: JceElement)
        ensures
            final(self)@ == obj_insert(old(self)@, tag, element@),
            old(self).wf() ==> final(self).wf(),
    {
        let ghost v = element@;
        insert_field(&mut self.fields, tag, element);
        proof {
            if old(self).wf() {
                lemma_obj_insert_sorted(old(self)@, tag, v);
            }
        }
    }

    fn find(&self, tag: u8) -> (i: usize)
        ensures
            i == tag_index(self@, tag),
            i <= self.fields@.len(),
    {
        proof {
            lemma_fields_view(self.fields@);
        }
        let mut i: usize = 0;
        while i < self.fields.len() && self.fields[i].0 != tag
            invariant
                i <= self.fields@.len(),
                fields_view(self.fields@).len() == self.fields@.len(),
                forall|j: int| 0 <= j < self.fields@.len() ==> #[trigger] fields_view(self.fields@)[j] == (self.fields@[j].0, self.fields@[j].1@),
                forall|j: int| 0 <= j < i ==> self@[j].0 != tag,
            decreases self.fields@.len() - i,
        {
            i = i + 1;
        }
        proof {
            lemma_tag_index(self@, tag, i as int);
        }
        i
    }

    /// The element of field `tag`, if there is one.
    pub fn get(&self, tag: u8) -> (r: Option<&JceElement>)
        ensures
            match r {
                Some(e) => field_lookup(self@, tag) == Some(e@),
                None => field_lookup(self@, tag) is None,
            },
    {
        let i = self.find(tag);
        proof {
            lemma_fields_view(self.fields@);
        }
        if i < self.fields.len() {
            Some(&self.fields[i].1)
        } else {
            None
        }
    }

    /// Takes out the element of field `tag`, if there is one.
    pub fn remove(&mut self, tag: u8) -> (r: Option<JceElement>)
        ensures
            match r {
                Some(e) => field_lookup(old(self)@, tag) == Some(e@),
                None => field_lookup(old(self)@, tag) is None,
            },
            final(self)@ == field_remove(old(self)@, tag),
    {
        let i = self.find(tag);
        proof {
            lemma_fields_view(self.fields@);
        }
        if i < self.fields.len() {
            let ghost before = self@;
            let (_, e) = self.fields.remove(i);
            proof {
                lemma_fields_view(self.fields@);
                assert(self@ =~= before.remove(i as int));
            }
            Some(e)
        } else {
            None
        }
    }

    /// Takes out the element of field `k`; `ItemNotFound(k)` where there is none.
    pub fn try_remove(&mut self, k: u8) -> (r: Result<JceElement, JceError>)
        ensures
            match r {
                Ok(e) => field_lookup(old(self)@, k) == Some(e@),
                Err(err) => field_lookup(old(self)@, k) is None && err == JceError::ItemNotFound(k),
            },
            final(self)@ == field_remove(old(self)@, k),
    {
        match self.remove(k) {
            Some(e) => Ok(e),
            None => Err(JceError::ItemNotFound(k)),
        }
    }

    /// The element of field `k`; `ItemNotFound(k)` where there is none.
    pub fn try_get(&self, k: u8) -> (r: Result<&JceElement, JceError>)
        ensures
            match r {
                Ok(e) => field_lookup(self@, k) == Some(e@),
                Err(err) => field_lookup(self@, k) is None && err == JceError::ItemNotFound(k),
            },
    {
        match self.get(k) {
            Some(e) => Ok(e),
            None => Err(JceError::ItemNotFound(k)),
        }
    }

    /// The struct that holds `element` as field 0.
    pub fn from_element(element: JceElement) -> (o: Self)
        ensures
            o@ == seq![(0u8, element@)],
            o.wf(),
    {
        let mut fields: Vec<(u8, JceElement)> = Vec::new();
        fields.push((0, element));
        let o = JceObject { fields };
        proof {
            lemma_fields_view(o.fields@);
            assert(o@ =~= seq![(0u8, o.fields@[0].1@)]);
        }
        o
    }
}

impl JceElement {
    /// The element that holds a string (see `string_value`).
    pub fn from_string(value: String) -> (e: JceElement)
        ensures
            e@ == string_value(value@),
    {
        if value.as_str().as_bytes().len() <= 255 {
            JceElement::String1(value)
        } else {
            JceElement::String4(value)
        }
    }

    /// The element that holds a string slice (see `string_value`).
    pub fn from_str(value: &str) -> (e: JceElement)
        ensures
            e@ == string_value(value@),
    {
        JceElement::from_string(value.to_owned())
    }

    /// The integer an element holds (`Zero` and the four integer types); `NotInt64` otherwise.
    pub fn try_into_i64(self) -> (r: Result<i64, JceError>)
        ensures
            r == as_count(self@),
    {
        count_of(&self)
    }

    /// The integer an element holds as a 32-bit number (`Zero`, `Int8`, `Int16`, `Int32`);
    /// `NotInt32` otherwise.
    pub fn try_into_i32(self) -> (r: Result<i32, JceError>)
        ensures
            r == (match self@ {
                JceValue::Zero => Ok(0i32),
                JceValue::Int8(x) => Ok(x as i32),
                JceValue::Int16(x) => Ok(x as i32),
                JceValue::Int32(x) => Ok(x),
                _ => Err(JceError::NotInt32),
            }),
    {
        match self {
            JceElement::Zero => Ok(0),
            JceElement::Int8(x) => Ok(x as i32),
            JceElement::Int16(x) => Ok(x as i32),
            JceElement::Int32(x) => Ok(x),
            _ => Err(JceError::NotInt32),
        }
    }

    /// The integer an element holds as a 16-bit number (`Zero`, `Int8`, `Int16`); `NotInt16`
    /// otherwise.
    pub fn try_into_i16(self) -> (r: Result<i16, JceError>)
        ensures
            r == (match self@ {
                JceValue::Zero => Ok(0i16),
                JceValue::Int8(x) => Ok(x as i16),
                JceValue::Int16(x) => Ok(x),
                _ => Err(JceError::NotInt16),
            }),
    {
        match self {
            JceElement::Zero => Ok(0),
            JceElement::Int8(x) => Ok(x as i16),
            JceElement::Int16(x) => Ok(x),
            _ => Err(JceError::NotInt16),
        }
    }

    /// The integer an element holds as an 8-bit number (`Zero`, `Int8`); `NotInt8` otherwise.
    pub fn try_into_i8(self) -> (r: Result<i8, JceError>)
        ensures
            r == (match self@ {
                JceValue::Zero => Ok(0i8),
                JceValue::Int8(x) => Ok(x),
                _ => Err(JceError::NotInt8),
            }),
    {
        match self {
            JceElement::Zero => Ok(0),
            JceElement::Int8(x) => Ok(x),
            _ => Err(JceError::NotInt8),
        }
    }

    /// The bits of the 32-bit float an element holds (`Float`, and `Zero` as 0.0, whose bits
    /// are 0); `NotFloat` otherwise.
    pub fn try_into_f32_bits(self) -> (r: Result<u32, JceError>)
        ensures
            r == (match self@ {
                JceValue::Zero => Ok(0u32),
                JceValue::Float(b) => Ok(b),
                _ => Err(JceError::NotFloat),
            }),
    {
        match self {
            JceElement::Zero => Ok(0),
            JceElement::Float(b) => Ok(b),
            _ => Err(JceError::NotFloat),
        }
    }

    /// The bytes a `SimpleList` element holds; `NotSimpleList` otherwise.
    pub fn try_into_bytes(self) -> (r: Result<Vec<u8>, JceError>)
        ensures
            match r {
                Ok(b) => self@ == JceValue::SimpleList(b@),
                Err(e) => !(self@ is SimpleList) && e == JceError::NotSimpleList,
            },
    {
        match self {
            JceElement::SimpleList(b) => Ok(b),
            _ => Err(JceError::NotSimpleList),
        }
    }

    /// The string a `String1` or `String4` element holds; `NotString` otherwise.
    pub fn try_into_string(self) -> (r: Result<String, JceError>)
        ensures
            match r {
                Ok(c) => as_key(self@) == Ok::<Seq<char>, JceError>(c@),
                Err(e) => as_key(self@) == Err::<Seq<char>, JceError>(e),
            },
    {
        match self {
            JceElement::String1(c) => Ok(c),
            JceElement::String4(c) => Ok(c),
            _ => Err(JceError::NotString),
        }
    }
}

/// Writes the fields of `object` one after another in their order (see `encode_fields`).
pub fn encode_stream(stream: &mut Vec<u8>, object: &JceObject)
    ensures
        final(stream)@ == old(stream)@ + encode_fields(object@),
{
    encode_fields_into(stream, &object.fields);
}

/// The bytes of `object` (the capacity is a hint only).
pub fn encode_with_capacity(object: &JceObject, capacity: usize) -> (r: Result<Vec<u8>, JceError>)
    ensures
        bytes_result(r) == Ok::<Seq<u8>, JceError>(encode_fields(object@)),
{
    let mut encoded: Vec<u8> = Vec::with_capacity(capacity);
    encode_stream(&mut encoded, object);
    assert(encoded@ =~= encode_fields(object@));
    Ok(encoded)
}

/// The bytes of `object`.
pub fn encode(object: &JceObject) -> (r: Result<Vec<u8>, JceError>)
    ensures
        bytes_result(r) == Ok::<Seq<u8>, JceError>(encode_fields(object@)),
{
    encode_with_capacity(object, 1024)
}

/// The bytes of a struct that holds `object` as field 0.
pub fn encode_nested(object: JceObject) -> (r: Result<Vec<u8>, JceError>)
    ensures
        bytes_result(r) == Ok::<Seq<u8>, JceError>(encode_fields(seq![(0u8, JceValue::Struct(object@))])),
{
    let wrapper = JceObject::from_element(JceElement::StructBegin(object));
    encode(&wrapper)
}

/// A request value as the wrapper carries it: a byte list stays as it is, anything else becomes
/// the bytes of a struct that holds it as field 0.
pub open spec fn wrap_value(v: JceValue) -> JceValue {
    if v is SimpleList {
        v
    } else {
        JceValue::SimpleList(encode_fields(seq![(0u8, v)]))
    }
}

/// The map of wrapped request values, keys set in order (a later key replaces an earlier one).
pub open spec fn wrapped_entries(m: Seq<(Seq<char>, JceValue)>) -> Seq<(Seq<char>, JceValue)>
    decreases m.len(),
{
    if m.len() == 0 {
        Seq::empty()
    } else {
        let last = m[m.len() - 1];
        map_insert(wrapped_entries(m.subrange(0, m.len() - 1)), last.0, wrap_value(last.1))
    }
}

/// The fields of a request wrapper: version 3, the request id, the servant and function names,
/// and the wrapped map as bytes at tag 7.
pub open spec fn wrapper_fields(m: Seq<(Seq<char>, JceValue)>, servant: Seq<char>, func: Seq<char>, req_id: i64) -> Seq<(u8, JceValue)> {
    seq![
        (1u8, int_value(3)),
        (2u8, JceValue::Zero),
        (3u8, JceValue::Zero),
        (4u8, int_value(req_id)),
        (5u8, string_value(servant)),
        (6u8, string_value(func)),
        (7u8, JceValue::SimpleList(encode_fields(seq![(0u8, JceValue::Mapping(wrapped_entries(m)))]))),
        (8u8, JceValue::Zero),
        (9u8, JceValue::Mapping(Seq::empty())),
        (10u8, JceValue::Mapping(Seq::empty())),
    ]
}

/// A request wrapper names its servant at tag 5 and its function at tag 6, carries the request
/// id at tag 4 and protocol version 3 at tag 1, and has its tags in increasing order, whatever
/// it wraps.
pub proof fn lemma_wrapper_names(m: Seq<(Seq<char>, JceValue)>, servant: Seq<char>, func: Seq<char>, req_id: i64)
    ensures
        field_lookup(wrapper_fields(m, servant, func, req_id), 1) == Some(int_value(3)),
        field_lookup(wrapper_fields(m, servant, func, req_id), 4) == Some(int_value(req_id)),
        field_lookup(wrapper_fields(m, servant, func, req_id), 5) == Some(string_value(servant)),
        field_lookup(wrapper_fields(m, servant, func, req_id), 6) == Some(string_value(func)),
        tags_sorted(wrapper_fields(m, servant, func, req_id)),
{
    let w = wrapper_fields(m, servant, func, req_id);
    lemma_tag_index(w, 1, 0);
    lemma_tag_index(w, 4, 3);
    lemma_tag_index(w, 5, 4);
    lemma_tag_index(w, 6, 5);
}

fn push_field(fields: &mut Vec<(u8, JceElement)>, tag: u8, e: JceElement)
    ensures
        fields_view(final(fields)@) == fields_view(old(fields)@).push((tag, e@)),
{
    let ghost before = fields@;
    fields.push((tag, e));
    assert(fields@.subrange(0, fields@.len() - 1) =~= before);
}

/// The bytes of a request: each value of `map` wrapped (see `wrap_value`) into a map under the
/// request header (see `wrapper_fields`); `req_id` defaults to 0.
pub fn encode_wrapper(map: Vec<(String, JceElement)>, servant: &str, func: &str, req_id: Option<i64>) -> (r: Result<Vec<u8>, JceError>)
    ensures
        bytes_result(r) == Ok::<Seq<u8>, JceError>(encode_fields(wrapper_fields(map_view(map@), servant@, func@, match req_id { Some(x) => x, None => 0 }))),
{
    proof {
        lemma_map_view(map@);
    }
    let ghost mv = map_view(map@);
    let mut simple_list: Vec<(String, JceElement)> = Vec::new();
    let mut map = map;
    assert(map_view(simple_list@) =~= wrapped_entries(mv.subrange(0, 0)));
    assert(mv.subrange(0, mv.len() as int) =~= mv);
    let ghost mut i: int = 0;
    while map.len() > 0
        invariant
            0 <= i <= mv.len(),
            map_view(map@) == mv.subrange(i, mv.len() as int),
            map_view(simple_list@) == wrapped_entries(mv.subrange(0, i)),
        decreases map@.len(),
    {
        let ghost before = map@;
        let (k, v) = map.remove(0);
        let ghost kv = (k@, v@);
        proof {
            lemma_map_view(before);
            lemma_map_view(map@);
            assert(map_view(before).len() == mv.len() - i);
            assert(map_view(before)[0] == mv[i]);
            assert(mv[i] == kv);
            assert forall|j: int| 0 <= j < map@.len() implies #[trigger] map_view(map@)[j] == mv.subrange(i + 1, mv.len() as int)[j] by {
                assert(map@[j] == before[j + 1]);
                assert(map_view(before)[j + 1] == mv.subrange(i, mv.len() as int)[j + 1]);
            }
            assert(map_view(map@) =~= mv.subrange(i + 1, mv.len() as int));
            assert(mv.subrange(0, i + 1).subrange(0, i) =~= mv.subrange(0, i));
        }
        let wrapped = match v {
            JceElement::SimpleList(b) => JceElement::SimpleList(b),
            other => {
                let inner = JceObject::from_element(other);
                match encode(&inner) {
                    Ok(bytes) => JceElement::SimpleList(bytes),
                    Err(e) => {
                        return Err(e);
                    },
                }
            },
        };
        assert(wrapped@ == wrap_value(kv.1));
        insert_entry(&mut simple_list, k, wrapped);
        proof {
            i = i + 1;
        }
    }
    assert(map_view(map@).len() == 0) by {
        lemma_map_view(map@);
    }
    assert(mv.subrange(0, mv.len() as int) =~= mv);
    let ghost wm = wrapped_entries(mv);

    let mut pre = JceObject::new();
    pre.insert(0, JceElement::Mapping(simple_list));
    let pre_encoded = match encode(&pre) {
        Ok(b) => b,
        Err(e) => {
            return Err(e);
        },
    };
    proof {
        assert(tag_pos(Seq::<(u8, JceValue)>::empty(), 0u8) == 0);
        assert(pre@ =~= seq![(0u8, JceValue::Mapping(wm))]);
    }
    let rid = match req_id {
        Some(x) => x,
        None => 0,
    };
    let mut fields: Vec<(u8, JceElement)> = Vec::new();
    push_field(&mut fields, 1, JceElement::from_i64(3));
    push_field(&mut fields, 2, JceElement::from_i64(0));
    push_field(&mut fields, 3, JceElement::from_i64(0));
    push_field(&mut fields, 4, JceElement::from_i64(rid));
    push_field(&mut fields, 5, JceElement::from_str(servant));
    push_field(&mut fields, 6, JceElement::from_str(func));
    push_field(&mut fields, 7, JceElement::SimpleList(pre_encoded));
    push_field(&mut fields, 8, JceElement::from_i64(0));
    push_field(&mut fields, 9, JceElement::Mapping(Vec::new()));
    push_field(&mut fields, 10, JceElement::Mapping(Vec::new()));
    let object = JceObject { fields };
    proof {
        assert(fields_view(Seq::<(u8, JceElement)>::empty()) =~= Seq::<(u8, JceValue)>::empty());
        assert(map_view(Seq::<(String, JceElement)>::empty()) =~= Seq::<(Seq<char>, JceValue)>::empty());
        assert(object@ =~= wrapper_fields(mv, servant@, func@, rid));
    }
    encode_with_capacity(&object, 1000)
}


/// The value a nested map or buffer stands for in a response: a map stands for its first value.
pub open spec fn unwrap_nested(v: JceValue) -> Result<JceValue, JceError> {
    match v {
        JceValue::Mapping(m) => if m.len() == 0 {
            Err(JceError::DecodeError)
        } else {
            Ok(m[0].1)
        },
        other => Ok(other),
    }
}

/// What `decode_wrapper` reads from `s`: the bytes at tag 7 are decoded, field 0 there must be a
/// map, its first value (or that value's own first value, where it is a map again) must be bytes,
/// and field 0 of what those decode to is the result. Anything else is a `DecodeError`.
pub open spec fn jce_decode_wrapper(s: Seq<u8>) -> Result<JceValue, JceError> {
    match jce_decode(s) {
        Err(e) => Err(e),
        Ok(w) => match field_lookup(w, 7) {
            Some(JceValue::SimpleList(b)) => match jce_decode(b) {
                Err(e) => Err(e),
                Ok(o) => match field_lookup(o, 0) {
                    Some(JceValue::Mapping(m)) => if m.len() == 0 {
                        Err(JceError::DecodeError)
                    } else {
                        match unwrap_nested(m[0].1) {
                            Err(e) => Err(e),
                            Ok(JceValue::SimpleList(b2)) => match jce_decode(b2) {
                                Err(e) => Err(e),
                                Ok(o2) => match field_lookup(o2, 0) {
                                    Some(v) => Ok(v),
                                    None => Err(JceError::DecodeError),
                                },
                            },
                            Ok(_) => Err(JceError::DecodeError),
                        }
                    },
                    _ => Err(JceError::DecodeError),
                },
            },
            _ => Err(JceError::DecodeError),
        },
    }
}

/// The element result, by value.
pub open spec fn value_result(r: Result<JceElement, JceError>) -> Result<JceValue, JceError> {
    match r {
        Ok(e) => Ok(e@),
        Err(e) => Err(e),
    }
}

fn first_value(m: Vec<(String, JceElement)>) -> (r: Option<JceElement>)
    ensures
        match r {
            Some(e) => map_view(m@).len() > 0 && e@ == map_view(m@)[0].1,
            None => map_view(m@).len() == 0,
        },
{
    proof {
        lemma_map_view(m@);
    }
    let mut m = m;
    if m.len() == 0 {
        None
    } else {
        let (_, v) = m.remove(0);
        Some(v)
    }
}

/// Reads the value out of a response (see `jce_decode_wrapper`).
pub fn decode_wrapper(source: &[u8]) -> (r: Result<JceElement, JceError>)
    ensures
        value_result(r) == jce_decode_wrapper(source@),
{
    let mut wrapper = match decode(source) {
        Ok(w) => w,
        Err(e) => {
            return Err(e);
        },
    };
    let inner = match wrapper.remove(7) {
        Some(JceElement::SimpleList(b)) => b,
        _ => {
            return Err(JceError::DecodeError);
        },
    };
    let mut object = match decode(inner.as_slice()) {
        Ok(o) => o,
        Err(e) => {
            return Err(e);
        },
    };
    let map = match object.remove(0) {
        Some(JceElement::Mapping(m)) => m,
        _ => {
            return Err(JceError::DecodeError);
        },
    };
    let nested = match first_value(map) {
        Some(v) => v,
        None => {
            return Err(JceError::DecodeError);
        },
    };
    let nested = match nested {
        JceElement::Mapping(m2) => match first_value(m2) {
            Some(v) => v,
            None => {
                return Err(JceError::DecodeError);
            },
        },
        other => other,
    };
    let bytes = match nested {
        JceElement::SimpleList(b) => b,
        _ => {
            return Err(JceError::DecodeError);
        },
    };
    let mut object = match decode(bytes.as_slice()) {
        Ok(o) => o,
        Err(e) => {
            return Err(e);
        },
    };
    match object.remove(0) {
        Some(v) => Ok(v),
        None => Err(JceError::DecodeError),
    }
}


/// The struct that the fields `s` give when inserted one after another (see `obj_insert`): a
/// later value of a tag replaces an earlier one.
pub open spec fn obj_collect(s: Seq<(u8, JceValue)>) -> Seq<(u8, JceValue)>
    decreases s.len(),
{
    if s.len() == 0 {
        Seq::empty()
    } else {
        obj_insert(obj_collect(s.drop_last()), s.last().0, s.last().1)
    }
}

/// The values of a list of optional elements.
pub open spec fn options_view(s: Seq<Option<JceElement>>) -> Seq<Option<JceValue>> {
    s.map_values(|o: Option<JceElement>| match o {
        Some(e) => Some(e@),
        None => None,
    })
}

/// The fields `(i, v)` for each `Some(v)` at index `i`, in index order.
pub open spec fn present_fields(s: Seq<Option<JceValue>>) -> Seq<(u8, JceValue)>
    decreases s.len(),
{
    if s.len() == 0 {
        Seq::empty()
    } else {
        match s.last() {
            Some(v) => present_fields(s.drop_last()).push(((s.len() - 1) as u8, v)),
            None => present_fields(s.drop_last()),
        }
    }
}

impl JceObject {
    /// The struct of the given fields, a later value of a tag replacing an earlier one (see
    /// `obj_collect`).
    pub fn from_pairs(arr: Vec<(u8, JceElement)>) -> (o: Self)
        ensures
            o@ == obj_collect(fields_view(arr@)),
            o.wf(),
    {
        let ghost all = fields_view(arr@);
        proof {
            lemma_fields_view(arr@);
        }
        let mut rest = arr;
        let mut o = JceObject::new();
        let ghost mut k: int = 0;
        while rest.len() > 0
            invariant
                0 <= k <= all.len(),
                all.len() == k + rest@.len(),
                forall|j: int| 0 <= j < rest@.len() ==> all[k + j] == (#[trigger] rest@[j].0, rest@[j].1@),
                o@ == obj_collect(all.take(k)),
                o.wf(),
            decreases rest@.len(),
        {
            let ghost before = rest@;
            let (tag, value) = rest.remove(0);
            proof {
                assert(all[k] == (tag, value@));
                assert(all.take(k + 1).drop_last() =~= all.take(k));
                assert forall|j: int| 0 <= j < rest@.len() implies all[k + 1 + j] == (#[trigger] rest@[j].0, rest@[j].1@) by {
                    assert(rest@[j] == before[j + 1]);
                }
            }
            o.insert(tag, value);
            proof {
                k = k + 1;
            }
        }
        assert(all.take(k) =~= all);
        o
    }

    /// The struct whose field `i` is `arr[i]` for each element that is there; more than 256
    /// entries overflow the tags and are refused with `TagOverflowed(256)`.
    pub fn try_from_options(arr: Vec<Option<JceElement>>) -> (r: Result<Self, JceError>)
        ensures
            arr@.len() > 256 ==> (r matches Err(e) && e == JceError::TagOverflowed(256)),
            arr@.len() <= 256 ==> (r matches Ok(o) && o@ == present_fields(options_view(arr@)) && o.wf()),
    {
        if arr.len() > 256 {
            return Err(JceError::TagOverflowed(256));
        }
        let ghost all = options_view(arr@);
        let n: usize = arr.len();
        let mut rest = arr;
        let mut fields: Vec<(u8, JceElement)> = Vec::new();
        let mut i: usize = 0;
        while rest.len() > 0
            invariant
                i + rest@.len() == n == all.len(),
                n <= 256,
                forall|j: int| 0 <= j < rest@.len() ==> all[i + j] == match #[trigger] rest@[j] {
                    Some(e) => Some(e@),
                    None => None::<JceValue>,
                },
                fields_view(fields@) == present_fields(all.take(i as int)),
                tags_sorted(fields_view(fields@)),
                forall|j: int| 0 <= j < fields_view(fields@).len() ==> fields_view(fields@)[j].0 < i,
            decreases rest@.len(),
        {
            let ghost before = rest@;
            let ghost prev = fields_view(fields@);
            let o = rest.remove(0);
            proof {
                assert(all.take(i + 1).drop_last() =~= all.take(i as int));
                assert(all.take(i + 1).last() == all[i as int]);
                assert forall|j: int| 0 <= j < rest@.len() implies all[i + 1 + j] == match #[trigger] rest@[j] {
                    Some(e) => Some(e@),
                    None => None::<JceValue>,
                } by {
                    assert(rest@[j] == before[j + 1]);
                }
                lemma_fields_view(fields@);
            }
            match o {
                Some(e) => {
                    proof {
                        assert(all[i as int] == Some(e@));
                    }
                    fields.push((i as u8, e));
                    proof {
                        lemma_fields_view(fields@);
                        assert(fields_view(fields@) =~= prev.push((i as u8, e@)));
                    }
                },
                None => {},
            }
            i = i + 1;
        }
        assert(all.take(n as int) =~= all);
        Ok(JceObject { fields })
    }
}


/// A request of one value that `encode_wrapper` writes is read back by `decode_wrapper` as that
/// value, where the value is well formed and not a byte list (a byte list is carried as it is,
/// and read back as the bytes of a struct), and the names and the encoded parts fit the length
/// fields they are written with.
pub proof fn lemma_decode_wrapper_of_encode(k: Seq<char>, v: JceValue, servant: Seq<char>, func: Seq<char>, req_id: i64)
    requires
        value_wf(v),
        !(v is SimpleList),
        encode_utf8(k).len() <= u32::MAX,
        encode_utf8(servant).len() <= u32::MAX,
        encode_utf8(func).len() <= u32::MAX,
        count_ok(encode_fields(seq![(0u8, v)]).len()),
        count_ok(encode_fields(seq![(0u8, JceValue::Mapping(seq![(k, wrap_value(v))]))]).len()),
    ensures
        jce_decode_wrapper(encode_fields(wrapper_fields(seq![(k, v)], servant, func, req_id))) == Ok::<JceValue, JceError>(v),
        jce_decode(encode_fields(wrapper_fields(seq![(k, v)], servant, func, req_id))) matches Ok(w)
            && field_lookup(w, 4) == Some(int_value(req_id))
            && field_lookup(w, 5) == Some(string_value(servant))
            && field_lookup(w, 6) == Some(string_value(func)),
{
    let inner = seq![(0u8, v)];
    let b0 = encode_fields(inner);
    let one = seq![(k, v)];
    let m = seq![(k, JceValue::SimpleList(b0))];
    assert(one.subrange(0, 0) =~= Seq::<(Seq<char>, JceValue)>::empty());
    assert(wrapped_entries(one.subrange(0, 0)) == Seq::<(Seq<char>, JceValue)>::empty());
    assert(key_pos(Seq::<(Seq<char>, JceValue)>::empty(), k) == 0);
    assert(wrap_value(v) == JceValue::SimpleList(b0));
    assert(map_insert(Seq::<(Seq<char>, JceValue)>::empty(), k, JceValue::SimpleList(b0)) =~= m);
    assert(wrapped_entries(one) =~= m);
    let mid = seq![(0u8, JceValue::Mapping(m))];
    let b1 = encode_fields(mid);
    let w = wrapper_fields(one, servant, func, req_id);
    assert(fields_wf(inner));
    assert(m[0] == (k, JceValue::SimpleList(b0)));
    assert(value_wf(JceValue::SimpleList(b0)));
    assert(value_wf(JceValue::Mapping(m)));
    assert(fields_wf(mid));
    assert(fields_wf(w));
    lemma_decode_encode(w);
    lemma_tag_index(w, 7, 6);
    lemma_tag_index(w, 4, 3);
    lemma_tag_index(w, 5, 4);
    lemma_tag_index(w, 6, 5);
    lemma_decode_encode(mid);
    lemma_tag_index(mid, 0, 0);
    lemma_decode_encode(inner);
    lemma_tag_index(inner, 0, 0);
}


} // verus!
