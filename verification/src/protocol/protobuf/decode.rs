use vstd::prelude::*;
use vstd::string::*;

use super::{field_at, find_field, lemma_find_field, read_field, ProtobufError, WireValue, WireView};
use crate::protocol::text::{decimal, push_decimal};

verus! {

/// Errors of decoding a message into `Object` and of reading values out of its elements.
#[derive(Debug, Clone, Copy, PartialEq, Eq)]
pub enum DecodeError {
    /// The input ended inside a field.
    UnexpectedEof,
    /// A varint runs over ten bytes.
    IncorrectVarint,
    InvalidType(u32),
    ItemNotFound(u32),
    NotInteger,
    NotDouble,
    NotBytes,
    NotString,
    NotArray,
    NotObject,
}

/// The error of decoding that a reading error stands for.
pub open spec fn decode_error_of(e: ProtobufError) -> DecodeError {
    match e {
        ProtobufError::UnexpectedEof => DecodeError::UnexpectedEof,
        ProtobufError::IncorrectVarint => DecodeError::IncorrectVarint,
        ProtobufError::InvalidType(t) => DecodeError::InvalidType(t),
        ProtobufError::ItemNotFound(t) => DecodeError::ItemNotFound(t),
        ProtobufError::NotInteger => DecodeError::NotInteger,
        ProtobufError::NotDouble => DecodeError::NotDouble,
        ProtobufError::NotBytes => DecodeError::NotBytes,
        ProtobufError::NotString => DecodeError::NotString,
        ProtobufError::NotArray => DecodeError::NotArray,
        ProtobufError::NotObject => DecodeError::NotObject,
    }
}

fn decode_error_from(e: ProtobufError) -> (d: DecodeError)
    ensures
        d == decode_error_of(e),
{
    match e {
        ProtobufError::UnexpectedEof => DecodeError::UnexpectedEof,
        ProtobufError::IncorrectVarint => DecodeError::IncorrectVarint,
        ProtobufError::InvalidType(t) => DecodeError::InvalidType(t),
        ProtobufError::ItemNotFound(t) => DecodeError::ItemNotFound(t),
        ProtobufError::NotInteger => DecodeError::NotInteger,
        ProtobufError::NotDouble => DecodeError::NotDouble,
        ProtobufError::NotBytes => DecodeError::NotBytes,
        ProtobufError::NotString => DecodeError::NotString,
        ProtobufError::NotArray => DecodeError::NotArray,
        ProtobufError::NotObject => DecodeError::NotObject,
    }
}

/// A decoded element. `Double` holds the bits of the IEEE-754 number (`f64::to_bits`).
#[derive(Debug)]
pub enum Element {
    Integer(i128),
    Double(u64),
    Bytes(Vec<u8>),
    String(String),
    Array(Vec<Element>),
    Object(Object),
}

/// A decoded message: elements by field number, in the order the numbers were first read.
#[derive(Debug)]
pub struct Object {
    pub fields: Vec<(u32, Element)>,
}

/// The mathematical value of a decoded element.
pub enum DecodedValue {
    Integer(i128),
    Double(u64),
    Bytes(Seq<u8>),
    String(Seq<char>),
    Array(Seq<DecodedValue>),
    Object(Seq<(u32, DecodedValue)>),
}

pub open spec fn element_view(e: Element) -> DecodedValue
    decreases e,
{
    match e {
        Element::Integer(v) => DecodedValue::Integer(v),
        Element::Double(v) => DecodedValue::Double(v),
        Element::Bytes(b) => DecodedValue::Bytes(b@),
        Element::String(c) => DecodedValue::String(c@),
        Element::Array(l) => DecodedValue::Array(elements_view(l@)),
        Element::Object(o) => DecodedValue::Object(object_view(o.fields@)),
    }
}

pub open spec fn elements_view(s: Seq<Element>) -> Seq<DecodedValue>
    decreases s,
{
    if s.len() == 0 {
        Seq::empty()
    } else {
        elements_view(s.subrange(0, s.len() - 1)).push(element_view(s[s.len() - 1]))
    }
}

pub open spec fn object_view(s: Seq<(u32, Element)>) -> Seq<(u32, DecodedValue)>
    decreases s,
{
    if s.len() == 0 {
        Seq::empty()
    } else {
        object_view(s.subrange(0, s.len() - 1)).push((s[s.len() - 1].0, element_view(s[s.len() - 1].1)))
    }
}

impl View for Element {
    type V = DecodedValue;

    open spec fn view(&self) -> DecodedValue {
        element_view(*self)
    }
}

impl View for Object {
    type V = Seq<(u32, DecodedValue)>;

    open spec fn view(&self) -> Seq<(u32, DecodedValue)> {
        object_view(self.fields@)
    }
}

pub proof fn lemma_object_view(s: Seq<(u32, Element)>)
    ensures
        object_view(s).len() == s.len(),
        forall|i: int| 0 <= i < s.len() ==> #[trigger] object_view(s)[i] == (s[i].0, s[i].1@),
    decreases s.len(),
{
    if s.len() > 0 {
        lemma_object_view(s.subrange(0, s.len() - 1));
    }
}

proof fn lemma_elements_push(s: Seq<Element>, x: Element)
    ensures
        elements_view(s.push(x)) == elements_view(s).push(x@),
{
    assert(s.push(x).subrange(0, s.len() as int) =~= s);
}

proof fn lemma_object_push(s: Seq<(u32, Element)>, x: (u32, Element))
    ensures
        object_view(s.push(x)) == object_view(s).push((x.0, x.1@)),
{
    assert(s.push(x).subrange(0, s.len() as int) =~= s);
}

proof fn lemma_object_update(s: Seq<(u32, Element)>, i: int, x: (u32, Element))
    requires
        0 <= i < s.len(),
    ensures
        object_view(s.update(i, x)) == object_view(s).update(i, (x.0, x.1@)),
{
    lemma_object_view(s);
    lemma_object_view(s.update(i, x));
    assert(object_view(s.update(i, x)) =~= object_view(s).update(i, (x.0, x.1@)));
}

/// The element a wire value becomes: numbers are integers (a varint taken as a signed 64-bit
/// number), length-delimited values are bytes.
pub open spec fn wire_decoded(w: WireView) -> DecodedValue {
    match w {
        WireView::Varint(v) => DecodedValue::Integer((v as i64) as i128),
        WireView::Fixed64(v) => DecodedValue::Integer(v as i128),
        WireView::Bytes(b) => DecodedValue::Bytes(b),
        WireView::Fixed32(v) => DecodedValue::Integer(v as i128),
    }
}

/// The message after one more field `tag` with value `v` is read: a new number is added at
/// the end, a number that holds an array gets `v` at the array's end, and a number that holds
/// anything else becomes an array of its old value alone (`v` is dropped).
pub open spec fn decoded_insert(f: Seq<(u32, DecodedValue)>, tag: u32, v: DecodedValue) -> Seq<(u32, DecodedValue)> {
    let i = find_field(f, tag, 0);
    if i < 0 {
        f.push((tag, v))
    } else {
        match f[i].1 {
            DecodedValue::Array(l) => f.update(i, (tag, DecodedValue::Array(l.push(v)))),
            old => f.update(i, (tag, DecodedValue::Array(seq![old]))),
        }
    }
}

/// The message read from `d[pos..]` onto the fields `acc` already read.
pub open spec fn object_decode_from(d: Seq<u8>, pos: int, acc: Seq<(u32, DecodedValue)>) -> Result<Seq<(u32, DecodedValue)>, DecodeError>
    decreases d.len() - pos,
{
    if pos < 0 || pos >= d.len() {
        Ok(acc)
    } else {
        match field_at(d, pos) {
            Err(e) => Err(decode_error_of(e)),
            Ok((tag, w, next)) => if next <= pos || next > d.len() {
                Ok(acc)
            } else {
                object_decode_from(d, next, decoded_insert(acc, tag, wire_decoded(w)))
            },
        }
    }
}

/// The message that `d` holds.
pub open spec fn object_decode(d: Seq<u8>) -> Result<Seq<(u32, DecodedValue)>, DecodeError> {
    object_decode_from(d, 0, Seq::empty())
}

fn position_in(fields: &Vec<(u32, Element)>, tag: u32) -> (r: usize)
    ensures
        r <= fields@.len(),
        r == fields@.len() ==> find_field(object_view(fields@), tag, 0) == -1,
        r < fields@.len() ==> find_field(object_view(fields@), tag, 0) == r,
{
    proof {
        lemma_object_view(fields@);
    }
    let mut i: usize = 0;
    while i < fields.len()
        invariant
            i <= fields@.len(),
            object_view(fields@).len() == fields@.len(),
            forall|j: int| 0 <= j < fields@.len() ==> #[trigger] object_view(fields@)[j] == (fields@[j].0, fields@[j].1@),
            find_field(object_view(fields@), tag, 0) == find_field(object_view(fields@), tag, i as int),
        decreases fields@.len() - i,
    {
        assert(object_view(fields@)[i as int].0 == fields@[i as int].0);
        if fields[i].0 == tag {
            return i;
        }
        i = i + 1;
    }
    i
}

fn insert_element(fields: &mut Vec<(u32, Element)>, tag: u32, value: Element)
    ensures
        object_view(final(fields)@) == decoded_insert(object_view(old(fields)@), tag, value@),
{
    let i = position_in(fields, tag);
    proof {
        lemma_object_view(fields@);
    }
    if i == fields.len() {
        proof {
            lemma_object_push(fields@, (tag, value));
        }
        fields.push((tag, value));
    } else {
        let ghost before = fields@;
        let (t, e) = fields.remove(i);
        let ghost old_e = e;
        let ne = match e {
            Element::Array(mut list) => {
                proof {
                    lemma_elements_push(list@, value);
                }
                list.push(value);
                Element::Array(list)
            },
            other => {
                let mut l: Vec<Element> = Vec::new();
                l.push(other);
                proof {
                    lemma_elements_push(Seq::empty(), other);
                    assert(l@ =~= Seq::<Element>::empty().push(other));
                }
                Element::Array(l)
            },
        };
        fields.insert(i, (t, ne));
        assert(fields@ =~= before.update(i as int, (t, ne)));
        proof {
            lemma_object_update(before, i as int, (t, ne));
            assert(object_view(before)[i as int] == (t, old_e@));
            lemma_find_field(object_view(before), tag, 0);
            assert(ne@ == match old_e@ {
                DecodedValue::Array(l) => DecodedValue::Array(l.push(value@)),
                o => DecodedValue::Array(seq![o]),
            });
        }
    }
}

fn element_from_wire(w: WireValue) -> (e: Element)
    ensures
        e@ == wire_decoded(w@),
{
    match w {
        WireValue::Varint(v) => Element::Integer((v as i64) as i128),
        WireValue::Fixed64(v) => Element::Integer(v as i128),
        WireValue::Bytes(b) => Element::Bytes(b),
        WireValue::Fixed32(v) => Element::Integer(v as i128),
    }
}

impl Object {
    /// An empty message.
    pub fn new() -> (o: Self)
        ensures
            o@ == Seq::<(u32, DecodedValue)>::empty(),
    {
        Object { fields: Vec::new() }
    }

    /// An empty message with room for `capacity` fields.
    pub fn with_capacity(capacity: usize) -> (o: Self)
        ensures
            o@ == Seq::<(u32, DecodedValue)>::empty(),
    {
        Object { fields: Vec::with_capacity(capacity) }
    }

    /// The fields themselves.
    pub fn into_inner(self) -> (f: Vec<(u32, Element)>)
        ensures
            object_view(f@) == self@,
    {
        self.fields
    }

    /// Takes field `k` out, or fails with `ItemNotFound(k)`.
    pub fn try_remove(&mut self, k: &u32) -> (r: Result<Element, DecodeError>)
        ensures
            find_field(old(self)@, *k, 0) == -1 ==> r == Err::<Element, DecodeError>(DecodeError::ItemNotFound(*k))
                && final(self)@ == old(self)@,
            find_field(old(self)@, *k, 0) != -1 ==> (r matches Ok(e) && e@ == old(self)@[find_field(old(self)@, *k, 0)].1
                && final(self)@ == old(self)@.remove(find_field(old(self)@, *k, 0))),
    {
        let i = position_in(&self.fields, *k);
        if i == self.fields.len() {
            return Err(DecodeError::ItemNotFound(*k));
        }
        let ghost before = self.fields@;
        let (_, e) = self.fields.remove(i);
        proof {
            lemma_object_view(before);
            lemma_object_view(self.fields@);
            assert(self@ =~= object_view(before).remove(i as int));
        }
        Ok(e)
    }

    /// Field `k`, or `ItemNotFound(k)`.
    pub fn try_get(&self, k: &u32) -> (r: Result<&Element, DecodeError>)
        ensures
            find_field(self@, *k, 0) == -1 ==> r == Err::<&Element, DecodeError>(DecodeError::ItemNotFound(*k)),
            find_field(self@, *k, 0) != -1 ==> (r matches Ok(e) && e@ == self@[find_field(self@, *k, 0)].1),
    {
        let i = position_in(&self.fields, *k);
        if i == self.fields.len() {
            return Err(DecodeError::ItemNotFound(*k));
        }
        proof {
            lemma_object_view(self.fields@);
        }
        Ok(&self.fields[i].1)
    }

    /// Reads a message from its bytes (see `object_decode`).
    pub fn decode(data: &[u8]) -> (r: Result<Object, DecodeError>)
        ensures
            match object_decode(data@) {
                Ok(f) => r matches Ok(o) && o@ == f,
                Err(e) => r matches Err(e2) && e2 == e,
            },
    {
        Object::decode_object(data)
    }

    fn decode_object(data: &[u8]) -> (r: Result<Object, DecodeError>)
        ensures
            match object_decode(data@) {
                Ok(f) => r matches Ok(o) && o@ == f,
                Err(e) => r matches Err(e2) && e2 == e,
            },
    {
        let n: usize = data.len();
        let mut result = Object::with_capacity(20);
        let mut pos: usize = 0;
        while pos < n
            invariant
                pos <= n == data@.len(),
                object_decode(data@) == object_decode_from(data@, pos as int, result@),
            decreases n - pos,
        {
            let (tag, w, next) = match read_field(data, pos) {
                Ok(x) => x,
                Err(e) => return Err(decode_error_from(e)),
            };
            let value = element_from_wire(w);
            insert_element(&mut result.fields, tag, value);
            pos = next;
        }
        Ok(result)
    }
}

impl Element {
    /// The integer held, or `NotInteger`.
    pub fn try_into_integer(self) -> (r: Result<i128, DecodeError>)
        ensures
            match self@ {
                DecodedValue::Integer(v) => r == Ok::<i128, DecodeError>(v),
                _ => r == Err::<i128, DecodeError>(DecodeError::NotInteger),
            },
    {
        match self {
            Element::Integer(v) => Ok(v),
            _ => Err(DecodeError::NotInteger),
        }
    }

    /// The bytes held, or `NotBytes`.
    pub fn try_into_bytes(self) -> (r: Result<Vec<u8>, DecodeError>)
        ensures
            match self@ {
                DecodedValue::Bytes(b) => r matches Ok(v) && v@ == b,
                _ => r matches Err(e) && e == DecodeError::NotBytes,
            },
    {
        match self {
            Element::Bytes(v) => Ok(v),
            _ => Err(DecodeError::NotBytes),
        }
    }

    /// The string held, or `NotString`.
    pub fn try_into_string(self) -> (r: Result<String, DecodeError>)
        ensures
            match self@ {
                DecodedValue::String(c) => r matches Ok(v) && v@ == c,
                _ => r matches Err(e) && e == DecodeError::NotString,
            },
    {
        match self {
            Element::String(v) => Ok(v),
            _ => Err(DecodeError::NotString),
        }
    }

    /// The list held; anything else is refused with `NotString`, the error this conversion has
    /// always given.
    pub fn try_into_array(self) -> (r: Result<Vec<Element>, DecodeError>)
        ensures
            match self@ {
                DecodedValue::Array(l) => r matches Ok(v) && elements_view(v@) == l,
                _ => r matches Err(e) && e == DecodeError::NotString,
            },
    {
        match self {
            Element::Array(v) => Ok(v),
            _ => Err(DecodeError::NotString),
        }
    }

    /// The message held, or the message that held bytes decode to; anything else is
    /// `NotObject`.
    pub fn try_into_object(self) -> (r: Result<Object, DecodeError>)
        ensures
            match self@ {
                DecodedValue::Object(f) => r matches Ok(o) && o@ == f,
                DecodedValue::Bytes(b) => match object_decode(b) {
                    Ok(f) => r matches Ok(o) && o@ == f,
                    Err(e) => r matches Err(e2) && e2 == e,
                },
                _ => r matches Err(e) && e == DecodeError::NotObject,
            },
    {
        match self {
            Element::Object(v) => Ok(v),
            Element::Bytes(v) => Object::decode(v.as_slice()),
            _ => Err(DecodeError::NotObject),
        }
    }
}

/// The text of an error.
pub open spec fn decode_error_text(e: DecodeError) -> Seq<char> {
    match e {
        DecodeError::UnexpectedEof => "Unexpected EOF"@,
        DecodeError::IncorrectVarint => "Incorrect varint"@,
        DecodeError::InvalidType(t) => "invalid type: "@ + decimal(t as nat) + "."@,
        DecodeError::ItemNotFound(t) => "item not found: "@ + decimal(t as nat) + "."@,
        DecodeError::NotInteger => "type of this protobuf element not Integer"@,
        DecodeError::NotDouble => "type of this protobuf element not Double"@,
        DecodeError::NotBytes => "type of this protobuf element not Bytes"@,
        DecodeError::NotString => "type of this protobuf element not String"@,
        DecodeError::NotArray => "type of this protobuf element not Array"@,
        DecodeError::NotObject => "type of this protobuf element not ProtobufObject"@,
    }
}

impl DecodeError {
    /// The text of the error (see `decode_error_text`).
    pub fn describe(&self) -> (s: String)
        ensures
            s@ == decode_error_text(*self),
    {
        match self {
            DecodeError::UnexpectedEof => String::from_str("Unexpected EOF"),
            DecodeError::IncorrectVarint => String::from_str("Incorrect varint"),
            DecodeError::InvalidType(t) => {
                let mut s = String::from_str("invalid type: ");
                push_decimal(&mut s, *t as u64);
                s.append(".");
                s
            },
            DecodeError::ItemNotFound(t) => {
                let mut s = String::from_str("item not found: ");
                push_decimal(&mut s, *t as u64);
                s.append(".");
                s
            },
            DecodeError::NotInteger => String::from_str("type of this protobuf element not Integer"),
            DecodeError::NotDouble => String::from_str("type of this protobuf element not Double"),
            DecodeError::NotBytes => String::from_str("type of this protobuf element not Bytes"),
            DecodeError::NotString => String::from_str("type of this protobuf element not String"),
            DecodeError::NotArray => String::from_str("type of this protobuf element not Array"),
            DecodeError::NotObject => String::from_str("type of this protobuf element not ProtobufObject"),
        }
    }
}

} // verus!
