use vstd::prelude::*;
use vstd::string::*;

use super::text::{decimal, lower_hex, push_decimal, push_lower_hex};

use super::jce::JceError;
use super::protobuf::{protobuf_error_text, ProtobufError};
use super::tea::TeaError;
use super::tlv::{tlv_error_text, TlvError};

verus! {

/// Errors of the client's protocol work.
#[derive(Debug, Clone, Copy, PartialEq, Eq)]
pub enum CommonError {
    Tea(TeaError),
    Tlv(TlvError),
    Jce(JceError),
    Protobuf(ProtobufError),
    /// A field the server had to send is missing.
    TagNotExisted(u16),
    /// The server's reply does not have the expected shape.
    IllegalData,
    /// A token has neither of the lengths a token can have.
    BadToken,
    /// A request that needs a registered session was made without one.
    NotRegistered,
    /// Text that should be UTF-8 is not.
    InvalidUtf8,
    /// The input ended early.
    UnexpectedEof,
    /// The server answered with a non-zero return code.
    UnsuccessfulRetcode(i32),
    /// A packet carries an unknown encryption flag.
    UnknownFlag(u8),
    /// A packet carries an unknown compression flag.
    UnknownCompressedFlag(i32),
    /// The compressed payload could not be inflated.
    DecompressFailed,
    /// Inflating the payload ran out of room.
    DecompressBufError,
    /// Inflating the payload reported the end of the stream.
    DecompressStreamEnd,
    /// A connection was asked for while one is open.
    AlreadyConnected,
    /// The connection is not open.
    NotConnected,
    /// The server stopped answering heartbeats.
    ConnectionLost,
}

/// The text of an error.
pub open spec fn jce_error_text(e: JceError) -> Seq<char> {
    match e {
        JceError::NotFloat => "type of this jce element not Float"@,
        JceError::NotDouble => "type of this jce element not Double"@,
        JceError::NotInt64 => "type of this jce element not SignedInteger64"@,
        JceError::NotInt32 => "type of this jce element not SignedInteger32"@,
        JceError::NotInt16 => "type of this jce element not SignedInteger16"@,
        JceError::NotInt8 => "type of this jce element not SignedInteger8"@,
        JceError::NotString => "type of this jce element not String"@,
        JceError::NotSimpleList => "type of this jce element not SimpleList"@,
        JceError::TagOverflowed(tag) => "jce tag overflowed, max: 255, current: "@ + decimal(tag as nat),
        JceError::DecodeError => "decode error"@,
        JceError::TypeNotMatched(t) => "type not matched: "@ + decimal(t as nat),
        JceError::ItemNotFound(t) => "item not found: "@ + decimal(t as nat) + "."@,
        JceError::UnexpectedEof => "unexpected end of data"@,
        JceError::InvalidUtf8 => "invalid utf-8 data"@,
    }
}

impl JceError {
    /// The text of the error (see `jce_error_text`).
    pub fn describe(&self) -> (s: String)
        ensures
            s@ == jce_error_text(*self),
    {
        match self {
            JceError::NotFloat => String::from_str("type of this jce element not Float"),
            JceError::NotDouble => String::from_str("type of this jce element not Double"),
            JceError::NotInt64 => String::from_str("type of this jce element not SignedInteger64"),
            JceError::NotInt32 => String::from_str("type of this jce element not SignedInteger32"),
            JceError::NotInt16 => String::from_str("type of this jce element not SignedInteger16"),
            JceError::NotInt8 => String::from_str("type of this jce element not SignedInteger8"),
            JceError::NotString => String::from_str("type of this jce element not String"),
            JceError::NotSimpleList => String::from_str("type of this jce element not SimpleList"),
            JceError::TagOverflowed(tag) => {
                let mut s = String::from_str("jce tag overflowed, max: 255, current: ");
                push_decimal(&mut s, *tag as u64);
                s
            },
            JceError::DecodeError => String::from_str("decode error"),
            JceError::TypeNotMatched(t) => {
                let mut s = String::from_str("type not matched: ");
                push_decimal(&mut s, *t as u64);
                s
            },
            JceError::ItemNotFound(t) => {
                let mut s = String::from_str("item not found: ");
                push_decimal(&mut s, *t as u64);
                s.append(".");
                s
            },
            JceError::UnexpectedEof => String::from_str("unexpected end of data"),
            JceError::InvalidUtf8 => String::from_str("invalid utf-8 data"),
        }
    }
}


/// A signed number in decimal.
pub open spec fn signed_decimal(n: int) -> Seq<char> {
    if n < 0 {
        "-"@ + decimal((-n) as nat)
    } else {
        decimal(n as nat)
    }
}

fn push_signed_decimal(s: &mut String, n: i32)
    ensures
        final(s)@ == old(s)@ + signed_decimal(n as int),
{
    if n < 0 {
        s.append("-");
        let m: u64 = (-(n as i64)) as u64;
        push_decimal(s, m);
    } else {
        push_decimal(s, n as u64);
    }
}

/// The text of an error of the cipher.
pub open spec fn tea_error_text(e: TeaError) -> Seq<char> {
    match e {
        TeaError::InvalidLength => "length of encrypted data must be a multiple of 8"@,
        TeaError::IllegalData => "encrypted data is illegal"@,
    }
}

/// The text of an error.
pub open spec fn common_error_text(e: CommonError) -> Seq<char> {
    match e {
        CommonError::Tea(t) => tea_error_text(t),
        CommonError::Tlv(t) => tlv_error_text(t),
        CommonError::Jce(j) => jce_error_text(j),
        CommonError::Protobuf(p) => protobuf_error_text(p),
        CommonError::TagNotExisted(tag) => "tag 0x"@ + lower_hex(tag as nat) + " not existed"@,
        CommonError::IllegalData => "illegal data"@,
        CommonError::BadToken => "bad token"@,
        CommonError::NotRegistered => "not registered"@,
        CommonError::InvalidUtf8 => "invalid utf-8 data"@,
        CommonError::UnexpectedEof => "unexpected end of data"@,
        CommonError::UnsuccessfulRetcode(c) => "unsuccessful retcode: "@ + signed_decimal(c as int),
        CommonError::UnknownFlag(f) => "unknown flag: "@ + decimal(f as nat),
        CommonError::UnknownCompressedFlag(f) => "unknown compressed flag: "@ + signed_decimal(f as int),
        CommonError::DecompressFailed => "decompress failed"@,
        CommonError::DecompressBufError => "decompress buf error"@,
        CommonError::DecompressStreamEnd => "decompress stream error"@,
        CommonError::AlreadyConnected => "connected"@,
        CommonError::NotConnected => "not connected"@,
        CommonError::ConnectionLost => "connection lost"@,
    }
}

impl CommonError {
    /// The text of the error (see `common_error_text`).
    pub fn describe(&self) -> (s: String)
        ensures
            s@ == common_error_text(*self),
    {
        match self {
            CommonError::Tea(t) => match t {
                TeaError::InvalidLength => String::from_str("length of encrypted data must be a multiple of 8"),
                TeaError::IllegalData => String::from_str("encrypted data is illegal"),
            },
            CommonError::Tlv(t) => t.describe(),
            CommonError::Jce(j) => j.describe(),
            CommonError::Protobuf(p) => p.describe(),
            CommonError::TagNotExisted(tag) => {
                let mut s = String::from_str("tag 0x");
                push_lower_hex(&mut s, *tag as u64);
                s.append(" not existed");
                s
            },
            CommonError::IllegalData => String::from_str("illegal data"),
            CommonError::BadToken => String::from_str("bad token"),
            CommonError::NotRegistered => String::from_str("not registered"),
            CommonError::InvalidUtf8 => String::from_str("invalid utf-8 data"),
            CommonError::UnexpectedEof => String::from_str("unexpected end of data"),
            CommonError::UnsuccessfulRetcode(c) => {
                let mut s = String::from_str("unsuccessful retcode: ");
                push_signed_decimal(&mut s, *c);
                s
            },
            CommonError::UnknownFlag(f) => {
                let mut s = String::from_str("unknown flag: ");
                push_decimal(&mut s, *f as u64);
                s
            },
            CommonError::UnknownCompressedFlag(f) => {
                let mut s = String::from_str("unknown compressed flag: ");
                push_signed_decimal(&mut s, *f);
                s
            },
            CommonError::DecompressFailed => String::from_str("decompress failed"),
            CommonError::DecompressBufError => String::from_str("decompress buf error"),
            CommonError::DecompressStreamEnd => String::from_str("decompress stream error"),
            CommonError::AlreadyConnected => String::from_str("connected"),
            CommonError::NotConnected => String::from_str("not connected"),
            CommonError::ConnectionLost => String::from_str("connection lost"),
        }
    }
}

} // verus!
