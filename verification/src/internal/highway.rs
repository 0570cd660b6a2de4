use vstd::prelude::*;
use vstd::string::*;

use crate::protocol::base_client::DataCenter;
use crate::protocol::helper::{md5_digest, md5_of};
use crate::protocol::protobuf::{encode, lemma_pb_fields_tags_ok, lemma_pb_fields_view, pb_message_bytes, PbValue, ProtobufElement, ProtobufObject};
use crate::protocol::tea::{encrypt, tea_encrypt};
use crate::protocol::text::{decimal, decimal_string};
use crate::protocol::tlv::text_bytes;
use crate::protocol::network::{be32_at, lemma_be32_at_be_u32, read_be32};
use crate::protocol::protobuf::decode::{object_decode, DecodedValue, Object as DecodedObject};
use crate::protocol::protobuf::encode::{message_bytes, field_ok, lemma_fields_tags_ok as lemma_encoded_tags_ok, lemma_object_view as lemma_encoded_view, Element as EncodedElement, EncodedValue, Object as EncodedObject};
use crate::protocol::protobuf::{find_field, lemma_find_field};
use crate::protocol::writer::{be_u32, copy_range, write_bytes, write_u32, write_u8};

verus! {

/// Errors of uploads to the highway servers.
#[derive(Debug, Clone, Copy, PartialEq, Eq, Structural)]
pub enum HighwayError {
    TicketNotProvided,
    ExtNotProvided,
    UploadChannelNotExisted,
    UploadTimeout,
}

/// What an upload is for.
#[derive(Debug, Clone, Copy, PartialEq, Eq, Structural)]
pub enum CommandId {
    DmImage,
    GroupImage,
    SelfPortrait,
    ShortVideo,
    DmPTT,
    MultiMsg,
    GroupPTT,
    OfflineFile,
    GroupFile,
    OCR,
}

/// The number of an upload command on the wire.
pub open spec fn command_id_code(c: CommandId) -> u8 {
    match c {
        CommandId::DmImage => 1,
        CommandId::GroupImage => 2,
        CommandId::SelfPortrait => 5,
        CommandId::ShortVideo => 25,
        CommandId::DmPTT => 26,
        CommandId::MultiMsg => 27,
        CommandId::GroupPTT => 29,
        CommandId::OfflineFile => 69,
        CommandId::GroupFile => 71,
        CommandId::OCR => 76,
    }
}

impl CommandId {
    /// The number of the command on the wire.
    pub fn code(&self) -> (c: u8)
        ensures
            c == command_id_code(*self),
    {
        match self {
            CommandId::DmImage => 1,
            CommandId::GroupImage => 2,
            CommandId::SelfPortrait => 5,
            CommandId::ShortVideo => 25,
            CommandId::DmPTT => 26,
            CommandId::MultiMsg => 27,
            CommandId::GroupPTT => 29,
            CommandId::OfflineFile => 69,
            CommandId::GroupFile => 71,
            CommandId::OCR => 76,
        }
    }
}

/// What an upload needs to know of the data it sends; the ticket, the extension data, the
/// encryption and the time limit are for each kind of upload to give where it has them.
pub trait HighwayUploadParameters {
    fn command_id(&self) -> CommandId;

    fn size(&self) -> u64;

    fn md5(&self) -> [u8; 16];

    /// The ticket to send with the upload; by default there is none.
    fn ticket(&self) -> (r: Result<&[u8], HighwayError>)
        default_ensures
            r == Err::<&[u8], HighwayError>(HighwayError::TicketNotProvided),
    {
        Err(HighwayError::TicketNotProvided)
    }

    /// The extension data of the upload; by default there is none.
    fn ext(&self) -> (r: Result<&[u8], HighwayError>)
        default_ensures
            r == Err::<&[u8], HighwayError>(HighwayError::ExtNotProvided),
    {
        Err(HighwayError::ExtNotProvided)
    }

    /// Whether the extension data is sent encrypted; by default it is not.
    fn encrypt(&self) -> (b: bool)
        default_ensures
            !b,
    {
        false
    }

    /// How long the upload may take, in milliseconds; by default there is no limit.
    fn timeout(&self) -> (t: Option<u64>)
        default_ensures
            t is None,
    {
        None
    }
}

/// Turns the chunks of an upload into highway packets: the state of an upload.
#[derive(Debug)]
pub struct Transformer {
    pub seq: u16,
    /// The number of bytes to send in all.
    pub total: u64,
    /// The number of bytes sent so far.
    pub transformed: u64,
    pub ticket: Vec<u8>,
    pub command_id: CommandId,
    pub md5: [u8; 16],
    pub ext: Vec<u8>,
    pub uin: u32,
    pub subid: u32,
}

/// The head of the packet that carries `chunk` as the upload stands in `t`.
pub open spec fn chunk_head(t: Transformer, chunk: Seq<u8>) -> Seq<(u32, PbValue)> {
    seq![
        (1u32, PbValue::Object(seq![
            (1u32, PbValue::Integer(1)),
            (2u32, PbValue::String(decimal(t.uin as nat))),
            (3u32, PbValue::String("PicUp.DataUp"@)),
            (4u32, PbValue::Integer(t.seq as isize)),
            (6u32, PbValue::Integer(t.subid as isize)),
            (7u32, PbValue::Integer(4096)),
            (8u32, PbValue::Integer(command_id_code(t.command_id) as isize)),
            (10u32, PbValue::Integer(2052)),
        ])),
        (2u32, PbValue::Object(seq![
            (2u32, PbValue::Integer(t.total as isize)),
            (3u32, PbValue::Integer(t.transformed as isize)),
            (4u32, PbValue::Integer(chunk.len() as isize)),
            (6u32, PbValue::Bytes(t.ticket@)),
            (8u32, PbValue::Bytes(md5_of(chunk))),
            (9u32, PbValue::Bytes(t.md5@)),
        ])),
        (3u32, PbValue::Bytes(t.ext@)),
    ]
}

/// The highway packet of a chunk: 40, the lengths of head and chunk, head, chunk, 41.
pub open spec fn chunk_packet(t: Transformer, chunk: Seq<u8>) -> Seq<u8> {
    let head = pb_message_bytes(chunk_head(t, chunk));
    seq![40u8] + be_u32(head.len() as u32) + be_u32(chunk.len() as u32) + head + chunk + seq![41u8]
}

impl Transformer {
    /// The state of an upload for the account of `data`, from what the upload's parameters
    /// give: the extension data sealed with the upload session's key (it has none, so the key
    /// is sixteen zero bytes) when `encrypt` asks for it, and the ticket the one given or else
    /// the upload session's.
    pub fn from_parts(data: &DataCenter, command_id: CommandId, size: u64, md5: [u8; 16], ticket: Option<&[u8]>, ext: &[u8], encrypt_ext: bool) -> (t: Transformer)
        ensures
            t.seq == 25102 && t.transformed == 0 && t.total == size,
            t.command_id == command_id && t.md5 == md5,
            t.uin == data.uin && t.subid == data.apk.subid,
            t.ticket@ == match ticket {
                Some(x) => x@,
                None => data.sig.bigdata.sig_session@,
            },
            t.ext@ == if encrypt_ext { tea_encrypt(ext@, Seq::new(16, |i: int| 0u8)) } else { ext@ },
    {
        let ext = if encrypt_ext {
            let key = [0u8; 16];
            assert(key@ =~= Seq::new(16, |i: int| 0u8));
            match encrypt(ext, &key) {
                Ok(v) => v,
                Err(_) => Vec::new(),
            }
        } else {
            let mut v: Vec<u8> = Vec::new();
            write_bytes(&mut v, ext);
            v
        };
        let ticket = match ticket {
            Some(t) => {
                let mut v: Vec<u8> = Vec::new();
                write_bytes(&mut v, t);
                v
            },
            None => {
                let mut v: Vec<u8> = Vec::new();
                write_bytes(&mut v, &data.sig.bigdata.sig_session);
                v
            },
        };
        Transformer {
            seq: 25102,
            total: size,
            transformed: 0,
            ticket,
            command_id,
            md5,
            ext,
            uin: data.uin,
            subid: data.apk.subid,
        }
    }

    /// The state of an upload of `params` for the account of `data` (see `from_parts`); the
    /// upload needs the parameters' extension data.
    pub fn new<P: HighwayUploadParameters>(data: &DataCenter, params: &P) -> (r: Result<Transformer, HighwayError>)
        ensures
            r matches Ok(t) ==> t.seq == 25102 && t.transformed == 0 && t.uin == data.uin && t.subid == data.apk.subid,
    {
        let encrypt_ext = params.encrypt();
        let ext = match params.ext() {
            Ok(e) => e,
            Err(e) => return Err(e),
        };
        let ticket = match params.ticket() {
            Ok(t) => Some(t),
            Err(_) => None,
        };
        Ok(Transformer::from_parts(data, params.command_id(), params.size(), params.md5(), ticket, ext, encrypt_ext))
    }

    /// The packet of the next chunk of the upload (see `chunk_packet`), which advances the
    /// sequence number and counts the chunk as sent; an empty chunk gives an empty packet and
    /// changes nothing.
    pub fn transform(&mut self, chunk: &[u8]) -> (packet: Vec<u8>)
        requires
            chunk@.len() > 0 ==> old(self).seq < 0xffff && old(self).transformed + chunk@.len() <= u64::MAX,
        ensures
            chunk@.len() == 0 ==> packet@.len() == 0 && *final(self) == *old(self),
            chunk@.len() > 0 ==> {
                &&& packet@ == chunk_packet(*old(self), chunk@)
                &&& final(self).seq == old(self).seq + 1
                &&& final(self).transformed == old(self).transformed + chunk@.len()
                &&& final(self).total == old(self).total && final(self).ticket == old(self).ticket
                &&& final(self).command_id == old(self).command_id && final(self).md5 == old(self).md5
                &&& final(self).ext == old(self).ext && final(self).uin == old(self).uin
                &&& final(self).subid == old(self).subid
            },
    {
        if chunk.len() == 0 {
            return Vec::new();
        }
        let digest = md5_digest(chunk);
        let mut digest_bytes: Vec<u8> = Vec::new();
        write_bytes(&mut digest_bytes, &digest);
        let mut ticket: Vec<u8> = Vec::new();
        write_bytes(&mut ticket, self.ticket.as_slice());
        let mut md5: Vec<u8> = Vec::new();
        write_bytes(&mut md5, &self.md5);
        let mut ext: Vec<u8> = Vec::new();
        write_bytes(&mut ext, self.ext.as_slice());
        let first = ProtobufObject { fields: vec![
            (1u32, ProtobufElement::Integer(1)),
            (2u32, ProtobufElement::String(decimal_string(self.uin as u64))),
            (3u32, ProtobufElement::String(String::from_str("PicUp.DataUp"))),
            (4u32, ProtobufElement::Integer(self.seq as isize)),
            (6u32, ProtobufElement::Integer(self.subid as isize)),
            (7u32, ProtobufElement::Integer(4096)),
            (8u32, ProtobufElement::Integer(self.command_id.code() as isize)),
            (10u32, ProtobufElement::Integer(2052)),
        ] };
        let second = ProtobufObject { fields: vec![
            (2u32, ProtobufElement::Integer(self.total as isize)),
            (3u32, ProtobufElement::Integer(self.transformed as isize)),
            (4u32, ProtobufElement::Integer(chunk.len() as isize)),
            (6u32, ProtobufElement::Bytes(ticket)),
            (8u32, ProtobufElement::Bytes(digest_bytes)),
            (9u32, ProtobufElement::Bytes(md5)),
        ] };
        let ghost expected = chunk_head(*self, chunk@);
        proof {
            lemma_pb_fields_view(first.fields@);
            lemma_pb_fields_view(second.fields@);
            assert(first@ =~= expected[0].1->Object_0);
            assert(second@ =~= expected[1].1->Object_0);
        }
        let object = ProtobufObject { fields: vec![
            (1u32, ProtobufElement::Object(first)),
            (2u32, ProtobufElement::Object(second)),
            (3u32, ProtobufElement::Bytes(ext)),
        ] };
        proof {
            lemma_pb_fields_view(object.fields@);
            assert(object@ =~~= expected);
            reveal_with_fuel(crate::protocol::protobuf::pb_fields_tags_ok, 10);
            assert(crate::protocol::protobuf::pb_fields_tags_ok(expected[0].1->Object_0));
            assert(crate::protocol::protobuf::pb_fields_tags_ok(expected[1].1->Object_0));
            assert(crate::protocol::protobuf::pb_fields_tags_ok(expected));
        }
        let head = match encode(&object) {
            Ok(h) => h,
            Err(_) => Vec::new(),
        };
        let mut packet: Vec<u8> = Vec::new();
        write_u8(&mut packet, 40);
        write_u32(&mut packet, head.len() as u32);
        write_u32(&mut packet, chunk.len() as u32);
        write_bytes(&mut packet, head.as_slice());
        write_bytes(&mut packet, chunk);
        write_u8(&mut packet, 41);
        assert(packet@ =~= chunk_packet(*old(self), chunk@));
        self.seq = self.seq + 1;
        self.transformed = self.transformed + chunk.len() as u64;
        packet
    }

    /// Whether every byte has been sent.
    pub fn ended(&self) -> (e: bool)
        ensures
            e == (self.total == self.transformed),
    {
        self.total == self.transformed
    }
}


/// What an upload does next.
#[derive(Debug, Clone, Copy, PartialEq, Eq, Structural)]
pub enum UploadAction {
    /// The time allowed has run out.
    TimedOut,
    /// Everything is sent: close the stream.
    Finish,
    /// Read the next chunk and hand it to `take_chunk`.
    ReadChunk,
    /// Send the packet from `uploaded` on and hand the count sent to `written`.
    Write,
}

/// An upload in progress: the packets are sent one after another, each in as many writes as
/// the stream takes.
#[derive(Debug)]
pub struct UploadState {
    pub transformer: Transformer,
    /// The packet being sent.
    pub queue: Vec<u8>,
    /// How much of it is sent.
    pub uploaded: usize,
    pub wait_response: bool,
    /// How long the upload may take, in milliseconds.
    pub timeout: Option<u64>,
}

impl UploadState {
    /// An upload that has sent nothing.
    pub fn new(transformer: Transformer, timeout: Option<u64>) -> (u: Self)
        ensures
            u.transformer == transformer,
            u.queue@.len() == 0 && u.uploaded == 0 && !u.wait_response,
            u.timeout == timeout,
    {
        UploadState { transformer, queue: Vec::new(), uploaded: 0, wait_response: false, timeout }
    }

    /// What comes next, `elapsed_ms` after the upload started: a timeout when the time allowed
    /// has run out; else with nothing waiting to be sent, the end when every byte is sent and
    /// the next chunk otherwise; else a write.
    pub fn next_action(&self, elapsed_ms: u64) -> (a: UploadAction)
        ensures
            a == if (self.timeout matches Some(t) && elapsed_ms >= t) {
                UploadAction::TimedOut
            } else if self.queue@.len() == 0 && self.transformer.total == self.transformer.transformed {
                UploadAction::Finish
            } else if self.queue@.len() == 0 {
                UploadAction::ReadChunk
            } else {
                UploadAction::Write
            },
    {
        match self.timeout {
            Some(t) => {
                if elapsed_ms >= t {
                    return UploadAction::TimedOut;
                }
            },
            None => {},
        }
        if self.queue.len() == 0 && self.transformer.ended() {
            UploadAction::Finish
        } else if self.queue.len() == 0 {
            UploadAction::ReadChunk
        } else {
            UploadAction::Write
        }
    }

    /// Takes the next chunk read: its packet (see `Transformer::transform`) is what is to be
    /// sent; an empty chunk gives nothing to send.
    pub fn take_chunk(&mut self, chunk: &[u8])
        requires
            chunk@.len() > 0 ==> old(self).transformer.seq < 0xffff && old(self).transformer.transformed + chunk@.len() <= u64::MAX,
        ensures
            chunk@.len() > 0 ==> final(self).queue@ == chunk_packet(old(self).transformer, chunk@),
            chunk@.len() == 0 ==> final(self).queue@.len() == 0 && final(self).transformer == old(self).transformer,
            final(self).uploaded == old(self).uploaded && final(self).wait_response == old(self).wait_response,
            final(self).timeout == old(self).timeout,
    {
        self.queue = self.transformer.transform(chunk);
    }

    /// Counts `n` more bytes of the packet as sent. When the whole packet is sent, it is done
    /// with, the answer is awaited, and the progress (bytes in all, bytes sent) comes back.
    pub fn written(&mut self, n: usize) -> (progress: Option<(u64, u64)>)
        requires
            old(self).uploaded + n <= old(self).queue@.len(),
        ensures
            final(self).transformer == old(self).transformer && final(self).timeout == old(self).timeout,
            old(self).uploaded + n == old(self).queue@.len() ==> {
                &&& final(self).queue@.len() == 0 && final(self).uploaded == 0 && final(self).wait_response
                &&& progress == Some((old(self).transformer.total, old(self).transformer.transformed))
            },
            old(self).uploaded + n < old(self).queue@.len() ==> {
                &&& final(self).queue@ == old(self).queue@ && final(self).uploaded == old(self).uploaded + n
                &&& final(self).wait_response == old(self).wait_response && progress is None
            },
    {
        let len: usize = self.queue.len();
        self.uploaded = self.uploaded + n;
        if len == self.uploaded {
            self.queue.clear();
            self.wait_response = true;
            self.uploaded = 0;
            Some((self.transformer.total, self.transformer.transformed))
        } else {
            None
        }
    }
}


/// The text of an error.
pub open spec fn highway_error_text(e: HighwayError) -> Seq<char> {
    match e {
        HighwayError::UploadTimeout => "upload timeout."@,
        HighwayError::UploadChannelNotExisted => "no upload channel, please retry later."@,
        HighwayError::TicketNotProvided => "ticket not provided."@,
        HighwayError::ExtNotProvided => "ext not provided."@,
    }
}

impl HighwayError {
    /// The text of the error (see `highway_error_text`).
    pub fn describe(&self) -> (s: String)
        ensures
            s@ == highway_error_text(*self),
    {
        match self {
            HighwayError::UploadTimeout => String::from_str("upload timeout."),
            HighwayError::UploadChannelNotExisted => String::from_str("no upload channel, please retry later."),
            HighwayError::TicketNotProvided => String::from_str("ticket not provided."),
            HighwayError::ExtNotProvided => String::from_str("ext not provided."),
        }
    }
}


// ---------------------------------------------------------------------------------------------
// The receiving end of an upload
// ---------------------------------------------------------------------------------------------

/// A whole highway packet at the front of `buf`: one byte, the lengths of head and chunk (32-bit
/// big-endian), head, chunk and one byte. The head, the chunk and the packet's length.
pub open spec fn upload_frame(buf: Seq<u8>) -> Option<(Seq<u8>, Seq<u8>, int)> {
    if buf.len() < 9 {
        None
    } else {
        let head_len = be32_at(buf, 1) as int;
        let chunk_len = be32_at(buf, 5) as int;
        let total = 1 + 4 + 4 + head_len + chunk_len + 1;
        if buf.len() < total {
            None
        } else {
            Some((buf.subrange(9, 9 + head_len), buf.subrange(9 + head_len, 9 + head_len + chunk_len), total))
        }
    }
}

/// Cuts the next whole packet of an upload off the front of the received bytes (see
/// `upload_frame`); nothing while it is not all there.
pub fn next_upload_frame(buf: &[u8]) -> (r: Option<(Vec<u8>, Vec<u8>, usize)>)
    ensures
        match upload_frame(buf@) {
            None => r is None,
            Some((head, chunk, total)) => r matches Some((h, c, t)) && h@ == head && c@ == chunk && t == total,
        },
{
    let n: usize = buf.len();
    if n < 9 {
        return None;
    }
    let head_len = read_be32(buf, 1) as usize;
    let chunk_len = read_be32(buf, 5) as usize;
    if head_len > n - 9 || chunk_len > n - 9 - head_len || n - 9 - head_len - chunk_len < 1 {
        return None;
    }
    let head = copy_range(buf, 9, 9 + head_len);
    let chunk = copy_range(buf, 9 + head_len, 9 + head_len + chunk_len);
    Some((head, chunk, 10 + head_len + chunk_len))
}

/// What the sending end writes, the receiving end cuts off: the packet of a chunk, at the front
/// of the received bytes, gives back the head it was written with, the chunk and its own
/// length, where head and chunk are shorter than 2^32 bytes.
pub proof fn lemma_upload_frame_of_packet(t: Transformer, chunk: Seq<u8>, rest: Seq<u8>)
    requires
        pb_message_bytes(chunk_head(t, chunk)).len() < 0x1_0000_0000,
        chunk.len() < 0x1_0000_0000,
    ensures
        upload_frame(chunk_packet(t, chunk) + rest)
            == Some((pb_message_bytes(chunk_head(t, chunk)), chunk, chunk_packet(t, chunk).len() as int)),
{
    let head = pb_message_bytes(chunk_head(t, chunk));
    let packet = chunk_packet(t, chunk);
    let s = packet + rest;
    let hl = head.len() as u32;
    let cl = chunk.len() as u32;
    assert(packet =~= seq![40u8] + be_u32(hl) + be_u32(cl) + head + chunk + seq![41u8]);
    assert(s.subrange(1, 5) =~= be_u32(hl));
    assert(s.subrange(5, 9) =~= be_u32(cl));
    lemma_be32_at_be_u32(s, 1, hl);
    lemma_be32_at_be_u32(s, 5, cl);
    let h: int = head.len() as int;
    let c: int = chunk.len() as int;
    assert(s.subrange(9, 9 + h) =~= head);
    assert(s.subrange(9 + h, 9 + h + c) =~= chunk);
}

/// The answer to an upload packet: a message whose field 2 holds the bytes of a message of the
/// total length, the bytes received before this packet and the chunk's length (fields 2, 3 and
/// 4), and whose field 3 is 0; framed as 0, its length, 0 (32-bit), the message and 0.
pub open spec fn upload_ack_bytes(total: i128, received: u64, chunk_len: u64) -> Seq<u8> {
    let nested = message_bytes(seq![
        (2u32, EncodedValue::Integer(total)),
        (3u32, EncodedValue::Integer(received as i128)),
        (4u32, EncodedValue::Integer(chunk_len as i128)),
    ]);
    let message = message_bytes(seq![(2u32, EncodedValue::Bytes(nested)), (3u32, EncodedValue::Integer(0))]);
    seq![0u8] + be_u32(message.len() as u32) + be_u32(0) + message + seq![0u8]
}

/// Builds the answer to an upload packet (see `upload_ack_bytes`).
pub fn upload_ack(total: i128, received: u64, chunk_len: u64) -> (ack: Vec<u8>)
    ensures
        ack@ == upload_ack_bytes(total, received, chunk_len),
{
    let nested = EncodedObject { fields: vec![
        (2u32, EncodedElement::Integer(total)),
        (3u32, EncodedElement::Integer(received as i128)),
        (4u32, EncodedElement::Integer(chunk_len as i128)),
    ] };
    proof {
        lemma_encoded_view(nested.fields@);
        assert(nested@ =~= seq![
            (2u32, EncodedValue::Integer(total)),
            (3u32, EncodedValue::Integer(received as i128)),
            (4u32, EncodedValue::Integer(chunk_len as i128)),
        ]);
        lemma_encoded_tags_ok(nested@);
        assert(field_ok(nested@[0]) && field_ok(nested@[1]) && field_ok(nested@[2]));
    }
    let nested_bytes = match nested.encode() {
        Ok(b) => b,
        Err(_) => Vec::new(),
    };
    let outer = EncodedObject { fields: vec![
        (2u32, EncodedElement::Bytes(nested_bytes.as_slice())),
        (3u32, EncodedElement::Integer(0)),
    ] };
    proof {
        lemma_encoded_view(outer.fields@);
        assert(outer@ =~= seq![(2u32, EncodedValue::Bytes(nested_bytes@)), (3u32, EncodedValue::Integer(0))]);
        lemma_encoded_tags_ok(outer@);
        assert(field_ok(outer@[0]) && field_ok(outer@[1]));
    }
    let message = match outer.encode() {
        Ok(b) => b,
        Err(_) => Vec::new(),
    };
    let mut ack: Vec<u8> = Vec::new();
    write_u8(&mut ack, 0);
    write_u32(&mut ack, message.len() as u32);
    write_u32(&mut ack, 0);
    write_bytes(&mut ack, message.as_slice());
    write_u8(&mut ack, 0);
    assert(ack@ =~= upload_ack_bytes(total, received, chunk_len));
    ack
}

/// The total length an upload packet's head announces: field 2 of its head is a message (or
/// the bytes of one) whose field 2 is the total.
pub open spec fn announced_total(head: Seq<u8>) -> Option<i128> {
    match object_decode(head) {
        Err(_) => None,
        Ok(f) => {
            let i = find_field(f, 2, 0);
            if i < 0 {
                None
            } else {
                let meta = match f[i].1 {
                    DecodedValue::Object(m) => Some(m),
                    DecodedValue::Bytes(b) => match object_decode(b) {
                        Ok(m) => Some(m),
                        Err(_) => None,
                    },
                    _ => None,
                };
                match meta {
                    None => None,
                    Some(m) => {
                        let j = find_field(m, 2, 0);
                        if j < 0 {
                            None
                        } else {
                            match m[j].1 {
                                DecodedValue::Integer(t) => Some(t),
                                _ => None,
                            }
                        }
                    },
                }
            }
        },
    }
}

/// Reads the total length an upload packet's head announces (see `announced_total`).
pub fn upload_total(head: &[u8]) -> (r: Option<i128>)
    ensures
        r == announced_total(head@),
{
    let mut object = match DecodedObject::decode(head) {
        Ok(o) => o,
        Err(_) => return None,
    };
    let ghost f = object@;
    proof {
        lemma_find_field(f, 2, 0);
    }
    let meta = match object.try_remove(&2) {
        Ok(e) => e,
        Err(_) => return None,
    };

    let mut meta = match meta.try_into_object() {
        Ok(m) => m,
        Err(_) => return None,
    };
    proof {
        lemma_find_field(meta@, 2, 0);
    }
    let total = match meta.try_remove(&2) {
        Ok(e) => e,
        Err(_) => return None,
    };
    match total.try_into_integer() {
        Ok(t) => Some(t),
        Err(_) => None,
    }
}

} // verus!
