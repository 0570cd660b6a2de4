use vstd::prelude::*;

use super::device::{full_device_of, generated_device, imei_ok, platform_apk, FullDevice, Platform, ShortDevice, APK};
use super::ecdh::ECDH;
use super::helper::random_block;
use super::error::CommonError;
use super::network::{login_command_name, uni_command_name, LoginCommand, LoginRequest, UniCommand, UniRequest};
use super::helper::current_unix_timestamp_as_secs;
use super::jce::{encode_fields, encode_nested, encode_wrapper, int_value, lemma_fields_view, fields_view, string_value, wrapper_fields, JceElement, JceObject, JceValue};
use super::protobuf::{encode as pb_encode, lemma_pb_fields_tags_ok, lemma_pb_fields_view, lemma_pb_list_view, pb_message_bytes, PbValue, ProtobufElement, ProtobufObject};
use super::tea::{encrypt, tea_encrypt};
use super::tlv::{be16_at, read_tlv, fields_result, tlv16, text_bytes, tlv_fields, zeros, TlvError, WriteTlvExt};
use super::tea::{decrypt, tea_decrypt, tea_decrypt_safe};
use super::helper::{md5_digest, md5_of};
use super::jce::string_from_utf8;
use vstd::utf8::{decode_utf8, encode_utf8, encode_utf8_decode_utf8, valid_utf8};
use std::collections::HashMap;
use super::text::{decimal, decimal_string};
use super::writer::{be_u16, be_u32, be_u64, bytes_result, write_bytes, write_bytes_with_length, write_i32, write_u16, write_u32, write_u64, write_u8};
use vstd::wrapping::u32_specs::wrapping_add;

verus! {

/// Where large files go: the upload server and its session keys.
#[derive(Debug, Clone, Copy)]
pub struct BigData {
    pub ip: &'static str,
    pub port: u16,
    pub sig_session: [u8; 0],
    pub session_key: [u8; 0],
}

impl BigData {
    /// No upload server yet.
    pub fn new() -> (b: Self)
        ensures
            b.ip@ == ""@,
            b.port == 0,
    {
        Self { ip: "", port: 0, sig_session: [], session_key: [] }
    }
}

/// The keys and tickets of a session.
#[derive(Debug, Clone)]
pub struct SIG {
    pub seq: u32,
    pub session: [u8; 4],
    pub randkey: [u8; 16],
    pub tgtgt: [u8; 16],
    pub tgt: Vec<u8>,
    pub skey: Vec<u8>,
    pub d2: Vec<u8>,
    pub d2key: [u8; 16],
    pub t104: Vec<u8>,
    pub t174: Vec<u8>,
    pub qrsig: Option<Vec<u8>>,
    pub bigdata: BigData,
    pub hb480: Vec<u8>,
    pub emp_time: u64,
    pub time_diff: i64,
}

/// The heartbeat body of an account: its number and 0x19e39, both big-endian.
pub open spec fn hb480_of(uin: u32) -> Seq<u8> {
    be_u32(uin) + be_u32(0x19e39)
}

/// A fresh session of an account: no tickets yet, a sequence number below 0x1000, and the
/// given session id and keys.
pub open spec fn fresh_sig(s: SIG, uin: u32) -> bool {
    &&& s.seq < 0x1000
    &&& s.tgt@.len() == 0
    &&& s.skey@.len() == 0
    &&& s.d2@.len() == 0
    &&& s.d2key@ == Seq::new(16, |i: int| 0u8)
    &&& s.t104@.len() == 0
    &&& s.t174@.len() == 0
    &&& s.qrsig is None
    &&& s.bigdata.ip@ == ""@
    &&& s.bigdata.port == 0
    &&& s.hb480@ == hb480_of(uin)
    &&& s.emp_time == 0
    &&& s.time_diff == 0
}

impl SIG {
    /// A fresh session whose sequence number is the low twelve bits of `seq_seed`.
    pub fn with_keys(uin: u32, seq_seed: u32, session: [u8; 4], randkey: [u8; 16], tgtgt: [u8; 16]) -> (s: Self)
        ensures
            fresh_sig(s, uin),
            s.seq == seq_seed & 0xfff,
            s.session == session,
            s.randkey == randkey,
            s.tgtgt == tgtgt,
    {
        let mut hb480: Vec<u8> = Vec::new();
        write_u32(&mut hb480, uin);
        write_i32(&mut hb480, 0x19e39);
        assert(hb480@ =~= hb480_of(uin));
        let seq = seq_seed & 0xfff;
        assert(seq_seed & 0xfff < 0x1000) by (bit_vector);
        let d2key = [0u8; 16];
        assert(d2key@ =~= Seq::new(16, |i: int| 0u8));
        Self {
            seq,
            session,
            randkey,
            tgtgt,
            tgt: Vec::new(),
            skey: Vec::new(),
            d2: Vec::new(),
            d2key,
            t104: Vec::new(),
            t174: Vec::new(),
            qrsig: None,
            bigdata: BigData::new(),
            hb480,
            emp_time: 0,
            time_diff: 0,
        }
    }

    /// A fresh session with a random sequence number, session id and keys.
    pub fn new(uin: u32) -> (s: Self)
        ensures
            fresh_sig(s, uin),
    {
        let a = random_block();
        let randkey = random_block();
        let tgtgt = random_block();
        let seed: u32 = (a[0] as u32) * 16777216 + (a[1] as u32) * 65536 + (a[2] as u32) * 256 + a[3] as u32;
        SIG::with_keys(uin, seed, [a[4], a[5], a[6], a[7]], randkey, tgtgt)
    }
}

/// How the body of a login packet is sealed: not at all, with the session key `d2key`, or
/// with the zero key after a key exchange.
#[derive(Debug, Clone, Copy, PartialEq, Eq, Structural)]
pub enum CommandType {
    Type0,
    Type1,
    Type2,
}

/// The number of a command type on the wire.
pub open spec fn command_type_code(t: CommandType) -> u8 {
    match t {
        CommandType::Type0 => 0,
        CommandType::Type1 => 1,
        CommandType::Type2 => 2,
    }
}

impl CommandType {
    /// The number of the type on the wire.
    pub fn code(&self) -> (c: u8)
        ensures
            c == command_type_code(*self),
    {
        match self {
            CommandType::Type0 => 0,
            CommandType::Type1 => 1,
            CommandType::Type2 => 2,
        }
    }
}

/// What goes wrong in a login, for the client's user to see.
#[derive(Debug, Clone)]
pub enum InternalErrorKind {
    Token,
    UnknownLoginType(u8, String),
    Qrcode(u8, String),
}

/// An account once logged in.
#[derive(Debug, Clone)]
pub struct User {
    pub token: Vec<u8>,
    pub nickname: String,
    pub gender: u8,
    pub age: u8,
}

/// Everything a client knows of its account, device and session.
#[derive(Debug)]
pub struct DataCenter {
    /// The keys of the web services, by domain, each domain once.
    pub pskey: Vec<(String, Vec<u8>)>,
    pub uin: u32,
    pub apk: APK,
    pub device: FullDevice,
    pub sig: SIG,
    pub ecdh: ECDH,
}

impl DataCenter {
    /// The data of an account on a platform: the given device, or else the one generated for
    /// the account, a fresh session and the given key exchange. The account must be one a
    /// device can be generated for even when a device is given: the client has always worked
    /// that device out first, and fails on such an account either way.
    pub fn new(uin: u32, platform: Platform, d: Option<ShortDevice>, ecdh: ECDH) -> (data: Self)
        requires
            imei_ok(uin),
        ensures
            data.pskey@.len() == 0,
            data.uin == uin,
            platform_apk(platform, data.apk),
            d matches Some(d) ==> full_device_of(d, data.device, data.device.imsi@),
            d is None ==> exists|g: ShortDevice| generated_device(g, uin) && full_device_of(g, data.device, data.device.imsi@),
            fresh_sig(data.sig, uin),
            data.ecdh.public_key@ == ecdh.public_key@,
            data.ecdh.share_key == ecdh.share_key,
    {
        let short = match d {
            Some(d) => d,
            None => ShortDevice::generate(uin),
        };
        let ghost g = short;
        let device = FullDevice::from(short);
        Self {
            pskey: Vec::new(),
            uin,
            apk: platform.metadata(),
            device,
            sig: SIG::new(uin),
            ecdh,
        }
    }

    /// Advances the sequence number, wrapping to 0 at 0x8000, and returns it.
    pub fn increase_seq(&mut self) -> (next: u32)
        requires
            old(self).sig.seq < 0xffff_ffff,
        ensures
            next == (if old(self).sig.seq + 1 >= 0x8000 { 0 } else { old(self).sig.seq + 1 }),
            final(self).sig.seq == next,
            final(self).sig == (SIG { seq: next, ..old(self).sig }),
            final(self).uin == old(self).uin,
            final(self).apk == old(self).apk,
            final(self).device == old(self).device,
            final(self).ecdh == old(self).ecdh,
            final(self).pskey == old(self).pskey,
    {
        let mut next = self.sig.seq + 1;
        if next >= 0x8000 {
            next = 0;
        }
        self.sig.seq = next;
        next
    }
}


/// Bytes after a 32-bit big-endian length that counts itself too (modulo 2^32).
pub open spec fn with_length(b: Seq<u8>) -> Seq<u8> {
    be_u32(wrapping_add(b.len() as u32, 4)) + b
}

/// The type a login packet is built with: `Type2` unless another is asked for.
pub open spec fn login_type(t: Option<CommandType>) -> CommandType {
    match t {
        Some(x) => x,
        None => CommandType::Type2,
    }
}

/// The account, command id and sub-application id a login packet goes out with: the scan-code
/// login goes out as the watch application with no account.
pub open spec fn login_target(data: DataCenter, command: LoginCommand) -> (u32, u16, u32) {
    if command == LoginCommand::WtLoginTransEmp {
        (0, 0x812, 537064446)
    } else {
        (data.uin, 0x810, data.apk.subid)
    }
}

/// The body of a `Type2` packet before its frame: the random key, the public key of the key
/// exchange and the body encrypted with the shared key.
pub open spec fn sealed_body(data: DataCenter, body: Seq<u8>) -> Seq<u8> {
    seq![2u8, 1u8] + data.sig.randkey@ + be_u16(0x131) + be_u16(1) + tlv16(data.ecdh.public_key@)
        + tea_encrypt(body, data.ecdh.share_key@)
}

/// A `Type2` body in its frame.
pub open spec fn login_frame(data: DataCenter, command: LoginCommand, body: Seq<u8>) -> Seq<u8> {
    let s = sealed_body(data, body);
    let (uin, cmd_id, subid) = login_target(data, command);
    seq![2u8] + be_u16((29 + (s.len() as u16)) as u16) + be_u16(8081) + be_u16(cmd_id) + be_u16(1)
        + be_u32(uin) + seq![3u8, 0x87u8, 0u8] + be_u32(2) + be_u32(0) + be_u32(0) + s + seq![3u8]
}

/// The head of a login packet.
pub open spec fn login_head(data: DataCenter, command: LoginCommand, seq: u32) -> Seq<u8> {
    let subid = login_target(data, command).2;
    be_u32(seq) + be_u32(subid) + be_u32(subid) + seq![1u8, 0, 0, 0, 0, 0, 0, 0, 0, 0, 1, 0]
        + with_length(data.sig.tgt@) + with_length(text_bytes(login_command_name(command)))
        + with_length(data.sig.session@) + with_length(text_bytes(data.device.imei@)) + be_u32(4)
        + be_u16(2) + be_u32(4)
}

/// The head and body of a login packet, each after its length; a `Type2` body in its frame.
pub open spec fn login_sso(data: DataCenter, command: LoginCommand, body: Seq<u8>, typee: CommandType, seq: u32) -> Seq<u8> {
    let inner = if typee == CommandType::Type2 { login_frame(data, command, body) } else { body };
    with_length(login_head(data, command, seq)) + with_length(inner)
}

/// The head and body sealed by type: with the session key for `Type1`, with the zero key for
/// `Type2`, as they are for `Type0`.
#[verifier::opaque]
pub open spec fn sealed_sso(d2key: Seq<u8>, sso: Seq<u8>, typee: CommandType) -> Seq<u8> {
    match typee {
        CommandType::Type1 => tea_encrypt(sso, d2key),
        CommandType::Type2 => tea_encrypt(sso, zeros(16)),
        CommandType::Type0 => sso,
    }
}

/// A login packet: the sealed head and body after the type, the session ticket and the account.
pub open spec fn login_packet(data: DataCenter, command: LoginCommand, body: Seq<u8>, typee: CommandType, seq: u32) -> Seq<u8> {
    let uin = login_target(data, command).0;
    with_length(be_u32(0x0a) + seq![command_type_code(typee)] + with_length(data.sig.d2@) + seq![0u8]
        + with_length(text_bytes(decimal(uin as nat))) + sealed_sso(data.sig.d2key@, login_sso(data, command, body, typee, seq), typee))
}

/// The sequence number after `seq`: one more, wrapping to 0 at 0x8000.
pub open spec fn next_seq(seq: u32) -> u32 {
    if seq + 1 >= 0x8000 { 0 } else { (seq + 1) as u32 }
}

/// The data with which a login packet can be built: a sequence number that can be advanced, and
/// for `Type2` a frame whose 16-bit length field holds the sealed body's length plus 29.
pub open spec fn login_ok(data: DataCenter, body: Seq<u8>, typee: Option<CommandType>) -> bool {
    &&& data.sig.seq < 0xffff_ffff
    &&& login_type(typee) == CommandType::Type2 ==> (sealed_body(data, body).len() as u16) + 29 <= 0xffff
}

/// Only the sequence number of the session changed.
pub open spec fn only_seq_changed(before: DataCenter, after: DataCenter, seq: u32) -> bool {
    &&& after.sig == (SIG { seq: seq, ..before.sig })
    &&& after.uin == before.uin
    &&& after.apk == before.apk
    &&& after.device == before.device
    &&& after.ecdh == before.ecdh
    &&& after.pskey == before.pskey
}

impl DataCenter {
    fn seal_body(&self, command: LoginCommand, body: &[u8]) -> (w: Vec<u8>)
        requires
            (sealed_body(*self, body@).len() as u16) + 29 <= 0xffff,
        ensures
            w@ == login_frame(*self, command, body@),
    {
        let (uin, cmd_id): (u32, u16) = if command == LoginCommand::WtLoginTransEmp { (0, 0x812) } else { (self.uin, 0x810) };
        let mut buf_0: Vec<u8> = Vec::new();
        write_u8(&mut buf_0, 0x02);
        write_u8(&mut buf_0, 0x01);
        write_bytes(&mut buf_0, &self.sig.randkey);
        write_u16(&mut buf_0, 0x131);
        write_u16(&mut buf_0, 0x01);
        buf_0.write_tlv(self.ecdh.public_key.as_slice());
        match encrypt(body, &self.ecdh.share_key) {
            Ok(e) => write_bytes(&mut buf_0, e.as_slice()),
            Err(_) => {},
        }
        assert(buf_0@ =~= sealed_body(*self, body@));
        let mut buf_1: Vec<u8> = Vec::new();
        write_u8(&mut buf_1, 0x02);
        write_u16(&mut buf_1, 29 + buf_0.len() as u16);
        write_u16(&mut buf_1, 8081);
        write_u16(&mut buf_1, cmd_id);
        write_u16(&mut buf_1, 1);
        write_u32(&mut buf_1, uin);
        write_u8(&mut buf_1, 3);
        write_u8(&mut buf_1, 0x87);
        write_u8(&mut buf_1, 0);
        write_u32(&mut buf_1, 2);
        write_u32(&mut buf_1, 0);
        write_u32(&mut buf_1, 0);
        write_bytes(&mut buf_1, buf_0.as_slice());
        write_u8(&mut buf_1, 0x03);
        assert(buf_1@ =~= login_frame(*self, command, body@));
        buf_1
    }

    fn login_head_bytes(&self, command: LoginCommand, seq: u32) -> (w: Vec<u8>)
        ensures
            w@ == login_head(*self, command, seq),
    {
        let subid: u32 = if command == LoginCommand::WtLoginTransEmp {
            Platform::watch().subid
        } else {
            self.apk.subid
        };
        let mut buf: Vec<u8> = Vec::new();
        write_u32(&mut buf, seq);
        write_u32(&mut buf, subid);
        write_u32(&mut buf, subid);
        write_bytes(&mut buf, &[0x01u8, 0x00, 0x00, 0x00, 0x00, 0x00, 0x00, 0x00, 0x00, 0x00, 0x01, 0x00]);
        write_bytes_with_length(&mut buf, self.sig.tgt.as_slice());
        write_bytes_with_length(&mut buf, command.as_ref().as_bytes());
        write_bytes_with_length(&mut buf, &self.sig.session);
        write_bytes_with_length(&mut buf, self.device.imei.as_str().as_bytes());
        write_u32(&mut buf, 4);
        write_u16(&mut buf, 2);
        write_u32(&mut buf, 4);
        assert(buf@ =~= login_head(*self, command, seq));
        buf
    }

    fn seal_sso(&self, sso: Vec<u8>, typee: CommandType) -> (w: Vec<u8>)
        ensures
            w@ == sealed_sso(self.sig.d2key@, sso@, typee),
    {
        reveal(sealed_sso);
        match typee {
            CommandType::Type1 => match encrypt(sso.as_slice(), &self.sig.d2key) {
                Ok(e) => e,
                Err(_) => Vec::new(),
            },
            CommandType::Type2 => {
                let zero = [0u8; 16];
                assert(zero@ =~= zeros(16));
                match encrypt(sso.as_slice(), &zero) {
                    Ok(e) => e,
                    Err(_) => Vec::new(),
                }
            },
            CommandType::Type0 => sso,
        }
    }

    fn login_sso_bytes(&self, command: LoginCommand, body: &[u8], typee: CommandType, seq: u32) -> (w: Vec<u8>)
        requires
            typee == CommandType::Type2 ==> (sealed_body(*self, body@).len() as u16) + 29 <= 0xffff,
        ensures
            w@ == login_sso(*self, command, body@, typee, seq),
    {
        let head = self.login_head_bytes(command, seq);
        let mut sso: Vec<u8> = Vec::new();
        write_bytes_with_length(&mut sso, head.as_slice());
        if typee == CommandType::Type2 {
            let framed = self.seal_body(command, body);
            write_bytes_with_length(&mut sso, framed.as_slice());
        } else {
            write_bytes_with_length(&mut sso, body);
        }
        assert(sso@ =~= login_sso(*self, command, body@, typee, seq));
        sso
    }

    #[verifier::rlimit(50)]
    fn login_payload(&self, command: LoginCommand, body: &[u8], typee: CommandType, seq: u32) -> (w: Vec<u8>)
        requires
            typee == CommandType::Type2 ==> (sealed_body(*self, body@).len() as u16) + 29 <= 0xffff,
        ensures
            w@ == login_packet(*self, command, body@, typee, seq),
    {
        let uin: u32 = if command == LoginCommand::WtLoginTransEmp { 0 } else { self.uin };
        let sso = self.login_sso_bytes(command, body, typee, seq);
        let sealed = self.seal_sso(sso, typee);
        let uin_str = decimal_string(uin as u64);
        let mut payload: Vec<u8> = Vec::new();
        write_u32(&mut payload, 0x0a);
        write_u8(&mut payload, typee.code());
        write_bytes_with_length(&mut payload, self.sig.d2.as_slice());
        write_u8(&mut payload, 0);
        write_bytes_with_length(&mut payload, uin_str.as_str().as_bytes());
        write_bytes(&mut payload, sealed.as_slice());
        let mut result: Vec<u8> = Vec::new();
        write_bytes_with_length(&mut result, payload.as_slice());
        assert(result@ =~= login_packet(*self, command, body@, typee, seq));
        result
    }

    /// Advances the sequence number and builds a login packet of `command` around `body` (see
    /// `login_packet`), `Type2` by default.
    pub fn build_login_request(&mut self, command: LoginCommand, body: &[u8], typee: Option<CommandType>) -> (r: Result<LoginRequest, CommonError>)
        requires
            login_ok(*old(self), body@, typee),
        ensures
            only_seq_changed(*old(self), *final(self), next_seq(old(self).sig.seq)),
            r matches Ok(req) && req@ == (next_seq(old(self).sig.seq), command,
                login_packet(*old(self), command, body@, login_type(typee), next_seq(old(self).sig.seq))),
    {
        let typee = match typee {
            Some(t) => t,
            None => CommandType::Type2,
        };
        let ghost before = *self;
        let seq = self.increase_seq();
        let payload = self.login_payload(command, body, typee, seq);
        assert(login_packet(*self, command, body@, typee, seq) == login_packet(before, command, body@, typee, seq));
        Ok(LoginRequest::new(seq, command, payload))
    }
}


/// The body of a scan-code login request: the header with the clock's seconds (modulo 2^32) and
/// the next sequence number, then `body` and an end byte.
pub open spec fn qrcode_frame(data: DataCenter, cmd_id: u16, head: u32, body: Seq<u8>, secs: u64) -> Seq<u8> {
    be_u32(head) + be_u32(0x1000) + be_u16(0) + be_u32(0x72000000) + be_u32(secs as u32) + seq![2u8]
        + be_u16(((44 + body.len()) % 0x10000) as u16) + be_u16(cmd_id) + zeros(21) + seq![3u8] + be_u16(0)
        + be_u16(50) + be_u32((data.sig.seq + 1) as u32) + be_u64(0) + body + seq![3u8]
}

/// The clock's seconds change a scan-code frame's bytes, never whether it fits a login packet.
#[verifier::spinoff_prover]
proof fn lemma_qrcode_login_ok(data: DataCenter, cmd_id: u16, head: u32, body: Seq<u8>, secs: u64)
    ensures
        login_ok(data, qrcode_frame(data, cmd_id, head, body, secs), None)
            == login_ok(data, qrcode_frame(data, cmd_id, head, body, 0), None),
{
    let f = qrcode_frame(data, cmd_id, head, body, secs);
    let g = qrcode_frame(data, cmd_id, head, body, 0);
    assert(f.len() == g.len()) by {
        assert(be_u32(secs as u32).len() == be_u32(0u32).len());
    }
    super::tea::lemma_tea_encrypt_len(f, g, data.ecdh.share_key@);
    let pre = seq![2u8, 1u8] + data.sig.randkey@ + be_u16(0x131) + be_u16(1) + tlv16(data.ecdh.public_key@);
    assert(sealed_body(data, f) == pre + tea_encrypt(f, data.ecdh.share_key@));
    assert(sealed_body(data, g) == pre + tea_encrypt(g, data.ecdh.share_key@));
}

/// The value of a 32-bit length field: a length plus `k`, modulo 2^32.
pub open spec fn len32(n: nat, k: u32) -> u32 {
    wrapping_add(n as u32, k)
}

/// The packet of a business command: the command and the body sealed with the session key,
/// after the sequence number and the account.
pub open spec fn uni_packet(data: DataCenter, command: UniCommand, body: Seq<u8>, seq: u32) -> Seq<u8> {
    let cmd = text_bytes(uni_command_name(command));
    let sso = be_u32(len32(cmd.len(), 20)) + be_u32(len32(cmd.len(), 4)) + cmd + be_u32(8)
        + data.sig.session@ + be_u32(4) + be_u32(len32(body.len(), 4)) + body;
    let sealed = tea_encrypt(sso, data.sig.d2key@);
    let uin = text_bytes(decimal(data.uin as nat));
    be_u32(wrapping_add(len32(sealed.len(), uin.len() as u32), 18)) + be_u32(8) + seq![1u8] + be_u32(seq)
        + seq![0u8] + be_u32(len32(uin.len(), 4)) + uin + sealed
}

/// The protobuf message of a register request: the clock's seconds and two fixed entries.
pub open spec fn register_report(secs: u64) -> Seq<u8> {
    pb_message_bytes(seq![(1u32, PbValue::Array(seq![
        PbValue::Object(seq![(1u32, PbValue::Integer(46)), (2u32, PbValue::Integer(secs as i64 as isize))]),
        PbValue::Object(seq![(1u32, PbValue::Integer(283)), (2u32, PbValue::Integer(0))]),
    ]))])
}

/// The fields of a register (or, with `logout`, unregister) request.
pub open spec fn register_fields(data: DataCenter, logout: bool, report: Seq<u8>) -> Seq<(u8, JceValue)> {
    let d = data.device;
    seq![
        (0u8, int_value(data.uin as i64)), (1u8, int_value(if logout { 0 } else { 7 })),
        (2u8, int_value(0)), (3u8, string_value(""@)), (4u8, int_value(if logout { 21 } else { 11 })),
        (5u8, int_value(0)), (6u8, int_value(0)), (7u8, int_value(0)), (8u8, int_value(0)),
        (9u8, int_value(0)), (10u8, int_value(if logout { 44 } else { 0 })),
        (11u8, int_value(d.version.sdk as i64)), (12u8, int_value(1)), (13u8, string_value(""@)),
        (14u8, int_value(0)), (16u8, JceValue::SimpleList(d.guid@)), (17u8, int_value(2052)),
        (18u8, int_value(0)), (19u8, string_value(d.model@)), (20u8, string_value(d.model@)),
        (21u8, string_value(d.version.release@)), (22u8, int_value(1)), (23u8, int_value(0)),
        (24u8, int_value(0)), (26u8, int_value(0)), (27u8, int_value(0)), (28u8, string_value(""@)),
        (29u8, int_value(0)), (30u8, string_value(d.brand@)), (31u8, string_value(d.brand@)),
        (32u8, string_value(""@)), (33u8, JceValue::SimpleList(report)), (34u8, int_value(0)),
        (36u8, int_value(0)), (38u8, int_value(1000)), (39u8, int_value(98)),
    ]
}

/// The body of a register request: the request wrapped for the push service.
pub open spec fn register_body(data: DataCenter, logout: bool, secs: u64) -> Seq<u8> {
    let svc = encode_fields(seq![(0u8, JceValue::Struct(register_fields(data, logout, register_report(secs))))]);
    encode_fields(wrapper_fields(seq![("SvcReqRegister"@, JceValue::SimpleList(svc))], "PushService"@, "SvcReqRegister"@, 0))
}

fn push_jce(fields: &mut Vec<(u8, JceElement)>, tag: u8, e: JceElement)
    ensures
        fields_view(final(fields)@) == fields_view(old(fields)@).push((tag, e@)),
{
    let ghost before = fields@;
    fields.push((tag, e));
    assert(fields@.subrange(0, fields@.len() - 1) =~= before);
}

fn push_int(fields: &mut Vec<(u8, JceElement)>, tag: u8, n: i64)
    ensures
        fields_view(final(fields)@) == fields_view(old(fields)@).push((tag, int_value(n))),
{
    push_jce(fields, tag, JceElement::from_i64(n));
}

fn register_report_bytes(secs: u64) -> (w: Vec<u8>)
    ensures
        w@ == register_report(secs),
{
    let first = ProtobufObject { fields: vec![(1u32, ProtobufElement::Integer(46)), (2u32, ProtobufElement::Integer(secs as i64 as isize))] };
    let second = ProtobufObject { fields: vec![(1u32, ProtobufElement::Integer(283)), (2u32, ProtobufElement::Integer(0))] };
    let ghost o1 = seq![(1u32, PbValue::Integer(46)), (2u32, PbValue::Integer(secs as i64 as isize))];
    let ghost o2 = seq![(1u32, PbValue::Integer(283)), (2u32, PbValue::Integer(0))];
    proof {
        lemma_pb_fields_view(first.fields@);
        lemma_pb_fields_view(second.fields@);
        assert(first@ =~= o1);
        assert(second@ =~= o2);
    }
    let items = vec![ProtobufElement::Object(first), ProtobufElement::Object(second)];
    proof {
        lemma_pb_list_view(items@);
        assert(items@[0]@ == PbValue::Object(o1));
        assert(items@[1]@ == PbValue::Object(o2));
        assert(super::protobuf::pb_list_view(items@) =~= seq![PbValue::Object(o1), PbValue::Object(o2)]);
    }
    let element = ProtobufElement::Array(items);
    assert(element@ == PbValue::Array(seq![PbValue::Object(o1), PbValue::Object(o2)]));
    let object = ProtobufObject { fields: vec![(1u32, element)] };
    let ghost expected = seq![(1u32, PbValue::Array(seq![
        PbValue::Object(seq![(1u32, PbValue::Integer(46)), (2u32, PbValue::Integer(secs as i64 as isize))]),
        PbValue::Object(seq![(1u32, PbValue::Integer(283)), (2u32, PbValue::Integer(0))]),
    ]))];
    proof {
        lemma_pb_fields_view(object.fields@);
        assert(object@ =~~= expected);
        reveal_with_fuel(super::protobuf::pb_fields_tags_ok, 3);
        reveal_with_fuel(super::protobuf::pb_list_tags_ok, 3);
        assert(super::protobuf::pb_fields_tags_ok(expected[0].1->Array_0[0]->Object_0));
        assert(super::protobuf::pb_fields_tags_ok(expected[0].1->Array_0[1]->Object_0));
        assert(super::protobuf::pb_list_tags_ok(expected[0].1->Array_0));
    }
    match pb_encode(&object) {
        Ok(w) => w,
        Err(_) => Vec::new(),
    }
}

impl DataCenter {
    fn qrcode_frame_bytes(&self, cmd_id: u16, head: u32, body: &[u8], secs: u64) -> (buf: Vec<u8>)
        requires
            self.sig.seq < 0xffff_ffff,
        ensures
            buf@ == qrcode_frame(*self, cmd_id, head, body@, secs),
    {
        let mut buf: Vec<u8> = Vec::new();
        write_u32(&mut buf, head);
        write_u32(&mut buf, 0x1000);
        write_u16(&mut buf, 0);
        write_u32(&mut buf, 0x72000000);
        write_u32(&mut buf, secs as u32);
        write_u8(&mut buf, 2);
        write_u16(&mut buf, ((body.len() % 0x10000) as u16).wrapping_add(44));
        write_u16(&mut buf, cmd_id);
        write_bytes(&mut buf, &[0u8; 21]);
        write_u8(&mut buf, 3);
        write_u16(&mut buf, 0);
        write_u16(&mut buf, 50);
        write_u32(&mut buf, self.sig.seq + 1);
        write_u64(&mut buf, 0);
        write_bytes(&mut buf, body);
        write_u8(&mut buf, 3);
        assert(buf@ =~= qrcode_frame(*self, cmd_id, head, body@, secs));
        buf
    }

    /// Builds a scan-code login request (see `qrcode_frame`) with the clock's seconds `secs`.
    pub fn build_qrcode_request_at(&mut self, cmd_id: u16, head: u32, body: &[u8], secs: u64) -> (r: Result<LoginRequest, CommonError>)
        requires
            login_ok(*old(self), qrcode_frame(*old(self), cmd_id, head, body@, secs), None),
        ensures
            only_seq_changed(*old(self), *final(self), next_seq(old(self).sig.seq)),
            r matches Ok(req) && req@ == (next_seq(old(self).sig.seq), LoginCommand::WtLoginTransEmp,
                login_packet(*old(self), LoginCommand::WtLoginTransEmp, qrcode_frame(*old(self), cmd_id, head, body@, secs), CommandType::Type2, next_seq(old(self).sig.seq))),
    {
        let buf = self.qrcode_frame_bytes(cmd_id, head, body, secs);
        self.build_login_request(LoginCommand::WtLoginTransEmp, buf.as_slice(), None)
    }

    /// Whether a scan-code login request can be built around `body` whatever the clock reads
    /// (the time changes the frame's bytes, not its length): what a caller tests before
    /// `build_qrcode_request`.
    pub fn qrcode_request_fits(&self, cmd_id: u16, head: u32, body: &[u8]) -> (b: bool)
        ensures
            b == forall|secs: u64| login_ok(*self, #[trigger] qrcode_frame(*self, cmd_id, head, body@, secs), None),
    {
        if self.sig.seq == 0xffff_ffff {
            assert(!login_ok(*self, qrcode_frame(*self, cmd_id, head, body@, 0), None));
            return false;
        }
        let frame = self.qrcode_frame_bytes(cmd_id, head, body, 0);
        let b = self.login_fits(frame.as_slice(), None);
        proof {
            assert forall|secs: u64| login_ok(*self, #[trigger] qrcode_frame(*self, cmd_id, head, body@, secs), None) == b by {
                lemma_qrcode_login_ok(*self, cmd_id, head, body@, secs);
            }
        }
        b
    }

    /// Builds a scan-code login request with the clock's current seconds.
    pub fn build_qrcode_request(&mut self, cmd_id: u16, head: u32, body: &[u8]) -> (r: Result<LoginRequest, CommonError>)
        requires
            forall|secs: u64| login_ok(*old(self), #[trigger] qrcode_frame(*old(self), cmd_id, head, body@, secs), None),
        ensures
            only_seq_changed(*old(self), *final(self), next_seq(old(self).sig.seq)),
            exists|secs: u64| r matches Ok(req) && req@ == (next_seq(old(self).sig.seq), LoginCommand::WtLoginTransEmp,
                login_packet(*old(self), LoginCommand::WtLoginTransEmp, #[trigger] qrcode_frame(*old(self), cmd_id, head, body@, secs), CommandType::Type2, next_seq(old(self).sig.seq))),
    {
        let secs = current_unix_timestamp_as_secs();
        assert(login_ok(*self, qrcode_frame(*self, cmd_id, head, body@, secs), None));
        self.build_qrcode_request_at(cmd_id, head, body, secs)
    }

    /// Builds the packet of a business command (see `uni_packet`). The sequence number advances
    /// in any case; the packet carries `seq` when it is given and the advanced number otherwise.
    pub fn build_uni_request(&mut self, command: UniCommand, body: &[u8], seq: Option<u32>) -> (r: Result<UniRequest, CommonError>)
        requires
            old(self).sig.seq < 0xffff_ffff,
        ensures
            only_seq_changed(*old(self), *final(self), next_seq(old(self).sig.seq)),
            r matches Ok(req) && req@ == ({
                let s = match seq { Some(x) => x, None => next_seq(old(self).sig.seq) };
                (s, command, uni_packet(*old(self), command, body@, s))
            }),
    {
        let next = self.increase_seq();
        let seq = match seq {
            Some(x) => x,
            None => next,
        };
        let cmd = command.as_ref().as_bytes();
        let mut sso: Vec<u8> = Vec::new();
        write_u32(&mut sso, (cmd.len() as u32).wrapping_add(20));
        write_u32(&mut sso, (cmd.len() as u32).wrapping_add(4));
        write_bytes(&mut sso, cmd);
        write_u32(&mut sso, 8);
        write_bytes(&mut sso, &self.sig.session);
        write_u32(&mut sso, 4);
        write_u32(&mut sso, (body.len() as u32).wrapping_add(4));
        write_bytes(&mut sso, body);
        let sealed = match encrypt(sso.as_slice(), &self.sig.d2key) {
            Ok(e) => e,
            Err(_) => Vec::new(),
        };
        let uin = decimal_string(self.uin as u64);
        let uin_bytes = uin.as_str().as_bytes();
        let total = (sealed.len() as u32).wrapping_add(uin_bytes.len() as u32).wrapping_add(18);
        let mut payload: Vec<u8> = Vec::new();
        write_u32(&mut payload, total);
        write_u32(&mut payload, 0x08);
        write_u8(&mut payload, 1);
        write_u32(&mut payload, seq);
        write_u8(&mut payload, 0);
        write_u32(&mut payload, (uin_bytes.len() as u32).wrapping_add(4));
        write_bytes(&mut payload, uin_bytes);
        write_bytes(&mut payload, sealed.as_slice());
        assert(payload@ =~= uni_packet(*old(self), command, body@, seq));
        Ok(UniRequest::new(seq, command, payload))
    }

    #[verifier::rlimit(80)]
    fn register_struct(&self, logout: bool, report: Vec<u8>) -> (o: JceObject)
        ensures
            o@ == register_fields(*self, logout, report@),
    {
        let d = &self.device;
        let mut f: Vec<(u8, JceElement)> = Vec::new();
        push_int(&mut f, 0, self.uin as i64);
        push_int(&mut f, 1, if logout { 0 } else { 7 });
        push_int(&mut f, 2, 0);
        push_jce(&mut f, 3, JceElement::from_str(""));
        push_int(&mut f, 4, if logout { 21 } else { 11 });
        push_int(&mut f, 5, 0);
        push_int(&mut f, 6, 0);
        push_int(&mut f, 7, 0);
        push_int(&mut f, 8, 0);
        push_int(&mut f, 9, 0);
        push_int(&mut f, 10, if logout { 44 } else { 0 });
        push_int(&mut f, 11, d.version.sdk as i64);
        push_int(&mut f, 12, 1);
        push_jce(&mut f, 13, JceElement::from_str(""));
        push_int(&mut f, 14, 0);
        let mut guid: Vec<u8> = Vec::new();
        write_bytes(&mut guid, &d.guid);
        push_jce(&mut f, 16, JceElement::SimpleList(guid));
        push_int(&mut f, 17, 2052);
        push_int(&mut f, 18, 0);
        push_jce(&mut f, 19, JceElement::from_str(d.model));
        push_jce(&mut f, 20, JceElement::from_str(d.model));
        push_jce(&mut f, 21, JceElement::from_str(d.version.release));
        push_int(&mut f, 22, 1);
        push_int(&mut f, 23, 0);
        push_int(&mut f, 24, 0);
        push_int(&mut f, 26, 0);
        push_int(&mut f, 27, 0);
        push_jce(&mut f, 28, JceElement::from_str(""));
        push_int(&mut f, 29, 0);
        push_jce(&mut f, 30, JceElement::from_str(d.brand));
        push_jce(&mut f, 31, JceElement::from_str(d.brand));
        push_jce(&mut f, 32, JceElement::from_str(""));
        push_jce(&mut f, 33, JceElement::SimpleList(report));
        push_int(&mut f, 34, 0);
        push_int(&mut f, 36, 0);
        push_int(&mut f, 38, 1000);
        push_int(&mut f, 39, 98);
        let o = JceObject { fields: f };
        assert(o@ =~= register_fields(*self, logout, report@));
        o
    }

    /// Builds the register (or, with `logout`, unregister) request with the clock's seconds
    /// `secs` (see `register_body`), sealed with the session key.
    pub fn build_register_request_at(&mut self, logout: bool, secs: u64) -> (r: Result<LoginRequest, CommonError>)
        requires
            old(self).sig.seq < 0xffff_ffff,
        ensures
            only_seq_changed(*old(self), *final(self), next_seq(old(self).sig.seq)),
            r matches Ok(req) && req@ == (next_seq(old(self).sig.seq), LoginCommand::StatSvcRegister,
                login_packet(*old(self), LoginCommand::StatSvcRegister, register_body(*old(self), logout, secs), CommandType::Type1, next_seq(old(self).sig.seq))),
    {
        let report = register_report_bytes(secs);
        let object = self.register_struct(logout, report);
        let svc = match encode_nested(object) {
            Ok(v) => v,
            Err(_) => Vec::new(),
        };
        let ghost svc_view = svc@;
        let map = vec![(String::from_str("SvcReqRegister"), JceElement::SimpleList(svc))];
        proof {
            super::jce::lemma_map_view(map@);
            assert(super::jce::map_view(map@) =~= seq![("SvcReqRegister"@, JceValue::SimpleList(svc_view))]);
        }
        let body = match encode_wrapper(map, "PushService", "SvcReqRegister", None) {
            Ok(v) => v,
            Err(_) => Vec::new(),
        };
        assert(body@ == register_body(*self, logout, secs));
        self.build_login_request(LoginCommand::StatSvcRegister, body.as_slice(), Some(CommandType::Type1))
    }

    /// Builds the register (or unregister) request with the clock's current seconds.
    pub fn build_register_request(&mut self, logout: bool) -> (r: Result<LoginRequest, CommonError>)
        requires
            old(self).sig.seq < 0xffff_ffff,
        ensures
            only_seq_changed(*old(self), *final(self), next_seq(old(self).sig.seq)),
            exists|secs: u64| r matches Ok(req) && req@ == (next_seq(old(self).sig.seq), LoginCommand::StatSvcRegister,
                login_packet(*old(self), LoginCommand::StatSvcRegister, #[trigger] register_body(*old(self), logout, secs), CommandType::Type1, next_seq(old(self).sig.seq))),
    {
        let secs = current_unix_timestamp_as_secs();
        self.build_register_request_at(logout, secs)
    }
}


/// The keys of the web services as texts and bytes.
pub open spec fn pskey_view(p: Seq<(String, Vec<u8>)>) -> Seq<(Seq<char>, Seq<u8>)> {
    Seq::new(p.len(), |i: int| (p[i].0@, p[i].1@))
}

/// Where domain `k` stands among the keys, -1 if it does not.
pub open spec fn pskey_index(m: Seq<(Seq<char>, Seq<u8>)>, k: Seq<char>) -> int
    decreases m.len(),
{
    if m.len() == 0 {
        -1
    } else if m.last().0 == k {
        m.len() - 1
    } else {
        pskey_index(m.drop_last(), k)
    }
}

/// The keys with domain `k` set to `v`: in place if the domain is there, else at the end.
pub open spec fn pskey_insert(m: Seq<(Seq<char>, Seq<u8>)>, k: Seq<char>, v: Seq<u8>) -> Seq<(Seq<char>, Seq<u8>)> {
    let i = pskey_index(m, k);
    if i >= 0 {
        m.update(i, (k, v))
    } else {
        m.push((k, v))
    }
}

/// The key of domain `k`, if there is one.
pub open spec fn pskey_lookup(m: Seq<(Seq<char>, Seq<u8>)>, k: Seq<char>) -> Option<Seq<u8>> {
    let i = pskey_index(m, k);
    if i >= 0 {
        Some(m[i].1)
    } else {
        None
    }
}

proof fn lemma_pskey_index(m: Seq<(Seq<char>, Seq<u8>)>, k: Seq<char>)
    ensures
        pskey_index(m, k) == -1 ==> forall|j: int| 0 <= j < m.len() ==> m[j].0 != k,
        pskey_index(m, k) != -1 ==> {
            &&& 0 <= pskey_index(m, k) < m.len()
            &&& m[pskey_index(m, k)].0 == k
            &&& forall|j: int| pskey_index(m, k) < j < m.len() ==> m[j].0 != k
        },
    decreases m.len(),
{
    if m.len() > 0 && m.last().0 != k {
        lemma_pskey_index(m.drop_last(), k);
        assert forall|j: int| 0 <= j < m.len() - 1 implies m[j] == m.drop_last()[j] by {}
    }
}

proof fn lemma_pskey_index_is(m: Seq<(Seq<char>, Seq<u8>)>, k: Seq<char>, i: int)
    requires
        -1 <= i < m.len(),
        i >= 0 ==> m[i].0 == k,
        forall|j: int| i < j < m.len() ==> m[j].0 != k,
    ensures
        pskey_index(m, k) == i,
    decreases m.len(),
{
    if m.len() > 0 && i < m.len() - 1 {
        assert(m.last() == m[m.len() - 1]);
        lemma_pskey_index_is(m.drop_last(), k, i);
    }
}

/// Setting the key of a domain makes it the key found for that domain, and leaves the key found
/// for every other domain as it was.
pub proof fn lemma_pskey_insert_lookup(m: Seq<(Seq<char>, Seq<u8>)>, k: Seq<char>, v: Seq<u8>, other: Seq<char>)
    ensures
        pskey_lookup(pskey_insert(m, k, v), k) == Some(v),
        other != k ==> pskey_lookup(pskey_insert(m, k, v), other) == pskey_lookup(m, other),
{
    lemma_pskey_index(m, k);
    lemma_pskey_index(m, other);
    let i = pskey_index(m, k);
    let n = pskey_insert(m, k, v);
    if i >= 0 {
        lemma_pskey_index_is(n, k, i);
        if other != k {
            lemma_pskey_index_is(n, other, pskey_index(m, other));
        }
    } else {
        lemma_pskey_index_is(n, k, m.len() as int);
        if other != k {
            lemma_pskey_index_is(n, other, pskey_index(m, other));
        }
    }
}

/// The keys with each entry set in turn.
pub open spec fn pskey_insert_all(m: Seq<(Seq<char>, Seq<u8>)>, entries: Seq<(Seq<char>, Seq<u8>)>) -> Seq<(Seq<char>, Seq<u8>)>
    decreases entries.len(),
{
    if entries.len() == 0 {
        m
    } else {
        pskey_insert_all(pskey_insert(m, entries[0].0, entries[0].1), entries.drop_first())
    }
}

/// Up to `count` entries of domain and key, each a 16-bit length and bytes, read from `p` on;
/// with the error that stopped the reading, if one did.
pub open spec fn pskey_entries(v: Seq<u8>, p: int, count: nat) -> (Seq<(Seq<char>, Seq<u8>)>, Option<CommonError>)
    decreases count,
{
    if count == 0 {
        (Seq::empty(), None)
    } else if p < 0 || p + 2 > v.len() {
        (Seq::empty(), Some(CommonError::UnexpectedEof))
    } else {
        let dl = be16_at(v, p) as int;
        if p + 2 + dl > v.len() {
            (Seq::empty(), Some(CommonError::UnexpectedEof))
        } else if !valid_utf8(v.subrange(p + 2, p + 2 + dl)) {
            (Seq::empty(), Some(CommonError::InvalidUtf8))
        } else {
            let q = p + 2 + dl;
            if q + 2 > v.len() {
                (Seq::empty(), Some(CommonError::UnexpectedEof))
            } else {
                let kl = be16_at(v, q) as int;
                if q + 2 + kl > v.len() {
                    (Seq::empty(), Some(CommonError::UnexpectedEof))
                } else {
                    let rest = pskey_entries(v, q + 2 + kl, (count - 1) as nat);
                    (seq![(decode_utf8(v.subrange(p + 2, q)), v.subrange(q + 2, q + 2 + kl))] + rest.0, rest.1)
                }
            }
        }
    }
}

/// The entries of field 0x512: a 16-bit count, then the entries.
pub open spec fn pskey_field(v: Seq<u8>) -> (Seq<(Seq<char>, Seq<u8>)>, Option<CommonError>) {
    if v.len() < 2 {
        (Seq::empty(), Some(CommonError::UnexpectedEof))
    } else {
        pskey_entries(v, 2, be16_at(v, 0) as nat)
    }
}

/// The fields of a t119 reply: decrypted with `tgtgt`, read after two bytes.
pub open spec fn t119_fields(data: DataCenter, t119: Seq<u8>) -> Result<Map<u16, Seq<u8>>, CommonError> {
    match tea_decrypt(t119, data.sig.tgtgt@) {
        Err(e) => Err(CommonError::Tea(e)),
        Ok(d) => match tlv_fields(d.subrange(2, d.len() as int)) {
            Err(e) => Err(CommonError::Tlv(e)),
            Ok(m) => Ok(m),
        },
    }
}

/// How many of the tickets 0x10a, 0x120, 0x143 and 0x305 are there, in that order.
pub open spec fn tickets_found(m: Map<u16, Seq<u8>>) -> int {
    if !m.contains_key(0x10a) { 0 }
    else if !m.contains_key(0x120) { 1 }
    else if !m.contains_key(0x143) { 2 }
    else if !m.contains_key(0x305) { 3 }
    else { 4 }
}

/// The ticket looked for after `k` were found.
pub open spec fn ticket_tag(k: int) -> u16 {
    if k == 0 { 0x10a } else if k == 1 { 0x120 } else if k == 2 { 0x143 } else { 0x305 }
}

/// The t119 replies that `decode_t119` reads without fault: the decryption succeeds or fails
/// cleanly and leaves two bytes, the session key 0x305 has 16 bytes when the tickets before it
/// are there, and the profile 0x11a has 5 bytes when the keys before it were read.
pub open spec fn t119_safe(data: DataCenter, t119: Seq<u8>) -> bool {
    &&& tea_decrypt_safe(t119, data.sig.tgtgt@)
    &&& tea_decrypt(t119, data.sig.tgtgt@) matches Ok(d) ==> {
        &&& d.len() >= 2
        &&& tlv_fields(d.subrange(2, d.len() as int)) matches Ok(m) ==> (tickets_found(m) == 4 ==> {
            &&& m[0x305].len() >= 16
            &&& (!m.contains_key(0x512) || pskey_field(m[0x512]).1 is None) ==> (m.contains_key(0x11a) ==> m[0x11a].len() >= 5)
        })
    }
}

/// The account the profile 0x11a and the tickets describe.
pub open spec fn t119_user(d2key: Seq<u8>, d2: Seq<u8>, tgt: Seq<u8>, ddd: Seq<u8>, u: User) -> bool {
    &&& u.token@ == d2key + d2 + tgt
    &&& u.age == ddd[2]
    &&& u.gender == ddd[3]
    &&& u.nickname@ == decode_utf8(ddd.subrange(5, ddd.len() as int))
}

/// The session keys and web keys a t119 reply leaves, and the answer: the tickets found are
/// stored in order, the session key's digest becomes `tgtgt` and `secs` the time of the
/// exchange; the web keys read are stored; then the account comes back, or the first error.
pub open spec fn t119_applied(old: DataCenter, new: DataCenter, m: Map<u16, Seq<u8>>, secs: u64, r: Result<User, CommonError>) -> bool {
    let k = tickets_found(m);
    &&& new.uin == old.uin && new.apk == old.apk && new.device == old.device && new.ecdh == old.ecdh
    &&& new.sig.seq == old.sig.seq && new.sig.session == old.sig.session && new.sig.randkey == old.sig.randkey
    &&& new.sig.t104 == old.sig.t104 && new.sig.t174 == old.sig.t174 && new.sig.qrsig == old.sig.qrsig
    &&& new.sig.bigdata == old.sig.bigdata && new.sig.hb480 == old.sig.hb480 && new.sig.time_diff == old.sig.time_diff
    &&& new.sig.tgt@ == (if k >= 1 { m[0x10a] } else { old.sig.tgt@ })
    &&& new.sig.skey@ == (if k >= 2 { m[0x120] } else { old.sig.skey@ })
    &&& new.sig.d2@ == (if k >= 3 { m[0x143] } else { old.sig.d2@ })
    &&& new.sig.d2key@ == (if k >= 4 { m[0x305].subrange(0, 16) } else { old.sig.d2key@ })
    &&& new.sig.tgtgt@ == (if k >= 4 { md5_of(m[0x305].subrange(0, 16)) } else { old.sig.tgtgt@ })
    &&& new.sig.emp_time == (if k >= 4 { secs } else { old.sig.emp_time })
    &&& k < 4 ==> r == Err::<User, CommonError>(CommonError::TagNotExisted(ticket_tag(k))) && new.pskey == old.pskey
    &&& k == 4 ==> {
        let (entries, err) = if m.contains_key(0x512) { pskey_field(m[0x512]) } else { (Seq::empty(), None) };
        &&& pskey_view(new.pskey@) == pskey_insert_all(pskey_view(old.pskey@), entries)
        &&& err matches Some(e) ==> r == Err::<User, CommonError>(e)
        &&& err is None ==> if !m.contains_key(0x11a) {
            r == Err::<User, CommonError>(CommonError::TagNotExisted(0x11a))
        } else if !valid_utf8(m[0x11a].subrange(5, m[0x11a].len() as int)) {
            r == Err::<User, CommonError>(CommonError::InvalidUtf8)
        } else {
            r matches Ok(u) && t119_user(m[0x305].subrange(0, 16), m[0x143], m[0x10a], m[0x11a], u)
        }
    }
}

fn copy_from(s: &[u8], a: usize) -> (v: Vec<u8>)
    requires
        a <= s@.len(),
    ensures
        v@ == s@.subrange(a as int, s@.len() as int),
{
    let mut v: Vec<u8> = Vec::new();
    let mut i = a;
    while i < s.len()
        invariant
            a <= i <= s@.len(),
            v@ == s@.subrange(a as int, i as int),
        decreases s@.len() - i,
    {
        v.push(s[i]);
        i = i + 1;
        assert(v@ =~= s@.subrange(a as int, i as int));
    }
    v
}

fn copy_part(s: &[u8], a: usize, b: usize) -> (v: Vec<u8>)
    requires
        a <= b <= s@.len(),
    ensures
        v@ == s@.subrange(a as int, b as int),
{
    let mut v: Vec<u8> = Vec::new();
    let mut i = a;
    while i < b
        invariant
            a <= i <= b <= s@.len(),
            v@ == s@.subrange(a as int, i as int),
        decreases b - i,
    {
        v.push(s[i]);
        i = i + 1;
        assert(v@ =~= s@.subrange(a as int, i as int));
    }
    v
}

impl DataCenter {
    /// Sets the key of domain `k` (see `pskey_insert`).
    pub fn insert_pskey(&mut self, k: String, v: Vec<u8>)
        ensures
            pskey_view(final(self).pskey@) == pskey_insert(pskey_view(old(self).pskey@), k@, v@),
            final(self).uin == old(self).uin && final(self).apk == old(self).apk,
            final(self).device == old(self).device && final(self).ecdh == old(self).ecdh,
            final(self).sig == old(self).sig,
    {
        let ghost m = pskey_view(self.pskey@);
        let mut i = self.pskey.len();
        assert(m.subrange(0, i as int) =~= m);
        while i > 0
            invariant
                i <= self.pskey@.len(),
                *self == *old(self),
                m == pskey_view(self.pskey@),
                pskey_index(m, k@) == pskey_index(m.subrange(0, i as int), k@),
            decreases i,
        {
            let same = self.pskey[i - 1].0 == k;
            if same {
                proof {
                    let p = m.subrange(0, i as int);
                    assert(p.last().0 == k@);
                }
                let ghost old_pskey = self.pskey@;
                self.pskey.set(i - 1, (k, v));
                assert(pskey_view(self.pskey@) =~= m.update(i - 1, (k@, v@)));
                return;
            }
            proof {
                let p = m.subrange(0, i as int);
                assert(p.drop_last() =~= m.subrange(0, i - 1));
            }
            i = i - 1;
        }
        let ghost before = self.pskey@;
        self.pskey.push((k, v));
        assert(pskey_view(self.pskey@) =~= m.push((k@, v@)));
    }

    /// Reads the web keys of field 0x512 from `p` on and stores them (see `pskey_entries`).
    fn read_pskeys(&mut self, v: &[u8], p: usize, count: u16) -> (err: Option<CommonError>)
        ensures
            ({
                let (entries, e) = pskey_entries(v@, p as int, count as nat);
                &&& pskey_view(final(self).pskey@) == pskey_insert_all(pskey_view(old(self).pskey@), entries)
                &&& err == e
            }),
            final(self).uin == old(self).uin && final(self).apk == old(self).apk,
            final(self).device == old(self).device && final(self).ecdh == old(self).ecdh,
            final(self).sig == old(self).sig,
        decreases count,
    {
        if count == 0 {
            return None;
        }
        let n = v.len();
        if p > n || n - p < 2 {
            return Some(CommonError::UnexpectedEof);
        }
        let dl = (v[p] as usize) * 256 + v[p + 1] as usize;
        assert(dl == be16_at(v@, p as int) as int);
        if dl > n - p - 2 {
            return Some(CommonError::UnexpectedEof);
        }
        let q = p + 2 + dl;
        let domain_bytes = copy_part(v, p + 2, q);
        let domain = match string_from_utf8(domain_bytes) {
            Some(d) => d,
            None => return Some(CommonError::InvalidUtf8),
        };
        proof {
            encode_utf8_decode_utf8(domain@);
        }
        if n - q < 2 {
            return Some(CommonError::UnexpectedEof);
        }
        let kl = (v[q] as usize) * 256 + v[q + 1] as usize;
        assert(kl == be16_at(v@, q as int) as int);
        if kl > n - q - 2 {
            return Some(CommonError::UnexpectedEof);
        }
        let key = copy_part(v, q + 2, q + 2 + kl);
        let ghost before = pskey_view(self.pskey@);
        self.insert_pskey(domain, key);
        let e = self.read_pskeys(v, q + 2 + kl, count - 1);
        proof {
            let (entries, _) = pskey_entries(v@, p as int, count as nat);
            let rest = pskey_entries(v@, q + 2 + kl, (count - 1) as nat).0;
            assert(entries.drop_first() =~= rest);
        }
        e
    }

    /// Reads a t119 reply with the clock's seconds `secs` (see `t119_applied`).
    pub fn decode_t119_at(&mut self, t119: &[u8], secs: u64) -> (r: Result<User, CommonError>)
        requires
            t119_safe(*old(self), t119@),
        ensures
            match t119_fields(*old(self), t119@) {
                Err(e) => r == Err::<User, CommonError>(e) && *final(self) == *old(self),
                Ok(m) => t119_applied(*old(self), *final(self), m, secs, r),
            },
    {
        broadcast use vstd::std_specs::hash::group_hash_axioms;
        let decrypted = match decrypt(t119, &self.sig.tgtgt) {
            Ok(d) => d,
            Err(e) => return Err(CommonError::Tea(e)),
        };
        let rest = copy_from(decrypted.as_slice(), 2);
        let mut t = match read_tlv(rest.as_slice()) {
            Ok(m) => m,
            Err(e) => return Err(CommonError::Tlv(e)),
        };
        let ghost m = tlv_fields(rest@)->Ok_0;
        assert(t119_fields(*old(self), t119@) == Ok::<Map<u16, Seq<u8>>, CommonError>(m));
        self.sig.tgt = match t.remove(&0x10a) {
            Some(v) => v,
            None => return Err(CommonError::TagNotExisted(0x10a)),
        };
        self.sig.skey = match t.remove(&0x120) {
            Some(v) => v,
            None => return Err(CommonError::TagNotExisted(0x120)),
        };
        self.sig.d2 = match t.remove(&0x143) {
            Some(v) => v,
            None => return Err(CommonError::TagNotExisted(0x143)),
        };
        let v305 = match t.remove(&0x305) {
            Some(v) => v,
            None => return Err(CommonError::TagNotExisted(0x305)),
        };
        let d2key: [u8; 16] = [v305[0], v305[1], v305[2], v305[3], v305[4], v305[5], v305[6], v305[7],
            v305[8], v305[9], v305[10], v305[11], v305[12], v305[13], v305[14], v305[15]];
        assert(d2key@ =~= m[0x305].subrange(0, 16));
        self.sig.d2key = d2key;
        self.sig.tgtgt = md5_digest(&d2key);
        self.sig.emp_time = secs;
        assert(!t@.contains_key(0x10a) && !t@.contains_key(0x120) && !t@.contains_key(0x143) && !t@.contains_key(0x305));
        let err = match t.get(&0x512) {
            Some(value) => {
                if value.len() < 2 {
                    Some(CommonError::UnexpectedEof)
                } else {
                    let count: u16 = ((value[0] as u32) * 256 + value[1] as u32) as u16;
                    assert(count == be16_at(value@, 0));
                    self.read_pskeys(value.as_slice(), 2, count)
                }
            },
            None => {
                assert(pskey_insert_all(pskey_view(self.pskey@), Seq::empty()) == pskey_view(self.pskey@));
                None
            },
        };
        match err {
            Some(e) => return Err(e),
            None => {},
        }
        let mut token: Vec<u8> = Vec::new();
        write_bytes(&mut token, &self.sig.d2key);
        write_bytes(&mut token, self.sig.d2.as_slice());
        write_bytes(&mut token, self.sig.tgt.as_slice());
        let ddd = match t.remove(&0x11a) {
            Some(v) => v,
            None => return Err(CommonError::TagNotExisted(0x11a)),
        };
        let age = ddd[2];
        let gender = ddd[3];
        let nickname = match string_from_utf8(copy_from(ddd.as_slice(), 5)) {
            Some(n) => n,
            None => return Err(CommonError::InvalidUtf8),
        };
        proof {
            encode_utf8_decode_utf8(nickname@);
        }
        Ok(User { token, nickname, gender, age })
    }

    /// Reads a t119 reply with the clock's current seconds.
    pub fn decode_t119(&mut self, t119: &[u8]) -> (r: Result<User, CommonError>)
        requires
            t119_safe(*old(self), t119@),
        ensures
            match t119_fields(*old(self), t119@) {
                Err(e) => r == Err::<User, CommonError>(e) && *final(self) == *old(self),
                Ok(m) => exists|secs: u64| #[trigger] t119_applied(*old(self), *final(self), m, secs, r),
            },
    {
        let secs = current_unix_timestamp_as_secs();
        let r = self.decode_t119_at(t119, secs);
        proof {
            if t119_fields(*old(self), t119@) is Ok {
                let m = t119_fields(*old(self), t119@)->Ok_0;
                assert(t119_applied(*old(self), *self, m, secs, r));
            }
        }
        r
    }
}


/// Whether the web keys field 0x512 reads to its end without error (see `pskey_field`).
fn pskey_field_clean(v: &[u8]) -> (b: bool)
    ensures
        b == (pskey_field(v@).1 is None),
{
    if v.len() < 2 {
        return false;
    }
    let count: u16 = ((v[0] as u32) * 256 + v[1] as u32) as u16;
    assert(count == be16_at(v@, 0));
    pskey_entries_clean(v, 2, count)
}

fn pskey_entries_clean(v: &[u8], p: usize, count: u16) -> (b: bool)
    ensures
        b == (pskey_entries(v@, p as int, count as nat).1 is None),
    decreases count,
{
    if count == 0 {
        return true;
    }
    let n = v.len();
    if p > n || n - p < 2 {
        return false;
    }
    let dl = (v[p] as usize) * 256 + v[p + 1] as usize;
    assert(dl == be16_at(v@, p as int) as int);
    if dl > n - p - 2 {
        return false;
    }
    let q = p + 2 + dl;
    let domain_bytes = copy_part(v, p + 2, q);
    if string_from_utf8(domain_bytes).is_none() {
        return false;
    }
    if n - q < 2 {
        return false;
    }
    let kl = (v[q] as usize) * 256 + v[q + 1] as usize;
    assert(kl == be16_at(v@, q as int) as int);
    if kl > n - q - 2 {
        return false;
    }
    pskey_entries_clean(v, q + 2 + kl, count - 1)
}

impl DataCenter {
    /// Whether a login packet can be built around `body` (see `login_ok`): what a caller tests
    /// before `build_login_request`.
    pub fn login_fits(&self, body: &[u8], typee: Option<CommandType>) -> (b: bool)
        ensures
            b == login_ok(*self, body@, typee),
    {
        if self.sig.seq == 0xffff_ffff {
            return false;
        }
        let t = match typee {
            Some(t) => t,
            None => CommandType::Type2,
        };
        if t != CommandType::Type2 {
            return true;
        }
        let mut sealed: Vec<u8> = Vec::new();
        write_u8(&mut sealed, 0x02);
        write_u8(&mut sealed, 0x01);
        write_bytes(&mut sealed, &self.sig.randkey);
        write_u16(&mut sealed, 0x131);
        write_u16(&mut sealed, 0x01);
        sealed.write_tlv(self.ecdh.public_key.as_slice());
        match encrypt(body, &self.ecdh.share_key) {
            Ok(e) => write_bytes(&mut sealed, e.as_slice()),
            Err(_) => {},
        }
        assert(sealed@ =~= sealed_body(*self, body@));
        (sealed.len() as u16) <= 0xffff - 29
    }

    /// Draws a new session id, random key and key of the tickets, as a login does before it
    /// builds its body; nothing else changes.
    pub fn reseed_session(&mut self)
        ensures
            final(self).sig == (SIG { session: final(self).sig.session, randkey: final(self).sig.randkey, tgtgt: final(self).sig.tgtgt, ..old(self).sig }),
            final(self).uin == old(self).uin && final(self).apk == old(self).apk,
            final(self).device == old(self).device && final(self).ecdh == old(self).ecdh,
            final(self).pskey == old(self).pskey,
    {
        let a = random_block();
        self.sig.session = [a[0], a[1], a[2], a[3]];
        self.sig.randkey = random_block();
        self.sig.tgtgt = random_block();
    }

    /// Whether `decode_t119` reads `t119` without fault (see `t119_safe`): what a caller tests
    /// before it hands a server's reply over.
    pub fn t119_decodable(&self, t119: &[u8]) -> (b: bool)
        ensures
            b == t119_safe(*self, t119@),
    {
        broadcast use vstd::std_specs::hash::group_hash_axioms;
        if !super::tea::decryptable(t119, &self.sig.tgtgt) {
            return false;
        }
        let decrypted = match decrypt(t119, &self.sig.tgtgt) {
            Ok(d) => d,
            Err(_) => return true,
        };
        if decrypted.len() < 2 {
            return false;
        }
        let rest = copy_from(decrypted.as_slice(), 2);
        let t = match read_tlv(rest.as_slice()) {
            Ok(m) => m,
            Err(_) => return true,
        };
        if !t.contains_key(&0x10a) || !t.contains_key(&0x120) || !t.contains_key(&0x143) {
            return true;
        }
        let v305 = match t.get(&0x305) {
            Some(v) => v,
            None => return true,
        };
        if v305.len() < 16 {
            return false;
        }
        match t.get(&0x512) {
            Some(v) => {
                if !pskey_field_clean(v.as_slice()) {
                    return true;
                }
            },
            None => {},
        }
        match t.get(&0x11a) {
            Some(v) => v.len() >= 5,
            None => true,
        }
    }
}

} // verus!
