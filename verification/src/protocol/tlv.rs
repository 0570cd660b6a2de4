use std::collections::HashMap;
use vstd::prelude::*;
use vstd::string::*;
use vstd::utf8::{encode_utf8, is_char_boundary};

use super::base_client::DataCenter;
use super::device::{is_watch_apk, phone_sign, Platform};
use super::helper::{current_unix_timestamp_as_millis, md5_digest, md5_of, random_block};
use super::protobuf::{encode, lemma_pb_fields_tags_ok, lemma_pb_fields_view, pb_message_bytes, PbValue, ProtobufElement, ProtobufObject};
use super::tea::{encrypt, tea_encrypt};
use super::text::{decimal, decimal_string, lower_hex, push_lower_hex};
use super::writer::{be_u16, be_u32, be_u64, bytes_result, copy_range, write_bytes, write_i32, write_u16, write_u32, write_u64, write_u8};

verus! {

/// Errors of building and reading tag-length-value fields.
#[derive(Debug, Clone, Copy, PartialEq, Eq, Structural)]
pub enum TlvError {
    InvalidData,
    PasswordNotProvided,
    CodeNotProvided,
    TicketNotProvided,
    TagNotExisted(i32),
    /// The input ended inside a field.
    UnexpectedEof,
}

/// A field as `write_tlv` writes it: a 16-bit big-endian length (modulo 2^16), then the bytes.
pub open spec fn tlv16(b: Seq<u8>) -> Seq<u8> {
    be_u16(b.len() as u16) + b
}

/// The UTF-8 bytes of a text.
pub open spec fn text_bytes(s: Seq<char>) -> Seq<u8> {
    encode_utf8(s)
}

/// The first `max` bytes of a text, or all of them if there are fewer.
pub open spec fn cut(s: Seq<char>, max: int) -> Seq<u8> {
    let b = text_bytes(s);
    if b.len() <= max {
        b
    } else {
        b.subrange(0, max)
    }
}

/// Whether a text can be cut after `max` bytes: it is no longer, or a character starts there.
pub open spec fn cut_ok(s: Seq<char>, max: int) -> bool {
    text_bytes(s).len() <= max || is_char_boundary(text_bytes(s), max)
}

/// A whole field: its tag and the length of its value, both 16-bit big-endian, then the value.
pub open spec fn tlv_packed(tag: u16, body: Seq<u8>) -> Seq<u8> {
    be_u16(tag) + be_u16(body.len() as u16) + body
}

/// `zeros(n)` is `n` zero bytes.
pub open spec fn zeros(n: nat) -> Seq<u8> {
    Seq::new(n, |i: int| 0u8)
}

/// The web domains whose keys a login asks for, in order.
pub open spec fn tlv_domain(i: int) -> Seq<char> {
    if i == 0 { "aq.qq.com"@ }
    else if i == 1 { "buluo.qq.com"@ }
    else if i == 2 { "connect.qq.com"@ }
    else if i == 3 { "docs.qq.com"@ }
    else if i == 4 { "game.qq.com"@ }
    else if i == 5 { "gamecenter.qq.com"@ }
    else if i == 6 { "haoma.qq.com"@ }
    else if i == 7 { "id.qq.com"@ }
    else if i == 8 { "kg.qq.com"@ }
    else if i == 9 { "mail.qq.com"@ }
    else if i == 10 { "mma.qq.com"@ }
    else if i == 11 { "office.qq.com"@ }
    else if i == 12 { "openmobile.qq.com"@ }
    else if i == 13 { "qqweb.qq.com"@ }
    else if i == 14 { "qun.qq.com"@ }
    else if i == 15 { "qzone.qq.com"@ }
    else if i == 16 { "ti.qq.com"@ }
    else if i == 17 { "v.qq.com"@ }
    else if i == 18 { "vip.qq.com"@ }
    else { "y.qq.com"@ }
}

/// The first `n` domains, each after a byte 1 and as a field.
pub open spec fn domain_fields(n: nat) -> Seq<u8>
    decreases n,
{
    if n == 0 {
        Seq::empty()
    } else {
        domain_fields((n - 1) as nat) + seq![1u8] + tlv16(text_bytes(tlv_domain(n - 1)))
    }
}

/// The device facts of field 0x52d, as a protobuf message.
pub open spec fn device_report(data: DataCenter) -> Seq<(u32, PbValue)> {
    let d = data.device;
    seq![
        (1u32, PbValue::String(d.bootloader@)),
        (2u32, PbValue::String(d.proc_version@)),
        (3u32, PbValue::String(d.version.codename@)),
        (4u32, PbValue::Integer(d.version.incremental as isize)),
        (5u32, PbValue::String(d.fingerprint@)),
        (6u32, PbValue::String(d.boot_id@)),
        (7u32, PbValue::String(d.android_id@)),
        (8u32, PbValue::String(d.baseband@)),
        (9u32, PbValue::Integer(d.version.incremental as isize)),
    ]
}

/// The body of field 0x106, before encryption: the password's digest and the session's keys.
pub open spec fn t106_plain(data: DataCenter, pw: Seq<u8>, random: Seq<u8>, millis: u32) -> Seq<u8> {
    be_u16(4) + random.subrange(0, 4) + be_u32(7) + be_u32(data.apk.appid) + be_u32(0)
        + be_u64(data.uin as u64) + be_u32(millis) + zeros(4) + seq![1u8] + pw + data.sig.tgtgt@
        + be_u32(0) + seq![1u8] + data.device.guid@ + be_u32(data.apk.subid) + be_u32(1)
        + tlv16(text_bytes(decimal(data.uin as nat))) + be_u16(0)
}

/// The key of field 0x106: the digest of the password's digest, four zero bytes and the
/// account number.
pub open spec fn t106_key(data: DataCenter, pw: Seq<u8>) -> Seq<u8> {
    md5_of(pw + zeros(4) + be_u32(data.uin))
}

/// The fields that need no arguments, no randomness and no time (those field 0x144 packs).
pub open spec fn plain_body(data: DataCenter, tag: u16) -> Seq<u8> {
    let d = data.device;
    if tag == 0x109 {
        md5_of(text_bytes(d.imei@))
    } else if tag == 0x52d {
        pb_message_bytes(device_report(data))
    } else if tag == 0x124 {
        tlv16(cut(d.os_type@, 16)) + tlv16(cut(d.version.release@, 16)) + be_u16(2) + tlv16(cut(d.sim@, 16)) + be_u16(0) + tlv16(cut(d.apn@, 16))
    } else if tag == 0x128 {
        be_u16(0) + seq![0u8, 1u8, 0u8] + be_u32(16777216) + tlv16(cut(d.model@, 32)) + tlv16(d.guid@) + tlv16(cut(d.brand@, 16))
    } else {
        text_bytes(d.model@)
    }
}

/// The value of field `tag` built from `data` and the arguments, with `random` (16 bytes) as the
/// random bytes and `millis` as the clock's milliseconds (modulo 2^32).
pub open spec fn tlv_body(data: DataCenter, tag: u16, emp: Option<u32>, md5_password: Option<[u8; 16]>, code: Option<Vec<u8>>, ticket: Option<&str>, random: Seq<u8>, millis: u32) -> Result<Seq<u8>, TlvError> {
    let d = data.device;
    let apk = data.apk;
    let sig = data.sig;
    if tag == 0x01 {
        Ok(be_u16(1) + random.subrange(0, 4) + be_u32(data.uin) + be_u32(millis) + zeros(4) + be_u16(0))
    } else if tag == 0x08 {
        Ok(be_u16(0) + be_u32(2052) + be_u16(0))
    } else if tag == 0x16 {
        Ok(be_u32(7) + be_u32(16) + be_u32(537064446) + d.guid@ + tlv16(text_bytes("com.tencent.qqlite"@)) + tlv16(text_bytes("2.0.5"@)) + tlv16(phone_sign()))
    } else if tag == 0x18 {
        Ok(be_u16(1) + be_u32(1536) + be_u32(apk.appid) + be_u32(0) + be_u32(data.uin) + be_u16(0) + be_u16(0))
    } else if tag == 0x1b {
        Ok(be_u32(0) + be_u32(0) + be_u32(3) + be_u32(4) + be_u32(72) + be_u32(2) + be_u32(2) + be_u16(0))
    } else if tag == 0x1d {
        Ok(seq![1u8] + be_u32(184024956) + be_u32(0) + seq![0u8] + be_u32(0))
    } else if tag == 0x1f {
        Ok(seq![0u8] + tlv16(text_bytes("android"@)) + tlv16(text_bytes("7.1.2"@)) + be_u16(2) + tlv16(text_bytes("China Mobile GSM"@)) + tlv16(Seq::empty()) + tlv16(text_bytes("wifi"@)))
    } else if tag == 0x33 || tag == 0x145 {
        Ok(d.guid@)
    } else if tag == 0x35 {
        Ok(be_u32(8))
    } else if tag == 0x100 {
        Ok(be_u16(1) + be_u32(7) + be_u32(apk.appid) + be_u32(if emp is Some { 2 } else { apk.subid }) + be_u32(0) + be_u32(apk.sigmap))
    } else if tag == 0x104 {
        Ok(sig.t104@)
    } else if tag == 0x106 {
        match md5_password {
            None => Err(TlvError::PasswordNotProvided),
            Some(pw) => {
                let key = t106_key(data, pw@);
                Ok(tea_encrypt(t106_plain(data, pw@, random, millis) + key, key))
            },
        }
    } else if tag == 0x107 {
        Ok(be_u16(0) + seq![0u8] + be_u16(0) + seq![1u8])
    } else if tag == 0x109 || tag == 0x52d || tag == 0x124 || tag == 0x128 || tag == 0x16e {
        Ok(plain_body(data, tag))
    } else if tag == 0x10a {
        Ok(sig.tgt@)
    } else if tag == 0x116 {
        Ok(seq![0u8] + be_u32(apk.bitmap) + be_u32(0x10400) + seq![1u8] + be_u32(1600000226))
    } else if tag == 0x141 {
        Ok(be_u16(1) + tlv16(text_bytes(d.sim@)) + be_u16(2) + tlv16(text_bytes(d.apn@)))
    } else if tag == 0x142 {
        Ok(be_u16(0) + tlv16(cut(apk.id@, 32)))
    } else if tag == 0x143 {
        Ok(sig.d2@)
    } else if tag == 0x144 {
        let body = be_u16(5) + tlv_packed(0x109, plain_body(data, 0x109)) + tlv_packed(0x52d, plain_body(data, 0x52d))
            + tlv_packed(0x124, plain_body(data, 0x124)) + tlv_packed(0x128, plain_body(data, 0x128))
            + tlv_packed(0x16e, plain_body(data, 0x16e));
        Ok(tea_encrypt(body, sig.tgtgt@))
    } else if tag == 0x147 {
        Ok(be_u32(apk.appid) + tlv16(cut(apk.ver@, 5)) + tlv16(apk.sign@))
    } else if tag == 0x154 {
        Ok(be_u32((sig.seq + 1) as u32))
    } else if tag == 0x174 {
        Ok(sig.t174@)
    } else if tag == 0x177 {
        Ok(seq![1u8] + be_u32(apk.buildtime) + tlv16(text_bytes(apk.sdkver@)))
    } else if tag == 0x17a {
        Ok(be_u32(9))
    } else if tag == 0x17c {
        match code {
            None => Err(TlvError::CodeNotProvided),
            Some(c) => Ok(tlv16(c@)),
        }
    } else if tag == 0x187 {
        Ok(md5_of(text_bytes(d.mac_address@)))
    } else if tag == 0x188 {
        Ok(md5_of(text_bytes(d.android_id@)))
    } else if tag == 0x191 {
        Ok(seq![0x82u8])
    } else if tag == 0x193 {
        match ticket {
            None => Err(TlvError::TicketNotProvided),
            Some(t) => Ok(text_bytes(t@)),
        }
    } else if tag == 0x194 {
        Ok(d.imsi@)
    } else if tag == 0x197 || tag == 0x198 {
        Ok(tlv16(seq![0u8]))
    } else if tag == 0x202 {
        Ok(tlv16(cut(d.wifi_bssid@, 16)) + tlv16(cut(d.wifi_ssid@, 32)))
    } else if tag == 0x400 {
        Ok(be_u16(1) + be_u64(data.uin as u64) + d.guid@ + random + be_u32(1) + be_u32(16) + be_u32(millis))
    } else if tag == 0x401 {
        Ok(random)
    } else if tag == 0x511 {
        Ok(be_u16(20) + domain_fields(20))
    } else if tag == 0x516 {
        Ok(be_u32(0))
    } else if tag == 0x521 {
        Ok(zeros(6))
    } else if tag == 0x525 {
        Ok(be_u16(1) + be_u16(0x536) + tlv16(seq![1u8, 0u8]))
    } else {
        Err(TlvError::InvalidData)
    }
}

/// The fields that name the account carry its number, big-endian: field 0x18 (22 bytes) at
/// bytes 14..18 after the application id at 6..10, and field 0x01 (20 bytes) at bytes 6..10,
/// whatever else the request holds.
pub proof fn lemma_account_fields(data: DataCenter, emp: Option<u32>, md5_password: Option<[u8; 16]>, code: Option<Vec<u8>>, ticket: Option<&str>, random: Seq<u8>, millis: u32)
    requires
        random.len() >= 4,
    ensures
        tlv_body(data, 0x18, emp, md5_password, code, ticket, random, millis) matches Ok(v)
            && v.len() == 22
            && v.subrange(14, 18) == be_u32(data.uin)
            && v.subrange(6, 10) == be_u32(data.apk.appid)
            && v.subrange(0, 2) == be_u16(1),
        tlv_body(data, 0x01, emp, md5_password, code, ticket, random, millis) matches Ok(v)
            && v.len() == 20
            && v.subrange(6, 10) == be_u32(data.uin)
            && v.subrange(10, 14) == be_u32(millis),
{
    let v = tlv_body(data, 0x18, emp, md5_password, code, ticket, random, millis)->Ok_0;
    assert(v.subrange(14, 18) =~= be_u32(data.uin));
    assert(v.subrange(6, 10) =~= be_u32(data.apk.appid));
    assert(v.subrange(0, 2) =~= be_u16(1));
    let u = tlv_body(data, 0x01, emp, md5_password, code, ticket, random, millis)->Ok_0;
    assert(u.subrange(6, 10) =~= be_u32(data.uin));
    assert(u.subrange(10, 14) =~= be_u32(millis));
}

/// The field `tag` as `pack_with_args` returns it.
pub open spec fn tlv_field(data: DataCenter, tag: u16, emp: Option<u32>, md5_password: Option<[u8; 16]>, code: Option<Vec<u8>>, ticket: Option<&str>, random: Seq<u8>, millis: u32) -> Result<Seq<u8>, TlvError> {
    match tlv_body(data, tag, emp, md5_password, code, ticket, random, millis) {
        Ok(body) => Ok(tlv_packed(tag, body)),
        Err(e) => Err(e),
    }
}

/// The texts of the device that field 0x124 cuts.
pub open spec fn t124_ok(data: DataCenter) -> bool {
    let d = data.device;
    cut_ok(d.os_type@, 16) && cut_ok(d.version.release@, 16) && cut_ok(d.sim@, 16) && cut_ok(d.apn@, 16)
}

/// The texts of the device that field 0x128 cuts.
pub open spec fn t128_ok(data: DataCenter) -> bool {
    cut_ok(data.device.model@, 32) && cut_ok(data.device.brand@, 16)
}

/// The data with which field `tag` can be built: the texts it cuts to a length are cut where a
/// character starts, and field 0x154 needs a sequence number below the largest.
pub open spec fn tlv_ok(data: DataCenter, tag: u16) -> bool {
    &&& (tag == 0x124 || tag == 0x144) ==> t124_ok(data)
    &&& (tag == 0x128 || tag == 0x144) ==> t128_ok(data)
    &&& tag == 0x142 ==> cut_ok(data.apk.id@, 32)
    &&& tag == 0x147 ==> cut_ok(data.apk.ver@, 5)
    &&& tag == 0x154 ==> data.sig.seq < 0xffff_ffff
    &&& tag == 0x202 ==> cut_ok(data.device.wifi_bssid@, 16) && cut_ok(data.device.wifi_ssid@, 32)
}

/// Writes a field as a 16-bit big-endian length and the bytes.
pub trait WriteTlvExt {
    fn write_tlv(&mut self, buf: &[u8]);
}

impl WriteTlvExt for Vec<u8> {
    fn write_tlv(&mut self, buf: &[u8])
        ensures
            final(self)@ == old(self)@ + tlv16(buf@),
    {
        write_u16(self, buf.len() as u16);
        write_bytes(self, buf);
        assert(final(self)@ =~= old(self)@ + tlv16(buf@));
    }
}

/// Writes the first `max` bytes of a text (all of them if there are fewer) as a field.
fn write_cut(writer: &mut Vec<u8>, s: &str, max: usize)
    ensures
        final(writer)@ == old(writer)@ + tlv16(cut(s@, max as int)),
{
    let b = s.as_bytes();
    let n = if b.len() > max { max } else { b.len() };
    write_u16(writer, n as u16);
    let mut i: usize = 0;
    while i < n
        invariant
            n <= b@.len(),
            i <= n,
            writer@ == old(writer)@ + be_u16(n as u16) + b@.subrange(0, i as int),
        decreases n - i,
    {
        writer.push(b[i]);
        i = i + 1;
        assert(writer@ =~= old(writer)@ + be_u16(n as u16) + b@.subrange(0, i as int));
    }
    assert(b@.subrange(0, n as int) =~= cut(s@, max as int));
    assert(final(writer)@ =~= old(writer)@ + tlv16(cut(s@, max as int)));
}

/// Whether a text can be cut after `max` bytes (see `cut_ok`).
fn cuttable(s: &str, max: usize) -> (b: bool)
    ensures
        b == cut_ok(s@, max as int),
{
    let bytes = s.as_bytes();
    if bytes.len() <= max {
        return true;
    }
    proof {
        vstd::utf8::encode_utf8_valid_utf8(s@);
        vstd::utf8::is_char_boundary_iff_not_is_continuation_byte(bytes@, max as int);
    }
    !(0x80 <= bytes[max] && bytes[max] <= 0xbf)
}

impl DataCenter {
    /// Whether field `tag` can be built with this data (see `tlv_ok`): what a caller tests before
    /// `pack`.
    pub fn field_fits(&self, tag: u16) -> (b: bool)
        ensures
            b == tlv_ok(*self, tag),
    {
        let d = &self.device;
        if (tag == 0x124 || tag == 0x144) && !(cuttable(d.os_type, 16) && cuttable(d.version.release, 16)
            && cuttable(d.sim, 16) && cuttable(d.apn, 16)) {
            return false;
        }
        if (tag == 0x128 || tag == 0x144) && !(cuttable(d.model, 32) && cuttable(d.brand, 16)) {
            return false;
        }
        if tag == 0x142 && !cuttable(self.apk.id, 32) {
            return false;
        }
        if tag == 0x147 && !cuttable(self.apk.ver, 5) {
            return false;
        }
        if tag == 0x154 && self.sig.seq == 0xffff_ffff {
            return false;
        }
        if tag == 0x202 && !(cuttable(d.wifi_bssid.as_str(), 16) && cuttable(d.wifi_ssid.as_str(), 32)) {
            return false;
        }
        true
    }
}

/// The domain at `i` (see `tlv_domain`).
fn domain(i: usize) -> (s: &'static str)
    requires
        i < 20,
    ensures
        s@ == tlv_domain(i as int),
{
    match i {
        0 => "aq.qq.com",
        1 => "buluo.qq.com",
        2 => "connect.qq.com",
        3 => "docs.qq.com",
        4 => "game.qq.com",
        5 => "gamecenter.qq.com",
        6 => "haoma.qq.com",
        7 => "id.qq.com",
        8 => "kg.qq.com",
        9 => "mail.qq.com",
        10 => "mma.qq.com",
        11 => "office.qq.com",
        12 => "openmobile.qq.com",
        13 => "qqweb.qq.com",
        14 => "qun.qq.com",
        15 => "qzone.qq.com",
        16 => "ti.qq.com",
        17 => "v.qq.com",
        18 => "vip.qq.com",
        _ => "y.qq.com",
    }
}

/// Field 0x511: the domains whose keys a login asks for.
fn domains_body() -> (w: Vec<u8>)
    ensures
        w@ == be_u16(20) + domain_fields(20),
{
    let mut w: Vec<u8> = Vec::new();
    write_u16(&mut w, 20);
    let mut i: usize = 0;
    while i < 20
        invariant
            i <= 20,
            w@ == be_u16(20) + domain_fields(i as nat),
        decreases 20 - i,
    {
        write_u8(&mut w, 1);
        w.write_tlv(domain(i).as_bytes());
        i = i + 1;
        assert(w@ =~= be_u16(20) + domain_fields(i as nat));
    }
    w
}

/// Field 0x52d: the device facts as a protobuf message.
fn device_report_body(data: &DataCenter) -> (w: Vec<u8>)
    ensures
        w@ == pb_message_bytes(device_report(*data)),
{
    let d = &data.device;
    let fields = vec![
        (1u32, ProtobufElement::String(String::from_str(d.bootloader))),
        (2u32, ProtobufElement::String(d.proc_version.clone())),
        (3u32, ProtobufElement::String(String::from_str(d.version.codename))),
        (4u32, ProtobufElement::Integer(d.version.incremental as isize)),
        (5u32, ProtobufElement::String(d.fingerprint.clone())),
        (6u32, ProtobufElement::String(d.boot_id.clone())),
        (7u32, ProtobufElement::String(d.android_id.clone())),
        (8u32, ProtobufElement::String(String::from_str(d.baseband))),
        (9u32, ProtobufElement::Integer(d.version.incremental as isize)),
    ];
    let object = ProtobufObject { fields };
    proof {
        lemma_pb_fields_view(object.fields@);
        assert(object@ =~= device_report(*data));
        lemma_pb_fields_tags_ok(object@);
    }
    match encode(&object) {
        Ok(w) => w,
        Err(_) => Vec::new(),
    }
}

/// Field 0x106: the password's digest and the session's keys, encrypted.
fn t106_body(data: &DataCenter, pw: &[u8; 16], random: &[u8; 16], millis: u32) -> (w: Vec<u8>)
    ensures
        w@ == tea_encrypt(t106_plain(*data, pw@, random@, millis) + t106_key(*data, pw@), t106_key(*data, pw@)),
{
    let mut body: Vec<u8> = Vec::new();
    write_u16(&mut body, 4);
    write_bytes(&mut body, &[random[0], random[1], random[2], random[3]]);
    write_u32(&mut body, 7);
    write_u32(&mut body, data.apk.appid);
    write_u32(&mut body, 0);
    write_u64(&mut body, data.uin as u64);
    write_u32(&mut body, millis);
    write_bytes(&mut body, &[0u8, 0, 0, 0]);
    write_u8(&mut body, 1);
    write_bytes(&mut body, pw);
    write_bytes(&mut body, &data.sig.tgtgt);
    write_u32(&mut body, 0);
    write_u8(&mut body, 1);
    write_bytes(&mut body, &data.device.guid);
    write_u32(&mut body, data.apk.subid);
    write_u32(&mut body, 1);
    let uin = decimal_string(data.uin as u64);
    body.write_tlv(uin.as_str().as_bytes());
    write_u16(&mut body, 0);
    assert(body@ =~= t106_plain(*data, pw@, random@, millis));

    let mut key_source: Vec<u8> = Vec::new();
    write_bytes(&mut key_source, pw);
    write_bytes(&mut key_source, &[0u8, 0, 0, 0]);
    write_u32(&mut key_source, data.uin);
    assert(key_source@ =~= pw@ + zeros(4) + be_u32(data.uin));
    let key = md5_digest(key_source.as_slice());
    write_bytes(&mut body, &key);
    match encrypt(body.as_slice(), &key) {
        Ok(w) => w,
        Err(_) => Vec::new(),
    }
}

/// Field 0x124: the system, its release, the SIM and the access point, each cut to 16 bytes.
fn t124_body(data: &DataCenter) -> (w: Vec<u8>)
    ensures
        w@ == plain_body(*data, 0x124),
{
    let d = &data.device;
    let mut w: Vec<u8> = Vec::new();
    write_cut(&mut w, d.os_type, 16);
    write_cut(&mut w, d.version.release, 16);
    write_u16(&mut w, 2);
    write_cut(&mut w, d.sim, 16);
    write_u16(&mut w, 0);
    write_cut(&mut w, d.apn, 16);
    w
}

/// Field 0x128: the model, the guid and the brand.
fn t128_body(data: &DataCenter) -> (w: Vec<u8>)
    ensures
        w@ == plain_body(*data, 0x128),
{
    let d = &data.device;
    let mut w: Vec<u8> = Vec::new();
    write_u16(&mut w, 0);
    write_u8(&mut w, 0);
    write_u8(&mut w, 1);
    write_u8(&mut w, 0);
    write_u32(&mut w, 16777216);
    write_cut(&mut w, d.model, 32);
    w.write_tlv(&d.guid);
    write_cut(&mut w, d.brand, 16);
    assert(w@ =~= plain_body(*data, 0x128));
    w
}

/// The fields that need no arguments, randomness or time (see `plain_body`).
fn plain_field(data: &DataCenter, tag: u16) -> (w: Vec<u8>)
    requires
        tag == 0x109 || tag == 0x52d || tag == 0x124 || tag == 0x128 || tag == 0x16e,
    ensures
        w@ == tlv_packed(tag, plain_body(*data, tag)),
{
    let body = if tag == 0x109 {
        let digest = md5_digest(data.device.imei.as_str().as_bytes());
        let mut w: Vec<u8> = Vec::new();
        write_bytes(&mut w, &digest);
        w
    } else if tag == 0x52d {
        device_report_body(data)
    } else if tag == 0x124 {
        t124_body(data)
    } else if tag == 0x128 {
        t128_body(data)
    } else {
        let mut w: Vec<u8> = Vec::new();
        write_bytes(&mut w, data.device.model.as_bytes());
        w
    };
    let mut out: Vec<u8> = Vec::new();
    write_u16(&mut out, tag);
    write_u16(&mut out, body.len() as u16);
    write_bytes(&mut out, body.as_slice());
    out
}

/// The value of field `tag` (see `tlv_body`), with `random` as its random bytes and `millis` as
/// the clock's milliseconds.
pub fn pack_body_with(
    data: &DataCenter,
    tag: u16,
    emp: Option<u32>,
    md5_password: Option<[u8; 16]>,
    code: Option<Vec<u8>>,
    ticket: Option<&str>,
    random: &[u8; 16],
    millis: u32,
) -> (r: Result<Vec<u8>, TlvError>)
    requires
        tlv_ok(*data, tag),
    ensures
        bytes_result(r) == tlv_body(*data, tag, emp, md5_password, code, ticket, random@, millis),
{
    let d = &data.device;
    let apk = &data.apk;
    let sig = &data.sig;
    let mut w: Vec<u8> = Vec::new();
    if tag == 0x01 {
        write_u16(&mut w, 1);
        write_bytes(&mut w, &[random[0], random[1], random[2], random[3]]);
        write_u32(&mut w, data.uin);
        write_u32(&mut w, millis);
        write_bytes(&mut w, &[0u8, 0, 0, 0]);
        write_u16(&mut w, 0);
    } else if tag == 0x08 {
        write_u16(&mut w, 0);
        write_u32(&mut w, 2052);
        write_u16(&mut w, 0);
    } else if tag == 0x16 {
        let watch = Platform::watch();
        write_u32(&mut w, 7);
        write_u32(&mut w, watch.appid);
        write_u32(&mut w, watch.subid);
        write_bytes(&mut w, &d.guid);
        w.write_tlv(watch.id.as_bytes());
        w.write_tlv(watch.ver.as_bytes());
        w.write_tlv(&watch.sign);
    } else if tag == 0x18 {
        write_u16(&mut w, 1);
        write_u32(&mut w, 1536);
        write_u32(&mut w, apk.appid);
        write_u32(&mut w, 0);
        write_u32(&mut w, data.uin);
        write_u16(&mut w, 0);
        write_u16(&mut w, 0);
    } else if tag == 0x1b {
        write_u32(&mut w, 0);
        write_u32(&mut w, 0);
        write_u32(&mut w, 3);
        write_u32(&mut w, 4);
        write_u32(&mut w, 72);
        write_u32(&mut w, 2);
        write_u32(&mut w, 2);
        write_u16(&mut w, 0);
    } else if tag == 0x1d {
        write_u8(&mut w, 1);
        write_u32(&mut w, 184024956);
        write_u32(&mut w, 0);
        write_u8(&mut w, 0);
        write_u32(&mut w, 0);
    } else if tag == 0x1f {
        write_u8(&mut w, 0);
        w.write_tlv("android".as_bytes());
        w.write_tlv("7.1.2".as_bytes());
        write_u16(&mut w, 2);
        w.write_tlv("China Mobile GSM".as_bytes());
        w.write_tlv(&[]);
        w.write_tlv("wifi".as_bytes());
    } else if tag == 0x33 || tag == 0x145 {
        write_bytes(&mut w, &d.guid);
    } else if tag == 0x35 {
        write_u32(&mut w, 8);
    } else if tag == 0x100 {
        write_u16(&mut w, 1);
        write_u32(&mut w, 7);
        write_u32(&mut w, apk.appid);
        write_u32(&mut w, if emp.is_some() { 2 } else { apk.subid });
        write_u32(&mut w, 0);
        write_u32(&mut w, apk.sigmap);
    } else if tag == 0x104 {
        write_bytes(&mut w, sig.t104.as_slice());
    } else if tag == 0x106 {
        match md5_password {
            None => return Err(TlvError::PasswordNotProvided),
            Some(pw) => {
                w = t106_body(data, &pw, random, millis);
            },
        }
    } else if tag == 0x107 {
        write_u16(&mut w, 0);
        write_u8(&mut w, 0);
        write_u16(&mut w, 0);
        write_u8(&mut w, 1);
    } else if tag == 0x109 || tag == 0x52d || tag == 0x124 || tag == 0x128 || tag == 0x16e {
        let field = plain_field(data, tag);
        let mut i: usize = 4;
        while i < field.len()
            invariant
                4 <= i <= field@.len(),
                field@ == tlv_packed(tag, plain_body(*data, tag)),
                w@ == field@.subrange(4, i as int),
            decreases field@.len() - i,
        {
            w.push(field[i]);
            i = i + 1;
            assert(w@ =~= field@.subrange(4, i as int));
        }
        assert(field@.subrange(4, field@.len() as int) =~= plain_body(*data, tag));
    } else if tag == 0x10a {
        write_bytes(&mut w, sig.tgt.as_slice());
    } else if tag == 0x116 {
        write_u8(&mut w, 0);
        write_u32(&mut w, apk.bitmap);
        write_u32(&mut w, 0x10400);
        write_u8(&mut w, 1);
        write_u32(&mut w, 1600000226);
    } else if tag == 0x141 {
        write_u16(&mut w, 1);
        w.write_tlv(d.sim.as_bytes());
        write_u16(&mut w, 2);
        w.write_tlv(d.apn.as_bytes());
    } else if tag == 0x142 {
        write_u16(&mut w, 0);
        write_cut(&mut w, apk.id, 32);
    } else if tag == 0x143 {
        write_bytes(&mut w, sig.d2.as_slice());
    } else if tag == 0x144 {
        let a = plain_field(data, 0x109);
        let b = plain_field(data, 0x52d);
        let c = plain_field(data, 0x124);
        let e = plain_field(data, 0x128);
        let f = plain_field(data, 0x16e);
        let mut body: Vec<u8> = Vec::new();
        write_u16(&mut body, 5);
        write_bytes(&mut body, a.as_slice());
        write_bytes(&mut body, b.as_slice());
        write_bytes(&mut body, c.as_slice());
        write_bytes(&mut body, e.as_slice());
        write_bytes(&mut body, f.as_slice());
        match encrypt(body.as_slice(), &sig.tgtgt) {
            Ok(v) => {
                w = v;
            },
            Err(_) => {},
        }
    } else if tag == 0x147 {
        write_u32(&mut w, apk.appid);
        write_cut(&mut w, apk.ver, 5);
        w.write_tlv(&apk.sign);
    } else if tag == 0x154 {
        write_u32(&mut w, sig.seq + 1);
    } else if tag == 0x174 {
        write_bytes(&mut w, sig.t174.as_slice());
    } else if tag == 0x177 {
        write_u8(&mut w, 1);
        write_u32(&mut w, apk.buildtime);
        w.write_tlv(apk.sdkver.as_bytes());
    } else if tag == 0x17a {
        write_u32(&mut w, 9);
    } else if tag == 0x17c {
        match code {
            None => return Err(TlvError::CodeNotProvided),
            Some(c) => {
                w.write_tlv(c.as_slice());
            },
        }
    } else if tag == 0x187 {
        let digest = md5_digest(d.mac_address.as_str().as_bytes());
        write_bytes(&mut w, &digest);
    } else if tag == 0x188 {
        let digest = md5_digest(d.android_id.as_str().as_bytes());
        write_bytes(&mut w, &digest);
    } else if tag == 0x191 {
        write_u8(&mut w, 0x82);
    } else if tag == 0x193 {
        match ticket {
            None => return Err(TlvError::TicketNotProvided),
            Some(t) => {
                write_bytes(&mut w, t.as_bytes());
            },
        }
    } else if tag == 0x194 {
        write_bytes(&mut w, &d.imsi);
    } else if tag == 0x197 || tag == 0x198 {
        w.write_tlv(&[0u8]);
    } else if tag == 0x202 {
        write_cut(&mut w, d.wifi_bssid.as_str(), 16);
        write_cut(&mut w, d.wifi_ssid.as_str(), 32);
    } else if tag == 0x400 {
        write_u16(&mut w, 1);
        write_u64(&mut w, data.uin as u64);
        write_bytes(&mut w, &d.guid);
        write_bytes(&mut w, random);
        write_i32(&mut w, 1);
        write_i32(&mut w, 16);
        write_u32(&mut w, millis);
    } else if tag == 0x401 {
        write_bytes(&mut w, random);
    } else if tag == 0x511 {
        w = domains_body();
    } else if tag == 0x516 {
        write_u32(&mut w, 0);
    } else if tag == 0x521 {
        write_bytes(&mut w, &[0u8, 0, 0, 0, 0, 0]);
    } else if tag == 0x525 {
        write_u16(&mut w, 1);
        write_u16(&mut w, 0x536);
        w.write_tlv(&[1u8, 0]);
    } else {
        return Err(TlvError::InvalidData);
    }
    assert(w@ =~= tlv_body(*data, tag, emp, md5_password, code, ticket, random@, millis).unwrap());
    Ok(w)
}

/// The field `tag` (see `tlv_field`), with `random` as its random bytes and `millis` as the
/// clock's milliseconds: the value after its tag and its length.
pub fn pack_with_entropy(
    data: &DataCenter,
    tag: u16,
    emp: Option<u32>,
    md5_password: Option<[u8; 16]>,
    code: Option<Vec<u8>>,
    ticket: Option<&str>,
    random: &[u8; 16],
    millis: u32,
) -> (r: Result<Vec<u8>, TlvError>)
    requires
        tlv_ok(*data, tag),
    ensures
        bytes_result(r) == tlv_field(*data, tag, emp, md5_password, code, ticket, random@, millis),
{
    let ghost c = code;
    let body = match pack_body_with(data, tag, emp, md5_password, code, ticket, random, millis) {
        Ok(b) => b,
        Err(e) => return Err(e),
    };
    let mut out: Vec<u8> = Vec::new();
    write_u16(&mut out, tag);
    write_u16(&mut out, body.len() as u16);
    write_bytes(&mut out, body.as_slice());
    Ok(out)
}

/// The field `tag` with fresh random bytes and the clock's milliseconds (see `tlv_field`).
pub fn pack_with_args(
    data: &DataCenter,
    tag: u16,
    emp: Option<u32>,
    md5_password: Option<[u8; 16]>,
    code: Option<Vec<u8>>,
    ticket: Option<&str>,
) -> (r: Result<Vec<u8>, TlvError>)
    requires
        tlv_ok(*data, tag),
    ensures
        exists|random: Seq<u8>, millis: u32| random.len() == 16 && bytes_result(r) == tlv_field(*data, tag, emp, md5_password, code, ticket, random, millis),
{
    let random = random_block();
    let millis = current_unix_timestamp_as_millis() as u32;
    pack_with_entropy(data, tag, emp, md5_password, code, ticket, &random, millis)
}

/// The field `tag` without arguments (see `tlv_field`).
pub fn pack(data: &DataCenter, tag: u16) -> (r: Result<Vec<u8>, TlvError>)
    requires
        tlv_ok(*data, tag),
    ensures
        exists|random: Seq<u8>, millis: u32| random.len() == 16 && bytes_result(r) == tlv_field(*data, tag, None, None, None, None, random, millis),
{
    pack_with_args(data, tag, None, None, None, None)
}


/// The tags whose field needs no argument, randomness or time.
pub open spec fn is_fixed_tag(tag: u16) -> bool {
    tag == 0x08 || tag == 0x16 || tag == 0x18 || tag == 0x1b || tag == 0x1d || tag == 0x1f
        || tag == 0x33 || tag == 0x35 || tag == 0x100 || tag == 0x104 || tag == 0x107 || tag == 0x109
        || tag == 0x10a || tag == 0x116 || tag == 0x124 || tag == 0x128 || tag == 0x141 || tag == 0x142
        || tag == 0x143 || tag == 0x144 || tag == 0x145 || tag == 0x147 || tag == 0x154 || tag == 0x16e
        || tag == 0x174 || tag == 0x177 || tag == 0x17a || tag == 0x187 || tag == 0x188 || tag == 0x191
        || tag == 0x194 || tag == 0x197 || tag == 0x198 || tag == 0x202 || tag == 0x511 || tag == 0x516
        || tag == 0x521 || tag == 0x525 || tag == 0x52d
}

/// A field that needs no argument, randomness or time, whole.
pub open spec fn fixed_field(data: DataCenter, tag: u16) -> Seq<u8> {
    tlv_packed(tag, tlv_body(data, tag, None, None, None, None, zeros(16), 0)->Ok_0)
}

/// A field that needs no argument, randomness or time is the same whatever the random bytes
/// and the time.
pub proof fn lemma_fixed_field(data: DataCenter, tag: u16, random: Seq<u8>, millis: u32)
    requires
        is_fixed_tag(tag),
    ensures
        tlv_field(data, tag, None, None, None, None, random, millis) == Ok::<Seq<u8>, TlvError>(fixed_field(data, tag)),
{
}

/// Appends a field that needs no argument, randomness or time (see `fixed_field`).
pub fn append_fixed(w: &mut Vec<u8>, data: &DataCenter, tag: u16)
    requires
        is_fixed_tag(tag),
        tlv_ok(*data, tag),
    ensures
        final(w)@ == old(w)@ + fixed_field(*data, tag),
{
    match pack(data, tag) {
        Ok(f) => {
            proof {
                let (random, millis) = choose|random: Seq<u8>, millis: u32| random.len() == 16 && bytes_result(Ok::<Vec<u8>, TlvError>(f)) == tlv_field(*data, tag, None, None, None, None, random, millis);
                lemma_fixed_field(*data, tag, random, millis);
            }
            write_bytes(w, f.as_slice());
        },
        Err(_) => {
            proof {
                let (random, millis) = choose|random: Seq<u8>, millis: u32| random.len() == 16 && tlv_field(*data, tag, None, None, None, None, random, millis) is Err;
                lemma_fixed_field(*data, tag, random, millis);
            }
        },
    }
}

/// The 16-bit big-endian number at `s[p..p + 2]`.
pub open spec fn be16_at(s: Seq<u8>, p: int) -> u16 {
    ((s[p] as int) * 256 + s[p + 1] as int) as u16
}

/// The fields from `p` on, added to `acc`: tag, length and value each time, until fewer than two
/// bytes are left; a later field replaces an earlier one of the same tag. A field cut short is
/// an error.
pub open spec fn tlv_fields_from(s: Seq<u8>, p: int, acc: Map<u16, Seq<u8>>) -> Result<Map<u16, Seq<u8>>, TlvError>
    decreases s.len() - p,
{
    if p < 0 || p + 2 > s.len() {
        Ok(acc)
    } else if p + 4 > s.len() {
        Err(TlvError::UnexpectedEof)
    } else {
        let tag = be16_at(s, p);
        let len = be16_at(s, p + 2) as int;
        if p + 4 + len > s.len() {
            Err(TlvError::UnexpectedEof)
        } else {
            tlv_fields_from(s, p + 4 + len, acc.insert(tag, s.subrange(p + 4, p + 4 + len)))
        }
    }
}

/// The fields of `s` by tag (see `tlv_fields_from`).
pub open spec fn tlv_fields(s: Seq<u8>) -> Result<Map<u16, Seq<u8>>, TlvError> {
    tlv_fields_from(s, 0, Map::empty())
}

/// A map of byte vectors holds the byte strings of `s`.
pub open spec fn holds_fields(m: Map<u16, Vec<u8>>, s: Map<u16, Seq<u8>>) -> bool {
    &&& m.dom() == s.dom()
    &&& forall|k: u16| #[trigger] m.contains_key(k) ==> m[k]@ == s[k]
}

/// The read fields as a result of byte strings.
pub open spec fn fields_result(r: Result<HashMap<u16, Vec<u8>>, TlvError>, s: Result<Map<u16, Seq<u8>>, TlvError>) -> bool {
    match r {
        Ok(m) => s is Ok && holds_fields(m@, s->Ok_0),
        Err(e) => s == Err::<Map<u16, Seq<u8>>, TlvError>(e),
    }
}

/// Reads the fields of `s` (see `tlv_fields`).
pub fn read_tlv(s: &[u8]) -> (r: Result<HashMap<u16, Vec<u8>>, TlvError>)
    ensures
        fields_result(r, tlv_fields(s@)),
{
    broadcast use vstd::std_specs::hash::group_hash_axioms;
    let mut result: HashMap<u16, Vec<u8>> = HashMap::new();
    let ghost mut acc: Map<u16, Seq<u8>> = Map::empty();
    let mut p: usize = 0;
    let n: usize = s.len();
    while n - p >= 2
        invariant
            n == s@.len(),
            p <= n,
            holds_fields(result@, acc),
            tlv_fields_from(s@, p as int, acc) == tlv_fields(s@),
        decreases n - p,
    {
        if n - p < 4 {
            return Err(TlvError::UnexpectedEof);
        }
        let tag: u16 = ((s[p] as u32) * 256 + s[p + 1] as u32) as u16;
        let len: usize = (s[p + 2] as usize) * 256 + s[p + 3] as usize;
        assert(tag == be16_at(s@, p as int));
        assert(len == be16_at(s@, p + 2) as int);
        if len > n - p - 4 {
            return Err(TlvError::UnexpectedEof);
        }
        let value = copy_range(s, p + 4, p + 4 + len);
        result.insert(tag, value);
        proof {
            acc = acc.insert(tag, s@.subrange(p + 4, p + 4 + len));
        }
        p = p + 4 + len;
    }
    Ok(result)
}

/// Reads fields of tag, length and value until the input ends.
pub trait ReadTlvExt {
    fn read_tlv(&self) -> Result<HashMap<u16, Vec<u8>>, TlvError>;
}

impl ReadTlvExt for [u8] {
    fn read_tlv(&self) -> (r: Result<HashMap<u16, Vec<u8>>, TlvError>)
        ensures
            fields_result(r, tlv_fields(self@)),
    {
        read_tlv(self)
    }
}


/// Fields written one after another, each as `tlv_packed` writes it.
pub open spec fn packed_fields(fs: Seq<(u16, Seq<u8>)>) -> Seq<u8>
    decreases fs.len(),
{
    if fs.len() == 0 {
        Seq::empty()
    } else {
        tlv_packed(fs[0].0, fs[0].1) + packed_fields(fs.drop_first())
    }
}

/// `acc` with the fields `fs` put in one after another, a later tag replacing an earlier one.
pub open spec fn put_fields(acc: Map<u16, Seq<u8>>, fs: Seq<(u16, Seq<u8>)>) -> Map<u16, Seq<u8>>
    decreases fs.len(),
{
    if fs.len() == 0 {
        acc
    } else {
        put_fields(acc.insert(fs[0].0, fs[0].1), fs.drop_first())
    }
}

proof fn lemma_be16_at_be_u16(s: Seq<u8>, p: int, t: u16)
    requires
        0 <= p,
        p + 2 <= s.len(),
        s[p] == be_u16(t)[0],
        s[p + 1] == be_u16(t)[1],
    ensures
        be16_at(s, p) == t,
{
    let hi = (t >> 8u16) as u8;
    let lo = t as u8;
    assert(((hi as u16) * 256 + (lo as u16)) as u16 == t) by (bit_vector)
        requires
            hi == (t >> 8u16) as u8,
            lo == t as u8,
    ;
}

proof fn lemma_read_packed(x: Seq<u8>, fs: Seq<(u16, Seq<u8>)>, acc: Map<u16, Seq<u8>>)
    requires
        forall|i: int| 0 <= i < fs.len() ==> (#[trigger] fs[i]).1.len() < 0x10000,
    ensures
        tlv_fields_from(x + packed_fields(fs), x.len() as int, acc) == Ok::<Map<u16, Seq<u8>>, TlvError>(put_fields(acc, fs)),
    decreases fs.len(),
{
    let s = x + packed_fields(fs);
    let p = x.len() as int;
    if fs.len() == 0 {
        assert(s =~= x);
    } else {
        let (tag, v) = fs[0];
        let f = tlv_packed(tag, v);
        let rest = fs.drop_first();
        assert(s =~= (x + f) + packed_fields(rest));
        assert(s[p] == be_u16(tag)[0] && s[p + 1] == be_u16(tag)[1]);
        lemma_be16_at_be_u16(s, p, tag);
        assert(s[p + 2] == be_u16(v.len() as u16)[0] && s[p + 3] == be_u16(v.len() as u16)[1]);
        lemma_be16_at_be_u16(s, p + 2, v.len() as u16);
        assert(s.subrange(p + 4, p + 4 + v.len()) =~= v);
        assert forall|i: int| 0 <= i < rest.len() implies (#[trigger] rest[i]).1.len() < 0x10000 by {
            assert(rest[i] == fs[i + 1]);
        }
        lemma_read_packed(x + f, rest, acc.insert(tag, v));
    }
}

/// Fields written one after another as `pack` writes them read back, by tag, as the fields
/// written: a later field of a tag replacing an earlier one.
pub proof fn lemma_read_written_fields(fs: Seq<(u16, Seq<u8>)>)
    requires
        forall|i: int| 0 <= i < fs.len() ==> (#[trigger] fs[i]).1.len() < 0x10000,
    ensures
        tlv_fields(packed_fields(fs)) == Ok::<Map<u16, Seq<u8>>, TlvError>(put_fields(Map::empty(), fs)),
{
    lemma_read_packed(Seq::empty(), fs, Map::empty());
    assert(Seq::<u8>::empty() + packed_fields(fs) =~= packed_fields(fs));
}


/// The text of an error.
pub open spec fn tlv_error_text(e: TlvError) -> Seq<char> {
    match e {
        TlvError::PasswordNotProvided => "password not provided."@,
        TlvError::CodeNotProvided => "code not provided."@,
        TlvError::TicketNotProvided => "ticket not provided."@,
        TlvError::InvalidData => "invalidate data."@,
        TlvError::TagNotExisted(tag) => "tag 0x:"@ + lower_hex(tag as u32 as nat) + " not existed"@,
        TlvError::UnexpectedEof => "unexpected end of data"@,
    }
}

impl TlvError {
    /// The text of the error (see `tlv_error_text`); a tag is written in hexadecimal, a
    /// negative one as its 32-bit two's complement.
    pub fn describe(&self) -> (s: String)
        ensures
            s@ == tlv_error_text(*self),
    {
        match self {
            TlvError::PasswordNotProvided => String::from_str("password not provided."),
            TlvError::CodeNotProvided => String::from_str("code not provided."),
            TlvError::TicketNotProvided => String::from_str("ticket not provided."),
            TlvError::InvalidData => String::from_str("invalidate data."),
            TlvError::TagNotExisted(tag) => {
                let mut s = String::from_str("tag 0x:");
                push_lower_hex(&mut s, (*tag as u32) as u64);
                s.append(" not existed");
                s
            },
            TlvError::UnexpectedEof => String::from_str("unexpected end of data"),
        }
    }
}

} // verus!
