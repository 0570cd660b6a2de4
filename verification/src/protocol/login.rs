use vstd::prelude::*;
use vstd::string::*;

use std::collections::HashMap;
use vstd::utf8::{decode_utf8, encode_utf8_decode_utf8, valid_utf8};

use super::base_client::{login_ok, login_packet, login_type, next_seq, only_seq_changed, t119_applied, t119_fields, t119_safe, CommandType, DataCenter, InternalErrorKind, User, SIG};
use super::jce::string_from_utf8;
use super::tea::{decrypt, decryptable, tea_decrypt, tea_decrypt_safe};
use super::tlv::{be16_at, holds_fields, read_tlv, tlv_fields};
use super::helper::current_unix_timestamp_as_secs;
use super::text::{decimal, push_decimal};
use super::error::CommonError;
use super::helper::random_block;
use super::network::{be32_at, LoginCommand, LoginRequest};
use super::tlv::{append_fixed, fixed_field, pack_with_args, tlv16, tlv_field, tlv_ok, zeros, TlvError, WriteTlvExt};
use super::writer::{be_u16, be_u32, be_u64, bytes_result, copy_range, write_bytes, write_u16, write_u32, write_u64, write_u8};

verus! {

/// The data with which the fields of the login bodies can be built (see `tlv_ok`).
pub open spec fn login_fields_ok(data: DataCenter) -> bool {
    &&& tlv_ok(data, 0x142)
    &&& tlv_ok(data, 0x144)
    &&& tlv_ok(data, 0x147)
    &&& tlv_ok(data, 0x154)
    &&& tlv_ok(data, 0x202)
}

/// A field whose value comes from the server: its tag, then the value as a field.
pub open spec fn given_field(tag: u16, value: Seq<u8>) -> Seq<u8> {
    be_u16(tag) + tlv16(value)
}

/// The body that exchanges the session's tickets for new ones (a token login and a refresh).
pub open spec fn exchange_body(data: DataCenter) -> Seq<u8> {
    be_u16(11) + be_u16(16) + fixed_field(data, 0x100) + fixed_field(data, 0x10a) + fixed_field(data, 0x116)
        + fixed_field(data, 0x144) + fixed_field(data, 0x143) + fixed_field(data, 0x142) + fixed_field(data, 0x154)
        + fixed_field(data, 0x18) + fixed_field(data, 0x141) + fixed_field(data, 0x08) + fixed_field(data, 0x147)
        + fixed_field(data, 0x177) + fixed_field(data, 0x187) + fixed_field(data, 0x188) + fixed_field(data, 0x202)
        + fixed_field(data, 0x511)
}

/// The fields that close the password and scan-code login bodies, from 0x154 on.
pub open spec fn login_tail(data: DataCenter) -> Seq<u8> {
    fixed_field(data, 0x154) + fixed_field(data, 0x141) + fixed_field(data, 0x08) + fixed_field(data, 0x511)
        + fixed_field(data, 0x187) + fixed_field(data, 0x188) + fixed_field(data, 0x194) + fixed_field(data, 0x191)
        + fixed_field(data, 0x202) + fixed_field(data, 0x177) + fixed_field(data, 0x516) + fixed_field(data, 0x521)
}

/// The body of a password login, with the random bytes and times of fields 0x01 and 0x106.
pub open spec fn password_body(data: DataCenter, pw: [u8; 16], r1: Seq<u8>, m1: u32, r2: Seq<u8>, m2: u32) -> Seq<u8> {
    be_u16(9) + be_u16(23) + fixed_field(data, 0x18)
        + tlv_field(data, 0x01, None, None, None, None, r1, m1)->Ok_0
        + tlv_field(data, 0x106, None, Some(pw), None, None, r2, m2)->Ok_0
        + fixed_field(data, 0x116) + fixed_field(data, 0x100) + fixed_field(data, 0x107) + fixed_field(data, 0x142)
        + fixed_field(data, 0x144) + fixed_field(data, 0x145) + fixed_field(data, 0x147) + login_tail(data)
        + fixed_field(data, 0x525)
}

/// The body of a scan-code login, with the fields the server gave after the scan and the
/// random bytes and time of field 0x01.
pub open spec fn qrcode_login_body(data: DataCenter, t106: Seq<u8>, t16a: Seq<u8>, t318: Seq<u8>, r: Seq<u8>, m: u32) -> Seq<u8> {
    be_u16(9) + be_u16(24) + fixed_field(data, 0x18)
        + tlv_field(data, 0x01, None, None, None, None, r, m)->Ok_0
        + given_field(0x106, t106)
        + fixed_field(data, 0x116) + fixed_field(data, 0x100) + fixed_field(data, 0x107) + fixed_field(data, 0x142)
        + fixed_field(data, 0x144) + fixed_field(data, 0x145) + fixed_field(data, 0x147) + given_field(0x16a, t16a)
        + login_tail(data) + given_field(0x318, t318)
}

/// The body that unlocks a device, with the random bytes of field 0x401.
pub open spec fn unlock_body(data: DataCenter, r: Seq<u8>, m: u32) -> Seq<u8> {
    be_u16(20) + be_u16(4) + fixed_field(data, 0x08) + fixed_field(data, 0x104) + fixed_field(data, 0x116)
        + tlv_field(data, 0x401, None, None, None, None, r, m)->Ok_0
}

/// The body that asks for a login code image.
pub open spec fn fetch_qrcode_body(data: DataCenter) -> Seq<u8> {
    be_u16(0) + be_u32(16) + be_u64(0) + seq![8u8] + tlv16(Seq::empty()) + be_u16(6) + fixed_field(data, 0x16)
        + fixed_field(data, 0x1b) + fixed_field(data, 0x1d) + fixed_field(data, 0x1f) + fixed_field(data, 0x33)
        + fixed_field(data, 0x35)
}

/// The body that asks whether a login code was scanned.
pub open spec fn verify_qrcode_body(qrsig: Seq<u8>) -> Seq<u8> {
    be_u16(5) + seq![1u8] + be_u32(8) + be_u32(16) + tlv16(qrsig) + be_u64(0) + seq![8u8] + tlv16(Seq::empty()) + be_u16(0)
}

impl DataCenter {
    /// Whether the login bodies can be built with this data (see `login_fields_ok`): what a
    /// caller tests before building one.
    pub fn login_fields_fit(&self) -> (b: bool)
        ensures
            b == login_fields_ok(*self),
    {
        self.field_fits(0x142) && self.field_fits(0x144) && self.field_fits(0x147) && self.field_fits(0x154)
            && self.field_fits(0x202)
    }
}

fn append_login_tail(w: &mut Vec<u8>, data: &DataCenter)
    requires
        login_fields_ok(*data),
    ensures
        final(w)@ == old(w)@ + login_tail(*data),
{
    append_fixed(w, data, 0x154);
    append_fixed(w, data, 0x141);
    append_fixed(w, data, 0x08);
    append_fixed(w, data, 0x511);
    append_fixed(w, data, 0x187);
    append_fixed(w, data, 0x188);
    append_fixed(w, data, 0x194);
    append_fixed(w, data, 0x191);
    append_fixed(w, data, 0x202);
    append_fixed(w, data, 0x177);
    append_fixed(w, data, 0x516);
    append_fixed(w, data, 0x521);
    assert(final(w)@ =~= old(w)@ + login_tail(*data));
}

/// Builds the body that exchanges the session's tickets (see `exchange_body`).
pub fn build_exchange_body(data: &DataCenter) -> (w: Vec<u8>)
    requires
        login_fields_ok(*data),
    ensures
        w@ == exchange_body(*data),
{
    let mut w: Vec<u8> = Vec::new();
    write_u16(&mut w, 11);
    write_u16(&mut w, 16);
    append_fixed(&mut w, data, 0x100);
    append_fixed(&mut w, data, 0x10a);
    append_fixed(&mut w, data, 0x116);
    append_fixed(&mut w, data, 0x144);
    append_fixed(&mut w, data, 0x143);
    append_fixed(&mut w, data, 0x142);
    append_fixed(&mut w, data, 0x154);
    append_fixed(&mut w, data, 0x18);
    append_fixed(&mut w, data, 0x141);
    append_fixed(&mut w, data, 0x08);
    append_fixed(&mut w, data, 0x147);
    append_fixed(&mut w, data, 0x177);
    append_fixed(&mut w, data, 0x187);
    append_fixed(&mut w, data, 0x188);
    append_fixed(&mut w, data, 0x202);
    append_fixed(&mut w, data, 0x511);
    assert(w@ =~= exchange_body(*data));
    w
}

/// Appends a field that needs randomness or an argument, built by `pack_with_args`.
fn append_packed(w: &mut Vec<u8>, data: &DataCenter, tag: u16, pw: Option<[u8; 16]>) -> (ghost_r: Ghost<(Seq<u8>, u32)>)
    requires
        tag == 0x01 || tag == 0x401 || (tag == 0x106 && pw is Some),
        tlv_ok(*data, tag),
    ensures
        ghost_r@.0.len() == 16,
        tlv_field(*data, tag, None, pw, None, None, ghost_r@.0, ghost_r@.1) is Ok,
        final(w)@ == old(w)@ + tlv_field(*data, tag, None, pw, None, None, ghost_r@.0, ghost_r@.1)->Ok_0,
{
    let r = pack_with_args(data, tag, None, pw, None, None);
    let ghost chosen = choose|random: Seq<u8>, millis: u32| random.len() == 16 && bytes_result(r) == tlv_field(*data, tag, None, pw, None, None, random, millis);
    match r {
        Ok(f) => {
            write_bytes(w, f.as_slice());
        },
        Err(_) => {},
    }
    Ghost(chosen)
}

impl DataCenter {
    /// A token login: the length test rejects every token (a token is refused unless its
    /// length is both 144 and 152), so the answer is always `BadToken`.
    pub fn token_login_request(&mut self, token: &[u8]) -> (r: Result<LoginRequest, CommonError>)
        ensures
            r == Err::<LoginRequest, CommonError>(CommonError::BadToken),
            *final(self) == *old(self),
    {
        if token.len() != 144 || token.len() != 152 {
            return Err(CommonError::BadToken);
        }
        Err(CommonError::BadToken)
    }

    /// Builds the body of a password login with the data as it stands (see `password_body`).
    pub fn password_login_body(&self, md5_password: [u8; 16]) -> (r: (Vec<u8>, Ghost<(Seq<u8>, u32, Seq<u8>, u32)>))
        requires
            login_fields_ok(*self),
        ensures
            r.1@.0.len() == 16 && r.1@.2.len() == 16,
            r.0@ == password_body(*self, md5_password, r.1@.0, r.1@.1, r.1@.2, r.1@.3),
    {
        let mut w: Vec<u8> = Vec::new();
        write_u16(&mut w, 9);
        write_u16(&mut w, 23);
        append_fixed(&mut w, self, 0x18);
        let g1 = append_packed(&mut w, self, 0x01, None);
        let g2 = append_packed(&mut w, self, 0x106, Some(md5_password));
        append_fixed(&mut w, self, 0x116);
        append_fixed(&mut w, self, 0x100);
        append_fixed(&mut w, self, 0x107);
        append_fixed(&mut w, self, 0x142);
        append_fixed(&mut w, self, 0x144);
        append_fixed(&mut w, self, 0x145);
        append_fixed(&mut w, self, 0x147);
        append_login_tail(&mut w, self);
        append_fixed(&mut w, self, 0x525);
        let ghost g = (g1@.0, g1@.1, g2@.0, g2@.1);
        assert(w@ =~= password_body(*self, md5_password, g.0, g.1, g.2, g.3));
        (w, Ghost(g))
    }

    /// Builds the body of a scan-code login with the fields the server gave (see
    /// `qrcode_login_body`).
    #[verifier::spinoff_prover]
    #[verifier::rlimit(60)]
    pub fn qrcode_login_body(&self, t106: &[u8], t16a: &[u8], t318: &[u8]) -> (r: (Vec<u8>, Ghost<(Seq<u8>, u32)>))
        requires
            login_fields_ok(*self),
        ensures
            r.1@.0.len() == 16,
            r.0@ == qrcode_login_body(*self, t106@, t16a@, t318@, r.1@.0, r.1@.1),
    {
        let mut w: Vec<u8> = Vec::new();
        write_u16(&mut w, 9);
        write_u16(&mut w, 24);
        append_fixed(&mut w, self, 0x18);
        let g1 = append_packed(&mut w, self, 0x01, None);
        write_u16(&mut w, 0x106);
        w.write_tlv(t106);
        append_fixed(&mut w, self, 0x116);
        append_fixed(&mut w, self, 0x100);
        append_fixed(&mut w, self, 0x107);
        append_fixed(&mut w, self, 0x142);
        append_fixed(&mut w, self, 0x144);
        append_fixed(&mut w, self, 0x145);
        append_fixed(&mut w, self, 0x147);
        write_u16(&mut w, 0x16a);
        w.write_tlv(t16a);
        append_login_tail(&mut w, self);
        write_u16(&mut w, 0x318);
        w.write_tlv(t318);
        assert(w@ =~= qrcode_login_body(*self, t106@, t16a@, t318@, g1@.0, g1@.1));
        (w, g1)
    }

    /// Builds the body that unlocks a device (see `unlock_body`).
    pub fn unlock_body(&self) -> (r: (Vec<u8>, Ghost<(Seq<u8>, u32)>))
        ensures
            r.1@.0.len() == 16,
            r.0@ == unlock_body(*self, r.1@.0, r.1@.1),
    {
        let mut w: Vec<u8> = Vec::new();
        write_u16(&mut w, 20);
        write_u16(&mut w, 4);
        append_fixed(&mut w, self, 0x08);
        append_fixed(&mut w, self, 0x104);
        append_fixed(&mut w, self, 0x116);
        let g = append_packed(&mut w, self, 0x401, None);
        assert(w@ =~= unlock_body(*self, g@.0, g@.1));
        (w, g)
    }

    /// Builds the body that asks for a login code image (see `fetch_qrcode_body`).
    pub fn fetch_qrcode_body(&self) -> (w: Vec<u8>)
        ensures
            w@ == fetch_qrcode_body(*self),
    {
        let mut w: Vec<u8> = Vec::new();
        write_u16(&mut w, 0);
        write_u32(&mut w, 16);
        write_u64(&mut w, 0);
        write_u8(&mut w, 8);
        w.write_tlv(&[]);
        write_u16(&mut w, 6);
        append_fixed(&mut w, self, 0x16);
        append_fixed(&mut w, self, 0x1b);
        append_fixed(&mut w, self, 0x1d);
        append_fixed(&mut w, self, 0x1f);
        append_fixed(&mut w, self, 0x33);
        append_fixed(&mut w, self, 0x35);
        assert(w@ =~= fetch_qrcode_body(*self));
        w
    }
}

/// Builds the body that asks whether a login code was scanned (see `verify_qrcode_body`).
pub fn build_verify_qrcode_body(qrsig: &[u8]) -> (w: Vec<u8>)
    ensures
        w@ == verify_qrcode_body(qrsig@),
{
    let mut w: Vec<u8> = Vec::new();
    write_u16(&mut w, 5);
    write_u8(&mut w, 1);
    write_u32(&mut w, 8);
    write_u32(&mut w, 16);
    w.write_tlv(qrsig);
    write_u64(&mut w, 0);
    write_u8(&mut w, 8);
    w.write_tlv(&[]);
    write_u16(&mut w, 0);
    assert(w@ =~= verify_qrcode_body(qrsig@));
    w
}


/// What a login reply asks of the client next.
#[derive(Debug)]
pub enum LoginOutcome {
    /// The device must be unlocked: send this body as `wtlogin.login`.
    Unlock(Vec<u8>),
    /// Logged in as this account; the session is to be registered.
    Online(User),
    /// The token is no longer good.
    Token,
    /// A slider captcha must be solved at this address.
    Slider(String),
    /// A text message with a code was sent to the phone of the account.
    SmsSent,
    /// The device must be verified: the address (never given here) and the phone number.
    Verify(Option<String>, Option<String>),
    /// The login failed for this reason.
    Failed(InternalErrorKind),
}

/// The body of a login reply: bytes 16 to one before the last.
pub open spec fn reply_body(payload: Seq<u8>) -> Seq<u8> {
    payload.subrange(16, payload.len() - 1)
}

/// The type and fields of a login reply: decrypted with the shared key, the type at byte 2 and
/// the fields from byte 5 on.
pub open spec fn login_reply(data: DataCenter, payload: Seq<u8>) -> Result<(u8, Map<u16, Seq<u8>>), CommonError> {
    match tea_decrypt(reply_body(payload), data.ecdh.share_key@) {
        Err(e) => Err(CommonError::Tea(e)),
        Ok(d) => if d.len() < 3 {
            Err(CommonError::UnexpectedEof)
        } else {
            match tlv_fields(if d.len() >= 5 { d.subrange(5, d.len() as int) } else { Seq::empty() }) {
                Err(e) => Err(CommonError::Tlv(e)),
                Ok(m) => Ok((d[2], m)),
            }
        },
    }
}

/// A notice in a login reply from byte `start` on: a title and a content, each a 16-bit length
/// and UTF-8 bytes.
pub open spec fn notice_text(v: Seq<u8>, start: int) -> Result<(Seq<char>, Seq<char>), CommonError> {
    let p = start;
    if p + 2 > v.len() {
        Err(CommonError::UnexpectedEof)
    } else {
        let tl = be16_at(v, p) as int;
        if p + 2 + tl > v.len() {
            Err(CommonError::UnexpectedEof)
        } else if !valid_utf8(v.subrange(p + 2, p + 2 + tl)) {
            Err(CommonError::InvalidUtf8)
        } else {
            let q = p + 2 + tl;
            if q + 2 > v.len() {
                Err(CommonError::UnexpectedEof)
            } else {
                let cl = be16_at(v, q) as int;
                if q + 2 + cl > v.len() {
                    Err(CommonError::UnexpectedEof)
                } else if !valid_utf8(v.subrange(q + 2, q + 2 + cl)) {
                    Err(CommonError::InvalidUtf8)
                } else {
                    Ok((decode_utf8(v.subrange(p + 2, q)), decode_utf8(v.subrange(q + 2, q + 2 + cl))))
                }
            }
        }
    }
}

/// The replies that `decode_login_response` reads without fault: the body is there and
/// decrypts as `decrypt` handles; a t119 reply is one `decode_t119` handles; a notice has the
/// bytes that are skipped before it.
pub open spec fn login_response_safe(data: DataCenter, payload: Seq<u8>) -> bool {
    &&& payload.len() >= 17
    &&& tea_decrypt_safe(reply_body(payload), data.ecdh.share_key@)
    &&& login_reply(data, payload) matches Ok((typee, m)) ==> {
        &&& (typee == 0 && m.contains_key(0x119)) ==> t119_safe(data, m[0x119])
        &&& !(typee == 204 || typee == 0 || typee == 15 || typee == 16 || typee == 2 || typee == 160) ==> {
            &&& m.contains_key(0x149) ==> m[0x149].len() >= 2
            &&& (!m.contains_key(0x149) && m.contains_key(0x146)) ==> m[0x146].len() >= 4
        }
    }
}

/// The outcome is the failure of a login of this type for this reason.
pub open spec fn failed_with(o: LoginOutcome, typee: u8, msg: Seq<char>) -> bool {
    o matches LoginOutcome::Failed(InternalErrorKind::UnknownLoginType(t, s)) && t == typee && s@ == msg
}

/// The outcome of a notice: the failure with its title and content, or the error of reading it.
pub open spec fn notice_outcome(r: Result<LoginOutcome, CommonError>, typee: u8, notice: Result<(Seq<char>, Seq<char>), CommonError>) -> bool {
    match notice {
        Err(e) => r == Err::<LoginOutcome, CommonError>(e),
        Ok((title, content)) => r matches Ok(o) && failed_with(o, typee, "["@ + title + "] "@ + content),
    }
}

/// Only the tickets t104 and t174 of the session may have changed.
pub open spec fn only_t104_t174_changed(old: DataCenter, new: DataCenter) -> bool {
    &&& new.sig == (SIG { t104: new.sig.t104, t174: new.sig.t174, ..old.sig })
    &&& new.uin == old.uin && new.apk == old.apk && new.device == old.device && new.ecdh == old.ecdh
    &&& new.pskey == old.pskey
}

/// A t119 reply read at `secs` seconds: how it leaves the data and the account it gives.
pub open spec fn t119_step(old: DataCenter, new: DataCenter, t119: Seq<u8>, secs: u64, u: Result<User, CommonError>) -> bool {
    match t119_fields(old, t119) {
        Err(e) => u == Err::<User, CommonError>(e) && new == old,
        Ok(f) => t119_applied(old, new, f, secs, u),
    }
}

/// What a login reply of type `typee` with fields `m` answers, and how it leaves the data.
pub open spec fn login_outcome(old: DataCenter, new: DataCenter, typee: u8, m: Map<u16, Seq<u8>>, r: Result<LoginOutcome, CommonError>) -> bool {
    if typee == 204 {
        if !m.contains_key(0x104) {
            r == Err::<LoginOutcome, CommonError>(CommonError::TagNotExisted(0x104)) && new == old
        } else {
            &&& only_t104_t174_changed(old, new) && new.sig.t104@ == m[0x104] && new.sig.t174 == old.sig.t174
            &&& r matches Ok(LoginOutcome::Unlock(body)) && exists|rnd: Seq<u8>, ms: u32| rnd.len() == 16 && body@ == #[trigger] unlock_body(new, rnd, ms)
        }
    } else if typee == 0 {
        let cleared = DataCenter { sig: SIG { t104: new.sig.t104, t174: new.sig.t174, ..old.sig }, ..old };
        if !m.contains_key(0x119) {
            &&& only_t104_t174_changed(old, new) && new.sig.t104@.len() == 0 && new.sig.t174@.len() == 0
            &&& r == Err::<LoginOutcome, CommonError>(CommonError::TagNotExisted(0x119))
        } else {
            exists|mid: DataCenter, secs: u64, u: Result<User, CommonError>| {
                &&& only_t104_t174_changed(old, mid) && mid.sig.t104@.len() == 0 && mid.sig.t174@.len() == 0
                &&& #[trigger] t119_step(mid, new, m[0x119], secs, u)
                &&& match u {
                    Ok(user) => r matches Ok(LoginOutcome::Online(x)) && x == user,
                    Err(e) => r == Err::<LoginOutcome, CommonError>(e),
                }
            }
        }
    } else if typee == 15 || typee == 16 {
        &&& r matches Ok(LoginOutcome::Token)
        &&& new == old
    } else if typee == 2 {
        if !m.contains_key(0x104) {
            r == Err::<LoginOutcome, CommonError>(CommonError::TagNotExisted(0x104)) && new == old
        } else {
            &&& only_t104_t174_changed(old, new) && new.sig.t104@ == m[0x104] && new.sig.t174 == old.sig.t174
            &&& if m.contains_key(0x192) {
                if valid_utf8(m[0x192]) {
                    r matches Ok(LoginOutcome::Slider(url)) && url@ == decode_utf8(m[0x192])
                } else {
                    r == Err::<LoginOutcome, CommonError>(CommonError::InvalidUtf8)
                }
            } else {
                r matches Ok(o) && failed_with(o, 2, "[登陆失败] 未知格式的验证码"@)
            }
        }
    } else if typee == 160 {
        if !m.contains_key(0x204) && !m.contains_key(0x174) {
            &&& r matches Ok(LoginOutcome::SmsSent)
            &&& new == old
        } else if m.contains_key(0x174) && m.contains_key(0x178) {
            if !m.contains_key(0x104) {
                r == Err::<LoginOutcome, CommonError>(CommonError::TagNotExisted(0x104)) && new == old
            } else {
                &&& only_t104_t174_changed(old, new) && new.sig.t104@ == m[0x104] && new.sig.t174@ == m[0x174]
                &&& if valid_utf8(m[0x174]) {
                    r matches Ok(LoginOutcome::Verify(None, Some(phone))) && phone@ == decode_utf8(m[0x174])
                } else {
                    r == Err::<LoginOutcome, CommonError>(CommonError::InvalidUtf8)
                }
            }
        } else {
            &&& r matches Ok(LoginOutcome::Verify(None, None))
            &&& new == old
        }
    } else if m.contains_key(0x149) {
        new == old && notice_outcome(r, typee, notice_text(m[0x149], 2))
    } else if m.contains_key(0x146) {
        new == old && notice_outcome(r, typee, notice_text(m[0x146], 4))
    } else {
        &&& new == old
        &&& r matches Ok(o) && failed_with(o, typee, "[登陆失败] 未知错误"@)
    }
}

/// Reads a notice (see `notice_text`) into the failure it reports.
fn read_notice(v: &[u8], start: usize, typee: u8) -> (r: Result<LoginOutcome, CommonError>)
    requires
        start <= v@.len(),
    ensures
        notice_outcome(r, typee, notice_text(v@, start as int)),
{
    let n = v.len();
    let p = start;
    if n - p < 2 {
        return Err(CommonError::UnexpectedEof);
    }
    let tl = (v[p] as usize) * 256 + v[p + 1] as usize;
    assert(tl == be16_at(v@, p as int) as int);
    if tl > n - p - 2 {
        return Err(CommonError::UnexpectedEof);
    }
    let q = p + 2 + tl;
    let title = match string_from_utf8(copy_range(v, p + 2, q)) {
        Some(t) => t,
        None => return Err(CommonError::InvalidUtf8),
    };
    proof {
        encode_utf8_decode_utf8(title@);
    }
    if n - q < 2 {
        return Err(CommonError::UnexpectedEof);
    }
    let cl = (v[q] as usize) * 256 + v[q + 1] as usize;
    assert(cl == be16_at(v@, q as int) as int);
    if cl > n - q - 2 {
        return Err(CommonError::UnexpectedEof);
    }
    let content = match string_from_utf8(copy_range(v, q + 2, q + 2 + cl)) {
        Some(c) => c,
        None => return Err(CommonError::InvalidUtf8),
    };
    proof {
        encode_utf8_decode_utf8(content@);
    }
    let mut msg = String::from_str("[");
    msg.append(title.as_str());
    msg.append("] ");
    msg.append(content.as_str());
    Ok(LoginOutcome::Failed(InternalErrorKind::UnknownLoginType(typee, msg)))
}

impl DataCenter {
    /// Reads a reply to a login request and decides what comes next (see `login_outcome`).
    pub fn decode_login_response(&mut self, payload: &[u8]) -> (r: Result<LoginOutcome, CommonError>)
        requires
            login_response_safe(*old(self), payload@),
        ensures
            match login_reply(*old(self), payload@) {
                Err(e) => r == Err::<LoginOutcome, CommonError>(e) && *final(self) == *old(self),
                Ok((typee, m)) => login_outcome(*old(self), *final(self), typee, m, r),
            },
    {
        broadcast use vstd::std_specs::hash::group_hash_axioms;
        let n = payload.len();
        let body = copy_range(payload, 16, n - 1);
        let decrypted = match decrypt(body.as_slice(), &self.ecdh.share_key) {
            Ok(d) => d,
            Err(e) => return Err(CommonError::Tea(e)),
        };
        if decrypted.len() < 3 {
            return Err(CommonError::UnexpectedEof);
        }
        let typee = decrypted[2];
        let fields = if decrypted.len() >= 5 {
            copy_range(decrypted.as_slice(), 5, decrypted.len())
        } else {
            Vec::new()
        };
        let mut t = match read_tlv(fields.as_slice()) {
            Ok(m) => m,
            Err(e) => return Err(CommonError::Tlv(e)),
        };
        let ghost m = t@;
        let ghost mv = tlv_fields(fields@)->Ok_0;
        assert(login_reply(*old(self), payload@) == Ok::<(u8, Map<u16, Seq<u8>>), CommonError>((typee, mv)));
        if typee == 204 {
            let t104 = match t.remove(&0x104) {
                Some(v) => v,
                None => return Err(CommonError::TagNotExisted(0x104)),
            };
            self.sig.t104 = t104;
            let (unlock, g) = self.unlock_body();
            let res = Ok(LoginOutcome::Unlock(unlock));
            assert(login_outcome(*old(self), *self, typee, mv, res));
            res
        } else if typee == 0 {
            self.sig.t104 = Vec::new();
            self.sig.t174 = Vec::new();
            let ghost mid = *self;
            let t119 = match t.remove(&0x119) {
                Some(v) => v,
                None => return Err(CommonError::TagNotExisted(0x119)),
            };
            assert(t119@ == mv[0x119]);
            let secs = current_unix_timestamp_as_secs();
            let u = self.decode_t119_at(t119.as_slice(), secs);
            assert(t119_step(mid, *self, mv[0x119], secs, u));
            let res = match u {
                Ok(user) => Ok(LoginOutcome::Online(user)),
                Err(e) => Err(e),
            };
            assert(login_outcome(*old(self), *self, typee, mv, res));
            res
        } else if typee == 15 || typee == 16 {
            Ok(LoginOutcome::Token)
        } else if typee == 2 {
            let t104 = match t.remove(&0x104) {
                Some(v) => v,
                None => return Err(CommonError::TagNotExisted(0x104)),
            };
            self.sig.t104 = t104;
            match t.remove(&0x192) {
                Some(t192) => {
                    let ghost b = t192@;
                    match string_from_utf8(t192) {
                        Some(url) => {
                            proof {
                                encode_utf8_decode_utf8(url@);
                            }
                            Ok(LoginOutcome::Slider(url))
                        },
                        None => Err(CommonError::InvalidUtf8),
                    }
                },
                None => Ok(LoginOutcome::Failed(InternalErrorKind::UnknownLoginType(typee, String::from_str("[登陆失败] 未知格式的验证码")))),
            }
        } else if typee == 160 {
            assert(m.dom() == mv.dom());
            let t204 = t.remove(&0x204);
            assert(t204 is Some <==> mv.contains_key(0x204));
            let t174 = t.remove(&0x174);
            assert(t174 is Some <==> mv.contains_key(0x174));
            assert(t174 is Some ==> m.contains_key(0x174) && t174->Some_0 == m[0x174]);
            assert(t174 is Some ==> t174->Some_0@ == mv[0x174]);
            if t204.is_none() && t174.is_none() {
                return Ok(LoginOutcome::SmsSent);
            }
            let t178 = t.remove(&0x178);
            assert(t178 is Some <==> mv.contains_key(0x178));
            let phone = match (t174, t178) {
                (Some(t174), Some(_)) => {
                    let t104 = match t.remove(&0x104) {
                        Some(v) => v,
                        None => return Err(CommonError::TagNotExisted(0x104)),
                    };
                    assert(m.contains_key(0x104) && t104 == m[0x104]);
                    assert(t104@ == mv[0x104]);
                    self.sig.t104 = t104;
                    self.sig.t174 = t174;
                    let copy = copy_range(self.sig.t174.as_slice(), 0, self.sig.t174.len());
                    assert(copy@ =~= mv[0x174]);
                    match string_from_utf8(copy) {
                        Some(p) => {
                            proof {
                                encode_utf8_decode_utf8(p@);
                            }
                            Some(p)
                        },
                        None => return Err(CommonError::InvalidUtf8),
                    }
                },
                _ => None,
            };
            let again = t.remove(&0x204);
            assert(again is None);
            let address = match again {
                Some(buf) => match string_from_utf8(buf) {
                    Some(s) => Some(s),
                    None => Some(String::new()),
                },
                None => None,
            };
            let res = Ok(LoginOutcome::Verify(address, phone));
            assert(login_outcome(*old(self), *self, typee, mv, res));
            res
        } else if t.contains_key(&0x149) {
            let t149 = match t.remove(&0x149) {
                Some(v) => v,
                None => Vec::new(),
            };
            read_notice(t149.as_slice(), 2, typee)
        } else if t.contains_key(&0x146) {
            let t146 = match t.remove(&0x146) {
                Some(v) => v,
                None => Vec::new(),
            };
            read_notice(t146.as_slice(), 4, typee)
        } else {
            Ok(LoginOutcome::Failed(InternalErrorKind::UnknownLoginType(typee, String::from_str("[登陆失败] 未知错误"))))
        }
    }
}


impl DataCenter {
    /// Whether `decode_login_response` reads `payload` without fault (see
    /// `login_response_safe`): what a caller tests before it hands a server's reply over.
    pub fn login_response_decodable(&self, payload: &[u8]) -> (b: bool)
        ensures
            b == login_response_safe(*self, payload@),
    {
        broadcast use vstd::std_specs::hash::group_hash_axioms;
        let n = payload.len();
        if n < 17 {
            return false;
        }
        let body = copy_range(payload, 16, n - 1);
        if !decryptable(body.as_slice(), &self.ecdh.share_key) {
            return false;
        }
        let decrypted = match decrypt(body.as_slice(), &self.ecdh.share_key) {
            Ok(d) => d,
            Err(_) => return true,
        };
        if decrypted.len() < 3 {
            return true;
        }
        let typee = decrypted[2];
        let fields = if decrypted.len() >= 5 {
            copy_range(decrypted.as_slice(), 5, decrypted.len())
        } else {
            Vec::new()
        };
        let t = match read_tlv(fields.as_slice()) {
            Ok(m) => m,
            Err(_) => return true,
        };
        let ghost mv = tlv_fields(fields@)->Ok_0;
        assert(login_reply(*self, payload@) == Ok::<(u8, Map<u16, Seq<u8>>), CommonError>((typee, mv)));
        if typee == 0 {
            return match t.get(&0x119) {
                Some(v) => self.t119_decodable(v.as_slice()),
                None => true,
            };
        }
        if typee == 204 || typee == 15 || typee == 16 || typee == 2 || typee == 160 {
            return true;
        }
        match t.get(&0x149) {
            Some(v) => v.len() >= 2,
            None => match t.get(&0x146) {
                Some(v) => v.len() >= 4,
                None => true,
            },
        }
    }
}

/// What a login code reply holds: the return code, the code's signature and the fields after
/// it.
pub open spec fn qrcode_reply(data: DataCenter, payload: Seq<u8>) -> Result<(u8, Seq<u8>, Map<u16, Seq<u8>>), CommonError> {
    match tea_decrypt(reply_body(payload), data.ecdh.share_key@) {
        Err(e) => Err(CommonError::Tea(e)),
        Ok(d) => if d.len() < 57 {
            Err(CommonError::UnexpectedEof)
        } else {
            let ql = be16_at(d, 55) as int;
            if 57 + ql > d.len() {
                Err(CommonError::UnexpectedEof)
            } else {
                let p = 57 + ql + 2;
                match tlv_fields(if p <= d.len() { d.subrange(p, d.len() as int) } else { Seq::empty() }) {
                    Err(e) => Err(CommonError::Tlv(e)),
                    Ok(m) => Ok((d[54], d.subrange(57, 57 + ql), m)),
                }
            }
        },
    }
}

/// The replies that `decode_fetch_qrcode` reads without fault.
pub open spec fn reply_safe(data: DataCenter, payload: Seq<u8>) -> bool {
    payload.len() >= 17 && tea_decrypt_safe(reply_body(payload), data.ecdh.share_key@)
}

/// What a login code reply gives: the image of the code, or the failure to get one.
#[derive(Debug)]
pub enum QrcodeFetched {
    Image(Vec<u8>),
    Failed(InternalErrorKind),
}

impl DataCenter {
    /// Reads the reply to a login code request: with return code 0 and an image (field 0x17)
    /// the code's signature is kept and the image comes back; otherwise the failure.
    pub fn decode_fetch_qrcode(&mut self, payload: &[u8]) -> (r: Result<QrcodeFetched, CommonError>)
        requires
            reply_safe(*old(self), payload@),
        ensures
            match qrcode_reply(*old(self), payload@) {
                Err(e) => r == Err::<QrcodeFetched, CommonError>(e) && *final(self) == *old(self),
                Ok((retcode, qrsig, m)) => if retcode == 0 && m.contains_key(0x17) {
                    &&& r matches Ok(QrcodeFetched::Image(image)) && image@ == m[0x17]
                    &&& final(self).sig == (SIG { qrsig: final(self).sig.qrsig, ..old(self).sig })
                    &&& final(self).sig.qrsig matches Some(q) && q@ == qrsig
                    &&& final(self).uin == old(self).uin && final(self).apk == old(self).apk
                    &&& final(self).device == old(self).device && final(self).ecdh == old(self).ecdh
                    &&& final(self).pskey == old(self).pskey
                } else {
                    &&& r matches Ok(QrcodeFetched::Failed(InternalErrorKind::Qrcode(c, msg))) && c == retcode && msg@ == "获取二维码失败，请重试"@
                    &&& *final(self) == *old(self)
                },
            },
    {
        broadcast use vstd::std_specs::hash::group_hash_axioms;
        let n = payload.len();
        let body = copy_range(payload, 16, n - 1);
        let d = match decrypt(body.as_slice(), &self.ecdh.share_key) {
            Ok(d) => d,
            Err(e) => return Err(CommonError::Tea(e)),
        };
        if d.len() < 57 {
            return Err(CommonError::UnexpectedEof);
        }
        let retcode = d[54];
        let ql = (d[55] as usize) * 256 + d[56] as usize;
        assert(ql == be16_at(d@, 55) as int);
        if ql > d.len() - 57 {
            return Err(CommonError::UnexpectedEof);
        }
        let qrsig = copy_range(d.as_slice(), 57, 57 + ql);
        let p = 57 + ql + 2;
        let fields = if p <= d.len() { copy_range(d.as_slice(), p, d.len()) } else { Vec::new() };
        let mut t = match read_tlv(fields.as_slice()) {
            Ok(m) => m,
            Err(e) => return Err(CommonError::Tlv(e)),
        };
        let ghost mv = tlv_fields(fields@)->Ok_0;
        assert(qrcode_reply(*old(self), payload@) == Ok::<(u8, Seq<u8>, Map<u16, Seq<u8>>), CommonError>((retcode, qrsig@, mv)));
        if retcode == 0 && t.contains_key(&0x17) {
            let image = match t.remove(&0x17) {
                Some(v) => v,
                None => Vec::new(),
            };
            self.sig.qrsig = Some(qrsig);
            Ok(QrcodeFetched::Image(image))
        } else {
            Ok(QrcodeFetched::Failed(InternalErrorKind::Qrcode(retcode, String::from_str("获取二维码失败，请重试"))))
        }
    }
}

/// Where the return code of a scan reply stands: after the 16-bit length at byte 48, the bytes
/// it counts (one kind byte, and eight more when that byte is 2), and four bytes.
pub open spec fn scan_retcode_pos(d: Seq<u8>) -> Result<int, CommonError> {
    if d.len() < 50 {
        Err(CommonError::UnexpectedEof)
    } else {
        let len = be16_at(d, 48) as int;
        if len == 0 {
            Ok(54int)
        } else if d.len() < 51 {
            Err(CommonError::UnexpectedEof)
        } else {
            let rest: int = if d[50] == 2 { len - 1 - 8 } else { len - 1 };
            let p: int = if d[50] == 2 { 59 } else { 51 };
            Ok(p + (if rest > 0 { rest } else { 0 }) + 4)
        }
    }
}

/// What the decrypted body of a scan reply holds: the return code, and for code 0 the account
/// that scanned and the fields after it.
pub open spec fn scan_of(d: Seq<u8>) -> Result<(u8, Option<(u32, Map<u16, Seq<u8>>)>), CommonError> {
    match scan_retcode_pos(d) {
        Err(e) => Err(e),
        Ok(p) => if p >= d.len() {
            Err(CommonError::UnexpectedEof)
        } else if d[p] != 0 {
            Ok((d[p], None))
        } else if p + 9 > d.len() {
            Err(CommonError::UnexpectedEof)
        } else {
            let q = p + 9 + 6;
            match tlv_fields(if q <= d.len() { d.subrange(q, d.len() as int) } else { Seq::empty() }) {
                Err(e) => Err(CommonError::Tlv(e)),
                Ok(m) => Ok((0, Some((be32_at(d, p + 5), m)))),
            }
        },
    }
}

/// What a scan reply holds (see `scan_of`).
pub open spec fn scan_reply(data: DataCenter, payload: Seq<u8>) -> Result<(u8, Option<(u32, Map<u16, Seq<u8>>)>), CommonError> {
    match tea_decrypt(reply_body(payload), data.ecdh.share_key@) {
        Err(e) => Err(CommonError::Tea(e)),
        Ok(d) => scan_of(d),
    }
}

/// The decrypted scan replies whose counted length holds the eight bytes it skips.
pub open spec fn scan_length_ok(d: Seq<u8>) -> bool {
    (d.len() >= 51 && be16_at(d, 48) > 0 && d[50] == 2) ==> be16_at(d, 48) >= 9
}

/// The scan replies that `decode_verify_qrcode` reads without fault: the counted length holds
/// the eight bytes it skips, and the key 0x1e has 16 bytes when all four fields are there.
pub open spec fn scan_safe(data: DataCenter, payload: Seq<u8>) -> bool {
    &&& reply_safe(data, payload)
    &&& tea_decrypt(reply_body(payload), data.ecdh.share_key@) matches Ok(d) ==> scan_length_ok(d)
    &&& scan_reply(data, payload) matches Ok((_, Some((_, m)))) ==> (
        (m.contains_key(0x18) && m.contains_key(0x19) && m.contains_key(0x65) && m.contains_key(0x1e)) ==> m[0x1e].len() == 16)
}

/// The fields a scan gives for the login that follows it.
#[derive(Debug)]
pub struct Scanned {
    pub retcode: u8,
    pub uin: u32,
    pub t106: Vec<u8>,
    pub t16a: Vec<u8>,
    pub t318: Vec<u8>,
    pub tgtgt: [u8; 16],
}

/// Reads the decrypted body of a scan reply (see `scan_of`).
fn read_scan(d: &[u8]) -> (r: Result<(u8, Option<(u32, HashMap<u16, Vec<u8>>)>), CommonError>)
    requires
        scan_length_ok(d@),
    ensures
        match scan_of(d@) {
            Err(e) => r matches Err(x) && x == e,
            Ok((c, None)) => r matches Ok((c2, None)) && c2 == c,
            Ok((c, Some((uin, m)))) => r matches Ok((c2, Some((u2, t)))) && c2 == c && u2 == uin && holds_fields(t@, m),
        },
{
    broadcast use vstd::std_specs::hash::group_hash_axioms;
    let dl: usize = d.len();
    if dl < 50 {
        return Err(CommonError::UnexpectedEof);
    }
    let mut len: u16 = ((d[48] as u32) * 256 + d[49] as u32) as u16;
    assert(len == be16_at(d@, 48));
    let mut p: usize = 50;
    if len > 0 {
        len = len - 1;
        if dl < 51 {
            return Err(CommonError::UnexpectedEof);
        }
        let kind = d[50];
        p = 51;
        if kind == 2 {
            p = p + 8;
            len = len - 8;
        }
        if len > 0 {
            p = p + len as usize;
        }
    }
    p = p + 4;
    assert(scan_retcode_pos(d@) == Ok::<int, CommonError>(p as int));
    if p >= dl {
        return Err(CommonError::UnexpectedEof);
    }
    let retcode = d[p];
    if retcode != 0 {
        return Ok((retcode, None));
    }
    if dl - p < 9 {
        return Err(CommonError::UnexpectedEof);
    }
    let uin = (d[p + 5] as u32) * 0x100_0000 + (d[p + 6] as u32) * 0x1_0000 + (d[p + 7] as u32) * 0x100 + d[p + 8] as u32;
    let q = p + 9 + 6;
    let fields = if q <= dl { copy_range(d, q, dl) } else { Vec::new() };
    let t = match read_tlv(fields.as_slice()) {
        Ok(m) => m,
        Err(e) => return Err(CommonError::Tlv(e)),
    };
    Ok((0, Some((uin, t))))
}

/// Reads the reply to a scan request: with return code 0 and the fields 0x18, 0x19, 0x65 and
/// 0x1e, what the login that follows needs; otherwise nothing.
pub fn decode_verify_qrcode(data: &DataCenter, payload: &[u8]) -> (r: Result<Option<Scanned>, CommonError>)
    requires
        scan_safe(*data, payload@),
    ensures
        match scan_reply(*data, payload@) {
            Err(e) => r == Err::<Option<Scanned>, CommonError>(e),
            Ok((_, None)) => r matches Ok(None),
            Ok((_, Some((uin, m)))) => if m.contains_key(0x18) && m.contains_key(0x19) && m.contains_key(0x65) && m.contains_key(0x1e) {
                r matches Ok(Some(s)) && s.retcode == 0 && s.uin == uin && s.t106@ == m[0x18]
                    && s.t16a@ == m[0x19] && s.t318@ == m[0x65] && s.tgtgt@ == m[0x1e]
            } else {
                r matches Ok(None)
            },
        },
{
    broadcast use vstd::std_specs::hash::group_hash_axioms;
    let n: usize = payload.len();
    let body = copy_range(payload, 16, n - 1);
    let d = match decrypt(body.as_slice(), &data.ecdh.share_key) {
        Ok(d) => d,
        Err(e) => return Err(CommonError::Tea(e)),
    };
    let (retcode, rest) = match read_scan(d.as_slice()) {
        Ok(x) => x,
        Err(e) => return Err(e),
    };
    let (uin, mut t) = match rest {
        None => return Ok(None),
        Some(x) => x,
    };
    let ghost m = t@;
    let ghost mv = scan_of(d@)->Ok_0.1->Some_0.1;
    assert(m.dom() == mv.dom());
    let t106 = t.remove(&0x18);
    let t16a = t.remove(&0x19);
    let t318 = t.remove(&0x65);
    let tgtgt = t.remove(&0x1e);
    match (t106, t16a, t318, tgtgt) {
        (Some(t106), Some(t16a), Some(t318), Some(k)) => {
            assert(m.contains_key(0x18) && t106 == m[0x18]);
            assert(m.contains_key(0x19) && t16a == m[0x19]);
            assert(m.contains_key(0x65) && t318 == m[0x65]);
            assert(m.contains_key(0x1e) && k == m[0x1e]);
            let key: [u8; 16] = [k[0], k[1], k[2], k[3], k[4], k[5], k[6], k[7], k[8], k[9], k[10], k[11], k[12], k[13], k[14], k[15]];
            assert(key@ =~= k@);
            Ok(Some(Scanned { retcode, uin, t106, t16a, t318, tgtgt: key }))
        },
        _ => Ok(None),
    }
}

/// Whether `decode_verify_qrcode` reads `payload` without fault (see `scan_safe`): what a
/// caller tests before it hands a server's reply over.
pub fn scan_reply_decodable(data: &DataCenter, payload: &[u8]) -> (b: bool)
    ensures
        b == scan_safe(*data, payload@),
{
    broadcast use vstd::std_specs::hash::group_hash_axioms;
    let n: usize = payload.len();
    if n < 17 {
        return false;
    }
    let body = copy_range(payload, 16, n - 1);
    if !decryptable(body.as_slice(), &data.ecdh.share_key) {
        return false;
    }
    let d = match decrypt(body.as_slice(), &data.ecdh.share_key) {
        Ok(d) => d,
        Err(_) => return true,
    };
    let dl: usize = d.len();
    if dl >= 51 {
        let len: u16 = ((d[48] as u32) * 256 + d[49] as u32) as u16;
        assert(len == be16_at(d@, 48));
        if len > 0 && d[50] == 2 && len < 9 {
            return false;
        }
    }
    let t = match read_scan(d.as_slice()) {
        Ok((_, Some((_, t)))) => t,
        _ => return true,
    };
    match (t.get(&0x18), t.get(&0x19), t.get(&0x65), t.get(&0x1e)) {
        (Some(_), Some(_), Some(_), Some(k)) => k.len() == 16,
        _ => true,
    }
}

/// Whether `decode_fetch_qrcode` reads `payload` without fault (see `reply_safe`).
pub fn fetch_reply_decodable(data: &DataCenter, payload: &[u8]) -> (b: bool)
    ensures
        b == reply_safe(*data, payload@),
{
    let n: usize = payload.len();
    if n < 17 {
        return false;
    }
    let body = copy_range(payload, 16, n - 1);
    decryptable(body.as_slice(), &data.ecdh.share_key)
}

/// The message of a scan that did not succeed, by its return code.
pub open spec fn scan_failure_message(retcode: u8) -> Seq<char> {
    if retcode == 0x11 {
        "二维码超时，请重新获取"@
    } else if retcode == 0x30 {
        "二维码尚未扫描"@
    } else if retcode == 0x35 {
        "二维码尚未确认"@
    } else if retcode == 0x36 {
        "二维码被取消，请重新获取"@
    } else {
        "服务器错误，请重新获取"@
    }
}

/// What follows a scan: a login with this body, or a failure to report.
#[derive(Debug)]
pub enum ScanStep {
    Login(Vec<u8>),
    Failed(InternalErrorKind),
}

impl DataCenter {
    /// Decides what follows a scan: the code's signature is dropped; with return code 0, a scan
    /// by another account is a failure, and otherwise the scan's key becomes `tgtgt` and the
    /// login body is built (see `qrcode_login_body`); any other code is the failure its message
    /// names (see `scan_failure_message`).
    pub fn qrcode_login_step(&mut self, scanned: Scanned) -> (r: ScanStep)
        requires
            scanned.retcode == 0 && scanned.uin == old(self).uin ==> login_fields_ok(*old(self)),
        ensures
            final(self).sig.qrsig is None,
            final(self).uin == old(self).uin && final(self).apk == old(self).apk,
            final(self).device == old(self).device && final(self).ecdh == old(self).ecdh,
            final(self).pskey == old(self).pskey,
            scanned.retcode == 0 && scanned.uin == old(self).uin ==> {
                &&& final(self).sig == (SIG { qrsig: None, tgtgt: scanned.tgtgt, ..old(self).sig })
                &&& r matches ScanStep::Login(body) && exists|rnd: Seq<u8>, ms: u32| rnd.len() == 16 &&
                    body@ == #[trigger] qrcode_login_body(*final(self), scanned.t106@, scanned.t16a@, scanned.t318@, rnd, ms)
            },
            scanned.retcode == 0 && scanned.uin != old(self).uin ==> {
                &&& final(self).sig == (SIG { qrsig: None, ..old(self).sig })
                &&& r matches ScanStep::Failed(InternalErrorKind::Qrcode(c, msg)) && c == 0
                    && msg@ == "扫码账号("@ + decimal(scanned.uin as nat) + ")与登录账号("@ + decimal(old(self).uin as nat) + ")不符"@
            },
            scanned.retcode != 0 ==> {
                &&& final(self).sig == (SIG { qrsig: None, ..old(self).sig })
                &&& r matches ScanStep::Failed(InternalErrorKind::Qrcode(c, msg)) && c == scanned.retcode && msg@ == scan_failure_message(scanned.retcode)
            },
    {
        self.sig.qrsig = None;
        if scanned.retcode == 0 {
            if scanned.uin != self.uin {
                let mut msg = String::from_str("扫码账号(");
                push_decimal(&mut msg, scanned.uin as u64);
                msg.append(")与登录账号(");
                push_decimal(&mut msg, self.uin as u64);
                msg.append(")不符");
                return ScanStep::Failed(InternalErrorKind::Qrcode(0, msg));
            }
            self.sig.tgtgt = scanned.tgtgt;
            let (body, g) = self.qrcode_login_body(scanned.t106.as_slice(), scanned.t16a.as_slice(), scanned.t318.as_slice());
            ScanStep::Login(body)
        } else {
            let msg = if scanned.retcode == 0x11 {
                "二维码超时，请重新获取"
            } else if scanned.retcode == 0x30 {
                "二维码尚未扫描"
            } else if scanned.retcode == 0x35 {
                "二维码尚未确认"
            } else if scanned.retcode == 0x36 {
                "二维码被取消，请重新获取"
            } else {
                "服务器错误，请重新获取"
            };
            ScanStep::Failed(InternalErrorKind::Qrcode(scanned.retcode, String::from_str(msg)))
        }
    }
}

} // verus!
