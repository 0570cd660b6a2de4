use flate2::{Decompress, FlushDecompress, Status};
use vstd::prelude::*;
use vstd::string::*;
use vstd::utf8::{decode_utf8, encode_utf8_decode_utf8, valid_utf8};

use super::base_client::DataCenter;
use super::error::CommonError;
use super::jce::{as_key, field_lookup, lemma_list_view, list_view, decode_wrapper, encode_fields, encode_wrapper, jce_decode_wrapper, lemma_map_view, map_view, value_result, wrapper_fields, JceElement, JceValue};
use super::jce::string_from_utf8;
use super::tea::{decrypt, decryptable, encrypt, tea_decrypt, tea_decrypt_safe, tea_encrypt};
use super::tlv::zeros;
use super::writer::{be_u32, bytes_result, write_bytes, write_u32};

verus! {

/// A packet to the server: its sequence number, its command and its bytes.
pub trait Request {
    fn seq(&self) -> u32;

    fn command(&self) -> &str;

    fn payload(&self) -> &[u8];
}

/// The commands of the login service.
#[derive(Debug, Clone, Copy, PartialEq, Eq, Structural)]
pub enum LoginCommand {
    WtLoginLogin,
    WtLoginExchangeEmp,
    WtLoginTransEmp,
    StatSvcRegister,
    ClientCorrectTime,
}

/// The name of a login command on the wire.
pub open spec fn login_command_name(c: LoginCommand) -> Seq<char> {
    match c {
        LoginCommand::WtLoginLogin => "wtlogin.login"@,
        LoginCommand::WtLoginExchangeEmp => "wtlogin.exchange_emp"@,
        LoginCommand::WtLoginTransEmp => "wtlogin.trans_emp"@,
        LoginCommand::StatSvcRegister => "StatSvc.register"@,
        LoginCommand::ClientCorrectTime => "Client.CorrectTime"@,
    }
}

impl LoginCommand {
    /// The name of the command on the wire.
    pub fn as_ref(&self) -> (name: &'static str)
        ensures
            name@ == login_command_name(*self),
    {
        match self {
            LoginCommand::WtLoginLogin => "wtlogin.login",
            LoginCommand::WtLoginExchangeEmp => "wtlogin.exchange_emp",
            LoginCommand::WtLoginTransEmp => "wtlogin.trans_emp",
            LoginCommand::StatSvcRegister => "StatSvc.register",
            LoginCommand::ClientCorrectTime => "Client.CorrectTime",
        }
    }
}

/// A packet of the login service.
pub struct LoginRequest {
    seq: u32,
    command: LoginCommand,
    payload: Vec<u8>,
}

impl View for LoginRequest {
    type V = (u32, LoginCommand, Seq<u8>);

    closed spec fn view(&self) -> (u32, LoginCommand, Seq<u8>) {
        (self.seq, self.command, self.payload@)
    }
}

impl LoginRequest {
    pub fn new(seq: u32, command: LoginCommand, payload: Vec<u8>) -> (r: Self)
        ensures
            r@ == (seq, command, payload@),
    {
        Self { seq, command, payload }
    }

    /// The command of the packet.
    pub fn login_command(&self) -> (c: LoginCommand)
        ensures
            c == self@.1,
    {
        self.command
    }
}

impl Request for LoginRequest {
    fn seq(&self) -> (s: u32)
        ensures
            s == self@.0,
    {
        self.seq
    }

    fn command(&self) -> (c: &str)
        ensures
            c@ == login_command_name(self@.1),
    {
        self.command.as_ref()
    }

    fn payload(&self) -> (p: &[u8])
        ensures
            p@ == self@.2,
    {
        self.payload.as_slice()
    }
}

/// The commands of the business services.
#[derive(Debug, Clone, Copy, PartialEq, Eq, Structural)]
pub enum UniCommand {
    OidbSvc,
}

/// The name of a business command on the wire.
pub open spec fn uni_command_name(c: UniCommand) -> Seq<char> {
    match c {
        UniCommand::OidbSvc => "OidbSvc.0x480_9_IMCore"@,
    }
}

impl UniCommand {
    /// The name of the command on the wire.
    pub fn as_ref(&self) -> (name: &'static str)
        ensures
            name@ == uni_command_name(*self),
    {
        match self {
            UniCommand::OidbSvc => "OidbSvc.0x480_9_IMCore",
        }
    }
}

/// A packet of a business service.
pub struct UniRequest {
    seq: u32,
    command: UniCommand,
    payload: Vec<u8>,
}

impl View for UniRequest {
    type V = (u32, UniCommand, Seq<u8>);

    closed spec fn view(&self) -> (u32, UniCommand, Seq<u8>) {
        (self.seq, self.command, self.payload@)
    }
}

impl UniRequest {
    pub fn new(seq: u32, command: UniCommand, payload: Vec<u8>) -> (r: Self)
        ensures
            r@ == (seq, command, payload@),
    {
        Self { seq, command, payload }
    }
}

impl Request for UniRequest {
    fn seq(&self) -> (s: u32)
        ensures
            s == self@.0,
    {
        self.seq
    }

    fn command(&self) -> (c: &str)
        ensures
            c@ == uni_command_name(self@.1),
    {
        self.command.as_ref()
    }

    fn payload(&self) -> (p: &[u8])
        ensures
            p@ == self@.2,
    {
        self.payload.as_slice()
    }
}

/// The states of the connection to the server.
#[derive(Debug, Clone, Copy, PartialEq, Eq, Structural)]
pub enum NetworkState {
    Closed,
    /// Follows `Closed` when the connection was not closed on purpose.
    Lost,
    Connecting,
    Connected,
}


/// How an inflation ended.
#[derive(Debug, Clone, Copy, PartialEq, Eq, Structural)]
pub enum InflateStatus {
    Progressed,
    BufError,
    StreamEnd,
}

/// The bytes a zlib decoder writes for `data` given all the room it needs: the whole stream
/// where `data` holds one, else what it decodes up to where the data breaks off or goes wrong.
/// It depends on the bytes alone.
pub uninterp spec fn zlib_inflated(data: Seq<u8>) -> Seq<u8>;

/// `Decompress::new(true)` and then `Decompress::decompress_vec` with `FlushDecompress::Finish`:
/// a new zlib decoder inflates `input` into the spare capacity of `output`, which keeps the
/// bytes it had. What it appends is the start of `zlib_inflated(input)`, all of it where the
/// stream ended; how much fits depends on the room the allocator gave, which is left unsaid.
/// `None` where the decoder reports a fault.
#[verifier::external_body]
fn inflate_fresh(input: &[u8], output: &mut Vec<u8>) -> (r: Option<InflateStatus>)
    ensures
        old(output)@.len() <= final(output)@.len() <= old(output)@.len() + zlib_inflated(input@).len(),
        final(output)@ == old(output)@ + zlib_inflated(input@).subrange(0, final(output)@.len() - old(output)@.len()),
        r == Some(InflateStatus::StreamEnd) ==> final(output)@ == old(output)@ + zlib_inflated(input@),
{
    let mut decoder = Decompress::new(true);
    match decoder.decompress_vec(input, output, FlushDecompress::Finish) {
        Ok(Status::Ok) => Some(InflateStatus::Progressed),
        Ok(Status::BufError) => Some(InflateStatus::BufError),
        Ok(Status::StreamEnd) => Some(InflateStatus::StreamEnd),
        Err(_) => None,
    }
}

/// What a reply's payload is after inflation ended with `status`: the inflated bytes where the
/// decoder made progress without reaching the end of the stream, and otherwise the error of that
/// status (a full buffer, the end of the stream, or a fault of the data).
pub fn inflate_outcome(status: Option<InflateStatus>, inflated: Vec<u8>) -> (r: Result<Vec<u8>, CommonError>)
    ensures
        match status {
            Some(InflateStatus::Progressed) => r matches Ok(p) && p@ == inflated@,
            Some(InflateStatus::BufError) => r == Err::<Vec<u8>, CommonError>(CommonError::DecompressBufError),
            Some(InflateStatus::StreamEnd) => r == Err::<Vec<u8>, CommonError>(CommonError::DecompressStreamEnd),
            None => r == Err::<Vec<u8>, CommonError>(CommonError::DecompressFailed),
        },
{
    match status {
        Some(InflateStatus::Progressed) => Ok(inflated),
        Some(InflateStatus::BufError) => Err(CommonError::DecompressBufError),
        Some(InflateStatus::StreamEnd) => Err(CommonError::DecompressStreamEnd),
        None => Err(CommonError::DecompressFailed),
    }
}

/// Whether `p` is how `whole` begins.
pub open spec fn is_start_of(p: Seq<u8>, whole: Seq<u8>) -> bool {
    p.len() <= whole.len() && p == whole.subrange(0, p.len() as int)
}

/// The 32-bit big-endian number at `s[p..p + 4]`.
pub open spec fn be32_at(s: Seq<u8>, p: int) -> u32 {
    ((s[p] as int) * 0x100_0000 + (s[p + 1] as int) * 0x1_0000 + (s[p + 2] as int) * 0x100 + s[p + 3] as int) as u32
}

/// Reading back the bytes of a 32-bit number gives the number.
pub proof fn lemma_be32_at_be_u32(s: Seq<u8>, p: int, n: u32)
    requires
        0 <= p,
        p + 4 <= s.len(),
        s.subrange(p, p + 4) == be_u32(n),
    ensures
        be32_at(s, p) == n,
{
    let b0 = (n >> 24u32) as u8;
    let b1 = (n >> 16u32) as u8;
    let b2 = (n >> 8u32) as u8;
    let b3 = n as u8;
    assert(s[p] == b0 && s[p + 1] == b1 && s[p + 2] == b2 && s[p + 3] == b3) by {
        assert(s.subrange(p, p + 4)[0] == s[p]);
        assert(s.subrange(p, p + 4)[1] == s[p + 1]);
        assert(s.subrange(p, p + 4)[2] == s[p + 2]);
        assert(s.subrange(p, p + 4)[3] == s[p + 3]);
    }
    assert((b0 as u32) * 0x100_0000 + (b1 as u32) * 0x1_0000 + (b2 as u32) * 0x100 + (b3 as u32) == n) by (bit_vector)
        requires
            b0 == (n >> 24u32) as u8,
            b1 == (n >> 16u32) as u8,
            b2 == (n >> 8u32) as u8,
            b3 == n as u8,
    ;
}

pub(crate) fn read_be32(s: &[u8], p: usize) -> (n: u32)
    requires
        p + 4 <= s@.len(),
    ensures
        n == be32_at(s@, p as int),
{
    (s[p] as u32) * 0x100_0000 + (s[p + 1] as u32) * 0x1_0000 + (s[p + 2] as u32) * 0x100 + s[p + 3] as u32
}

/// The head of an SSO reply: the length of the head, the sequence number, the command and the
/// compression flag. The return code must be 0; the command's position is given by the offset
/// at byte 12, counted from byte 12, and the flag stands four bytes after the command.
pub open spec fn sso_head(buf: Seq<u8>) -> Result<(u32, u32, Seq<char>, i32), CommonError> {
    if buf.len() < 12 {
        Err(CommonError::UnexpectedEof)
    } else if be32_at(buf, 8) as i32 != 0 {
        Err(CommonError::UnsuccessfulRetcode(be32_at(buf, 8) as i32))
    } else if buf.len() < 16 {
        Err(CommonError::UnexpectedEof)
    } else {
        let p = 12 + be32_at(buf, 12) as int;
        if p + 4 > buf.len() {
            Err(CommonError::UnexpectedEof)
        } else {
            let q = p + 4;
            let clen = be32_at(buf, p) as int;
            if q + clen > buf.len() {
                Err(CommonError::UnexpectedEof)
            } else if !valid_utf8(buf.subrange(q, q + clen)) {
                Err(CommonError::InvalidUtf8)
            } else if q + clen + 8 > buf.len() {
                Err(CommonError::UnexpectedEof)
            } else {
                Ok((be32_at(buf, 0), be32_at(buf, 4), decode_utf8(buf.subrange(q, q + clen)), be32_at(buf, q + clen + 4) as i32))
            }
        }
    }
}

/// The SSO replies that `parse_sso` reads without fault: the payload starts within the buffer.
pub open spec fn sso_safe(buf: Seq<u8>) -> bool {
    sso_head(buf) matches Ok((head_len, _, _, flag)) ==> (
        (flag == 0 || flag == 1) ==> head_len + 4 <= buf.len()) && (flag == 8 ==> head_len <= buf.len())
}

/// Reads the head of an SSO reply (see `sso_head`).
fn read_sso_head(buf: &[u8]) -> (r: Result<(u32, u32, String, i32), CommonError>)
    ensures
        match sso_head(buf@) {
            Err(e) => r == Err::<(u32, u32, String, i32), CommonError>(e),
            Ok((head_len, seq, cmd, flag)) => r matches Ok((h, s, c, f)) && h == head_len && s == seq && c@ == cmd && f == flag,
        },
{
    let n = buf.len();
    if n < 12 {
        return Err(CommonError::UnexpectedEof);
    }
    let head_len = read_be32(buf, 0);
    let seq = read_be32(buf, 4);
    let retcode = read_be32(buf, 8) as i32;
    if retcode != 0 {
        return Err(CommonError::UnsuccessfulRetcode(retcode));
    }
    if n < 16 {
        return Err(CommonError::UnexpectedEof);
    }
    let offset = read_be32(buf, 12) as usize;
    if offset > n || n - offset < 16 {
        return Err(CommonError::UnexpectedEof);
    }
    let p = 12 + offset;
    let clen = read_be32(buf, p) as usize;
    let q = p + 4;
    if clen > n - q {
        return Err(CommonError::UnexpectedEof);
    }
    let end = q + clen;
    let mut cmd_bytes: Vec<u8> = Vec::new();
    let mut i = q;
    while i < end
        invariant
            end == q + clen,
            q <= i <= q + clen <= buf@.len(),
            cmd_bytes@ == buf@.subrange(q as int, i as int),
        decreases end - i,
    {
        cmd_bytes.push(buf[i]);
        i = i + 1;
        assert(cmd_bytes@ =~= buf@.subrange(q as int, i as int));
    }
    let cmd = match string_from_utf8(cmd_bytes) {
        Some(c) => c,
        None => return Err(CommonError::InvalidUtf8),
    };
    proof {
        encode_utf8_decode_utf8(cmd@);
    }
    if n - end < 8 {
        return Err(CommonError::UnexpectedEof);
    }
    let flag = read_be32(buf, end + 4) as i32;
    assert(sso_head(buf@) == Ok::<(u32, u32, Seq<char>, i32), CommonError>((head_len, seq, cmd@, flag)));
    Ok((head_len, seq, cmd, flag))
}

/// Whether `parse_sso` reads `buf` without fault (see `sso_safe`).
pub fn sso_decodable(buf: &[u8]) -> (b: bool)
    ensures
        b == sso_safe(buf@),
{
    let n: usize = buf.len();
    match read_sso_head(buf) {
        Err(_) => true,
        Ok((head_len, _, _, flag)) => {
            let hl = head_len as usize;
            if flag == 0 || flag == 1 {
                hl <= n && n - hl >= 4
            } else if flag == 8 {
                hl <= n
            } else {
                true
            }
        },
    }
}

/// Reads an SSO reply: its sequence number, command and payload (see `sso_head`). The payload
/// follows the head as it is for flag 0, from the head's length field on for flag 8, and
/// inflated from a zlib stream for flag 1; any other flag is an error.
pub fn parse_sso(buf: &[u8]) -> (r: Result<(u32, String, Vec<u8>), CommonError>)
    requires
        sso_safe(buf@),
    ensures
        match sso_head(buf@) {
            Err(e) => r == Err::<(u32, String, Vec<u8>), CommonError>(e),
            Ok((head_len, seq, cmd, flag)) => {
                if flag == 0 {
                    r matches Ok((s, c, p)) && s == seq && c@ == cmd && p@ == buf@.subrange(head_len + 4, buf@.len() as int)
                } else if flag == 8 {
                    r matches Ok((s, c, p)) && s == seq && c@ == cmd && p@ == buf@.subrange(head_len as int, buf@.len() as int)
                } else if flag == 1 {
                    match r {
                        Ok((s, c, p)) => s == seq && c@ == cmd
                            && is_start_of(p@, zlib_inflated(buf@.subrange(head_len + 4, buf@.len() as int))),
                        Err(e) => e == CommonError::DecompressBufError || e == CommonError::DecompressStreamEnd || e == CommonError::DecompressFailed,
                    }
                } else {
                    r == Err::<(u32, String, Vec<u8>), CommonError>(CommonError::UnknownCompressedFlag(flag))
                }
            },
        },
{
    let n: usize = buf.len();
    let (head_len, seq, cmd, flag) = match read_sso_head(buf) {
        Ok(h) => h,
        Err(e) => return Err(e),
    };
    let hl = head_len as usize;

    if flag == 0 {
        let mut payload: Vec<u8> = Vec::new();
        copy_tail(buf, hl + 4, &mut payload);
        Ok((seq, cmd, payload))
    } else if flag == 8 {
        let mut payload: Vec<u8> = Vec::new();
        copy_tail(buf, hl, &mut payload);
        Ok((seq, cmd, payload))
    } else if flag == 1 {
        let mut compressed: Vec<u8> = Vec::new();
        copy_tail(buf, hl + 4, &mut compressed);
        let room = n - hl - 4;
        let capacity = if room <= usize::MAX - 512 { room + 512 } else { usize::MAX };
        let mut decompressed: Vec<u8> = Vec::with_capacity(capacity);
        let status = inflate_fresh(compressed.as_slice(), &mut decompressed);
        match inflate_outcome(status, decompressed) {
            Ok(payload) => Ok((seq, cmd, payload)),
            Err(e) => Err(e),
        }
    } else {
        Err(CommonError::UnknownCompressedFlag(flag))
    }
}

/// Appends `s[from..]` to `out`.
fn copy_tail(s: &[u8], from: usize, out: &mut Vec<u8>)
    requires
        from <= s@.len(),
    ensures
        final(out)@ == old(out)@ + s@.subrange(from as int, s@.len() as int),
{
    let mut i = from;
    while i < s.len()
        invariant
            from <= i <= s@.len(),
            out@ == old(out)@ + s@.subrange(from as int, i as int),
        decreases s@.len() - i,
    {
        out.push(s[i]);
        i = i + 1;
        assert(out@ =~= old(out)@ + s@.subrange(from as int, i as int));
    }
}

/// The body of a packet: it starts at byte 6 plus the offset held at bytes 6 to 10.
pub open spec fn packet_body(packet: Seq<u8>) -> Seq<u8> {
    packet.subrange(be32_at(packet, 6) + 6, packet.len() as int)
}

/// The key a packet's flag says its body is sealed with: none for 0, the session key for 1,
/// the zero key for 2.
pub open spec fn packet_key(data: DataCenter, flag: u8) -> Seq<u8> {
    if flag == 1 { data.sig.d2key@ } else { zeros(16) }
}

/// The body of a packet opened by its flag.
pub open spec fn packet_opened(data: DataCenter, packet: Seq<u8>) -> Result<Seq<u8>, CommonError> {
    let flag = packet[4];
    if flag == 0 {
        Ok(packet_body(packet))
    } else if flag == 1 || flag == 2 {
        match tea_decrypt(packet_body(packet), packet_key(data, flag)) {
            Ok(d) => Ok(d),
            Err(e) => Err(CommonError::Tea(e)),
        }
    } else {
        Err(CommonError::UnknownFlag(flag))
    }
}

/// The packets that `decode_packet` reads without fault: the flag and the offset are there, the
/// body starts within the packet, its decryption is one `decrypt` handles, and the opened body
/// is a reply `parse_sso` handles.
pub open spec fn packet_safe(data: DataCenter, packet: Seq<u8>) -> bool {
    &&& packet.len() >= 10
    &&& be32_at(packet, 6) + 6 <= packet.len()
    &&& (packet[4] == 1 || packet[4] == 2) ==> tea_decrypt_safe(packet_body(packet), packet_key(data, packet[4]))
    &&& packet_opened(data, packet) matches Ok(d) ==> sso_safe(d)
}

/// Reads a packet from the server: opens its body by its flag and reads the SSO reply in it
/// (see `packet_opened` and `parse_sso`).
pub fn decode_packet(data: &DataCenter, packet: &[u8]) -> (r: Result<(u32, String, Vec<u8>), CommonError>)
    requires
        packet_safe(*data, packet@),
    ensures
        match packet_opened(*data, packet@) {
            Err(e) => r == Err::<(u32, String, Vec<u8>), CommonError>(e),
            Ok(d) => match sso_head(d) {
                Err(e) => r == Err::<(u32, String, Vec<u8>), CommonError>(e),
                Ok((head_len, seq, cmd, flag)) => {
                    if flag == 0 {
                        r matches Ok((s, c, p)) && s == seq && c@ == cmd && p@ == d.subrange(head_len + 4, d.len() as int)
                    } else if flag == 8 {
                        r matches Ok((s, c, p)) && s == seq && c@ == cmd && p@ == d.subrange(head_len as int, d.len() as int)
                    } else if flag == 1 {
                        match r {
                            Ok((s, c, p)) => s == seq && c@ == cmd
                                && is_start_of(p@, zlib_inflated(d.subrange(head_len + 4, d.len() as int))),
                            Err(e) => e == CommonError::DecompressBufError || e == CommonError::DecompressStreamEnd || e == CommonError::DecompressFailed,
                        }
                    } else {
                        r == Err::<(u32, String, Vec<u8>), CommonError>(CommonError::UnknownCompressedFlag(flag))
                    }
                },
            },
        },
{
    let flag = packet[4];
    let offset = read_be32(packet, 6) as usize;
    let mut body: Vec<u8> = Vec::new();
    copy_tail(packet, offset + 6, &mut body);
    assert(body@ =~= packet_body(packet@));
    let opened = if flag == 0 {
        body
    } else if flag == 1 {
        match decrypt(body.as_slice(), &data.sig.d2key) {
            Ok(d) => d,
            Err(e) => return Err(CommonError::Tea(e)),
        }
    } else if flag == 2 {
        let zero = [0u8; 16];
        assert(zero@ =~= zeros(16));
        match decrypt(body.as_slice(), &zero) {
            Ok(d) => d,
            Err(e) => return Err(CommonError::Tea(e)),
        }
    } else {
        return Err(CommonError::UnknownFlag(flag));
    };
    parse_sso(opened.as_slice())
}

/// Whether `decode_packet` reads `packet` without fault (see `packet_safe`).
pub fn packet_decodable(data: &DataCenter, packet: &[u8]) -> (b: bool)
    ensures
        b == packet_safe(*data, packet@),
{
    let n: usize = packet.len();
    if n < 10 {
        return false;
    }
    let offset = read_be32(packet, 6) as usize;
    if offset > n - 6 {
        return false;
    }
    let flag = packet[4];
    let mut body: Vec<u8> = Vec::new();
    copy_tail(packet, offset + 6, &mut body);
    assert(body@ =~= packet_body(packet@));
    if flag == 0 {
        sso_decodable(body.as_slice())
    } else if flag == 1 || flag == 2 {
        let zero = [0u8; 16];
        assert(zero@ =~= zeros(16));
        let key = if flag == 1 { &data.sig.d2key } else { &zero };
        if !decryptable(body.as_slice(), key) {
            return false;
        }
        match decrypt(body.as_slice(), key) {
            Ok(d) => sso_decodable(d.as_slice()),
            Err(_) => true,
        }
    } else {
        true
    }
}

/// Whether `parse_server_list` reads `response` without fault (see `server_list_safe`).
pub fn server_list_decodable(response: &[u8]) -> (b: bool)
    ensures
        b == server_list_safe(response@),
{
    let key = update_server_key_bytes();
    if !decryptable(response, &key) {
        return false;
    }
    match decrypt(response, &key) {
        Ok(d) => d.len() >= 4,
        Err(_) => true,
    }
}

/// The next whole packet at the front of received bytes, and the bytes after it: when more
/// than four bytes are there and the length at their front (which counts itself) is all there,
/// the packet is what follows the length (nothing where the length is below 4).
pub open spec fn frame_of(buf: Seq<u8>) -> Option<(Seq<u8>, Seq<u8>)> {
    if buf.len() > 4 && be32_at(buf, 0) <= buf.len() {
        let len = be32_at(buf, 0) as int;
        Some((buf.subrange(if len < 4 { len } else { 4 }, len), buf.subrange(len, buf.len() as int)))
    } else {
        None
    }
}

/// A packet sent after its length is taken back off the stream whole, whatever follows it,
/// where the packet is not empty and its length fits the 32-bit field.
pub proof fn lemma_frame_of_framed(packet: Seq<u8>, rest: Seq<u8>)
    requires
        packet.len() > 0,
        packet.len() + 4 < 0x1_0000_0000,
    ensures
        frame_of(be_u32((packet.len() + 4) as u32) + packet + rest) == Some((packet, rest)),
{
    let n = (packet.len() + 4) as u32;
    let s = be_u32(n) + packet + rest;
    assert(s.subrange(0, 4) =~= be_u32(n));
    lemma_be32_at_be_u32(s, 0, n);
    assert(s.subrange(4, n as int) =~= packet);
    assert(s.subrange(n as int, s.len() as int) =~= rest);
}

/// Takes the next whole packet off the front of the received bytes: when more than four bytes
/// are there and the length at their front (which counts itself) is all there, those bytes
/// leave the buffer and the packet is what follows the length; otherwise nothing changes.
pub fn next_frame(ready: &mut Vec<u8>) -> (packet: Option<Vec<u8>>)
    ensures
        match frame_of(old(ready)@) {
            Some((p, rest)) => packet matches Some(q) && q@ == p && final(ready)@ == rest,
            None => packet is None && final(ready)@ == old(ready)@,
        },
{
    if ready.len() <= 4 {
        return None;
    }
    let len = read_be32(ready.as_slice(), 0) as usize;
    if ready.len() < len {
        return None;
    }
    let start = if len < 4 { len } else { 4 };
    let mut packet: Vec<u8> = Vec::new();
    let mut i = start;
    while i < len
        invariant
            start <= i <= len <= ready@.len(),
            ready@ == old(ready)@,
            packet@ == ready@.subrange(start as int, i as int),
        decreases len - i,
    {
        packet.push(ready[i]);
        i = i + 1;
        assert(packet@ =~= ready@.subrange(start as int, i as int));
    }
    let mut rest: Vec<u8> = Vec::new();
    copy_tail(ready.as_slice(), len, &mut rest);
    *ready = rest;
    Some(packet)
}

/// The key that seals the server list exchange.
pub open spec fn update_server_key() -> Seq<u8> {
    seq![0xf0u8, 0x44, 0x1f, 0x5f, 0xf4, 0x2d, 0xa5, 0x8f, 0xdc, 0xf7, 0x94, 0x9a, 0xba, 0x62, 0xd4, 0x11]
}

/// The request of the server list, as it is sent.
pub open spec fn update_server_request() -> Seq<u8> {
    seq![0x0au8, 0x1c, 0x2c, 0x30, 0x01, 0x46, 0x05, 0x30, 0x30, 0x30, 0x30, 0x30, 0x50, 0x64, 0x62,
        0x20, 0x02, 0xf6, 0x1d, 0x76, 0x0f, 0x33, 0x35, 0x36, 0x32, 0x33, 0x35, 0x30, 0x38, 0x38,
        0x36, 0x33, 0x34, 0x31, 0x35, 0x31, 0x8c, 0x9c, 0xac, 0xbc, 0xcc, 0xdc, 0xe0, 0x01, 0x0b]
}

fn update_server_key_bytes() -> (k: [u8; 16])
    ensures
        k@ == update_server_key(),
{
    let k = [0xf0u8, 0x44, 0x1f, 0x5f, 0xf4, 0x2d, 0xa5, 0x8f, 0xdc, 0xf7, 0x94, 0x9a, 0xba, 0x62, 0xd4, 0x11];
    assert(k@ =~= update_server_key());
    k
}

/// The body of the server list request: the wrapped request after its length (which counts
/// itself), sealed with the server list key.
pub open spec fn server_list_body() -> Seq<u8> {
    let wrapped = encode_fields(wrapper_fields(seq![("HttpServerListReq"@, JceValue::SimpleList(update_server_request()))],
        "ConfigHttp"@, "HttpServerListReq"@, 0));
    tea_encrypt(super::base_client::with_length(wrapped), update_server_key())
}

/// Builds the body of the server list request (see `server_list_body`).
pub fn server_list_request() -> (body: Vec<u8>)
    ensures
        body@ == server_list_body(),
{
    let request = vec![0x0au8, 0x1c, 0x2c, 0x30, 0x01, 0x46, 0x05, 0x30, 0x30, 0x30, 0x30, 0x30, 0x50, 0x64, 0x62,
        0x20, 0x02, 0xf6, 0x1d, 0x76, 0x0f, 0x33, 0x35, 0x36, 0x32, 0x33, 0x35, 0x30, 0x38, 0x38,
        0x36, 0x33, 0x34, 0x31, 0x35, 0x31, 0x8c, 0x9c, 0xac, 0xbc, 0xcc, 0xdc, 0xe0, 0x01, 0x0b];
    assert(request@ =~= update_server_request());
    let map = vec![(String::from_str("HttpServerListReq"), JceElement::SimpleList(request))];
    proof {
        lemma_map_view(map@);
        assert(map_view(map@) =~= seq![("HttpServerListReq"@, JceValue::SimpleList(update_server_request()))]);
    }
    let wrapped = match encode_wrapper(map, "ConfigHttp", "HttpServerListReq", None) {
        Ok(w) => w,
        Err(_) => Vec::new(),
    };
    let mut payload: Vec<u8> = Vec::new();
    write_u32(&mut payload, (wrapped.len() as u32).wrapping_add(4));
    write_bytes(&mut payload, wrapped.as_slice());
    let key = update_server_key_bytes();
    let sealed = match encrypt(payload.as_slice(), &key) {
        Ok(s) => s,
        Err(_) => Vec::new(),
    };
    sealed
}


/// The 16-bit number a JCE value holds (`Zero`, `Int8`, `Int16`).
pub open spec fn as_i16(v: JceValue) -> Result<i16, super::jce::JceError> {
    match v {
        JceValue::Zero => Ok(0i16),
        JceValue::Int8(x) => Ok(x as i16),
        JceValue::Int16(x) => Ok(x),
        _ => Err(super::jce::JceError::NotInt16),
    }
}

/// A server of the list: a struct with its address at tag 1 and its port at tag 2.
pub open spec fn server_entry(v: JceValue) -> Result<(Seq<char>, u16), CommonError> {
    match v {
        JceValue::Struct(f) => match field_lookup(f, 1) {
            None => Err(CommonError::IllegalData),
            Some(a) => match as_key(a) {
                Err(e) => Err(CommonError::Jce(e)),
                Ok(addr) => match field_lookup(f, 2) {
                    None => Err(CommonError::IllegalData),
                    Some(p) => match as_i16(p) {
                        Err(e) => Err(CommonError::Jce(e)),
                        Ok(port) => Ok((addr, port as u16)),
                    },
                },
            },
        },
        _ => Err(CommonError::IllegalData),
    }
}

/// The servers of a list in order, or the error of the first entry that is not one.
pub open spec fn server_entries(items: Seq<JceValue>) -> Result<Seq<(Seq<char>, u16)>, CommonError>
    decreases items.len(),
{
    if items.len() == 0 {
        Ok(Seq::empty())
    } else {
        match server_entries(items.drop_last()) {
            Err(e) => Err(e),
            Ok(list) => match server_entry(items.last()) {
                Err(e) => Err(e),
                Ok(entry) => Ok(list.push(entry)),
            },
        }
    }
}

/// The servers a server list reply names: decrypted with the server list key, read after four
/// bytes as a response wrapper whose struct holds the list at tag 2.
pub open spec fn server_list_of(response: Seq<u8>) -> Result<Seq<(Seq<char>, u16)>, CommonError> {
    match tea_decrypt(response, update_server_key()) {
        Err(e) => Err(CommonError::Tea(e)),
        Ok(d) => match jce_decode_wrapper(d.subrange(4, d.len() as int)) {
            Err(e) => Err(CommonError::Jce(e)),
            Ok(JceValue::Struct(f)) => match field_lookup(f, 2) {
                Some(JceValue::List(items)) => server_entries(items),
                _ => Err(CommonError::IllegalData),
            },
            Ok(_) => Err(CommonError::IllegalData),
        },
    }
}

/// The replies that `parse_server_list` reads without fault.
pub open spec fn server_list_safe(response: Seq<u8>) -> bool {
    &&& tea_decrypt_safe(response, update_server_key())
    &&& tea_decrypt(response, update_server_key()) matches Ok(d) ==> d.len() >= 4
}

/// The servers as texts and ports.
pub open spec fn servers_view(list: Seq<(String, u16)>) -> Seq<(Seq<char>, u16)> {
    Seq::new(list.len(), |i: int| (list[i].0@, list[i].1))
}

fn server_of(e: JceElement) -> (r: Result<(String, u16), CommonError>)
    ensures
        match r {
            Ok((a, p)) => server_entry(e@) == Ok::<(Seq<char>, u16), CommonError>((a@, p)),
            Err(x) => server_entry(e@) == Err::<(Seq<char>, u16), CommonError>(x),
        },
{
    match e {
        JceElement::StructBegin(mut o) => {
            let a = match o.remove(1) {
                Some(a) => a,
                None => return Err(CommonError::IllegalData),
            };
            let addr = match a.try_into_string() {
                Ok(s) => s,
                Err(x) => return Err(CommonError::Jce(x)),
            };
            proof {
                super::jce::lemma_lookup_after_remove(e@->Struct_0, 1, 2);
            }
            let p = match o.remove(2) {
                Some(p) => p,
                None => return Err(CommonError::IllegalData),
            };
            match p.try_into_i16() {
                Ok(port) => Ok((addr, port as u16)),
                Err(x) => Err(CommonError::Jce(x)),
            }
        },
        _ => Err(CommonError::IllegalData),
    }
}

/// Reads the servers of a server list reply (see `server_list_of`).
pub fn parse_server_list(response: &[u8]) -> (r: Result<Vec<(String, u16)>, CommonError>)
    requires
        server_list_safe(response@),
    ensures
        match r {
            Ok(list) => server_list_of(response@) == Ok::<Seq<(Seq<char>, u16)>, CommonError>(servers_view(list@)),
            Err(e) => server_list_of(response@) == Err::<Seq<(Seq<char>, u16)>, CommonError>(e),
        },
{
    let key = update_server_key_bytes();
    let decrypted = match decrypt(response, &key) {
        Ok(d) => d,
        Err(e) => return Err(CommonError::Tea(e)),
    };
    let mut body: Vec<u8> = Vec::new();
    copy_tail(decrypted.as_slice(), 4, &mut body);
    let nested = match decode_wrapper(body.as_slice()) {
        Ok(n) => n,
        Err(e) => return Err(CommonError::Jce(e)),
    };
    let mut value = match nested {
        JceElement::StructBegin(v) => v,
        _ => return Err(CommonError::IllegalData),
    };
    let items = match value.remove(2) {
        Some(JceElement::List(items)) => items,
        _ => return Err(CommonError::IllegalData),
    };
    let ghost iv = list_view(items@);
    proof {
        lemma_list_view(items@);
    }
    let mut list: Vec<(String, u16)> = Vec::new();
    let mut rest = items;
    let ghost mut k: int = 0;
    assert(iv.subrange(0, 0) =~= Seq::<JceValue>::empty());
    assert(servers_view(list@) =~= Seq::<(Seq<char>, u16)>::empty());
    assert(iv.subrange(0, iv.len() as int) =~= iv);
    assert(server_list_of(response@) == server_entries(iv));
    while rest.len() > 0
        invariant
            server_list_of(response@) == server_entries(iv),
            0 <= k <= iv.len(),
            k + rest@.len() == iv.len(),
            list_view(rest@) == iv.subrange(k, iv.len() as int),
            server_entries(iv.subrange(0, k)) == Ok::<Seq<(Seq<char>, u16)>, CommonError>(servers_view(list@)),
        decreases rest@.len(),
    {
        proof {
            lemma_list_view(rest@);
        }
        let ghost before = rest@;
        assert(list_view(before)[0] == before[0]@);
        assert(iv.subrange(k, iv.len() as int)[0] == iv[k]);
        let e = rest.remove(0);
        proof {
            lemma_list_view(rest@);
            assert forall|j: int| 0 <= j < rest@.len() implies #[trigger] list_view(rest@)[j] == iv[k + 1 + j] by {
                assert(rest@[j] == before[j + 1]);
                assert(list_view(before)[j + 1] == before[j + 1]@);
                assert(iv.subrange(k, iv.len() as int)[j + 1] == iv[k + 1 + j]);
            }
            assert(list_view(rest@) =~= iv.subrange(k + 1, iv.len() as int));
            let t = iv.subrange(0, k + 1);
            assert(t.drop_last() =~= iv.subrange(0, k));
            assert(e == before[0]);
            assert(t.last() == e@);
        }
        match server_of(e) {
            Ok(entry) => {
                let ghost lb = list@;
                list.push(entry);
                assert(servers_view(list@) =~= servers_view(lb).push((entry.0@, entry.1)));
            },
            Err(x) => {
                proof {
                    lemma_server_entries_prefix_err(iv, k + 1);
                }
                return Err(x);
            },
        }
        proof {
            k = k + 1;
        }
    }
    assert(iv.subrange(0, k) =~= iv);
    Ok(list)
}

/// An entry that is not a server makes the whole list an error.
proof fn lemma_server_entries_prefix_err(items: Seq<JceValue>, k: int)
    requires
        0 < k <= items.len(),
        server_entries(items.subrange(0, k)) is Err,
    ensures
        server_entries(items) == server_entries(items.subrange(0, k)),
    decreases items.len() - k,
{
    if k < items.len() {
        let t = items.subrange(0, k + 1);
        assert(t.drop_last() =~= items.subrange(0, k));
        lemma_server_entries_prefix_err(items, k + 1);
        assert(items.subrange(0, items.len() as int) =~= items);
    } else {
        assert(items.subrange(0, k) =~= items);
    }
}

} // verus!
