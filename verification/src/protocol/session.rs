use vstd::prelude::*;

use std::time::SystemTime;

use super::base_client::{t119_applied, t119_fields, t119_safe, DataCenter, User};
use super::error::CommonError;
use super::helper::{current_unix_timestamp_as_secs, system_now};
use super::jce::{decode_wrapper, field_lookup, jce_decode_wrapper, JceElement, JceValue};
use super::login::{login_reply, reply_body};
use super::network::{be32_at, NetworkState};
use super::tea::{decrypt, decryptable, tea_decrypt_safe};
use super::tlv::{read_tlv, tlv_fields};
use super::writer::copy_range;

verus! {

// ---------------------------------------------------------------------------------------------
// The server's clock
// ---------------------------------------------------------------------------------------------

/// How far the server's clock is ahead of ours: the server's seconds, the first four bytes of
/// its answer read as a signed big-endian number, less ours; nothing where the answer is shorter
/// or the difference does not fit 64 bits.
pub open spec fn time_diff_of(response: Seq<u8>, now_secs: u64) -> Option<i64> {
    if response.len() < 4 {
        None
    } else {
        let d = (be32_at(response, 0) as i32) as int - now_secs as int;
        if i64::MIN <= d <= i64::MAX {
            Some(d as i64)
        } else {
            None
        }
    }
}

/// Reads the server's time from its answer to a time request (see `time_diff_of`).
pub fn time_diff_from(response: &[u8], now_secs: u64) -> (r: Option<i64>)
    ensures
        r == time_diff_of(response@, now_secs),
{
    if response.len() < 4 {
        return None;
    }
    let word: u32 = (response[0] as u32) * 0x100_0000 + (response[1] as u32) * 0x1_0000 + (response[2] as u32) * 0x100 + response[3] as u32;
    let server: i128 = (word as i32) as i128;
    let d: i128 = server - now_secs as i128;
    if d < -0x8000_0000_0000_0000 || d > 0x7fff_ffff_ffff_ffff {
        return None;
    }
    Some(d as i64)
}

impl DataCenter {
    /// Takes the server's time from its answer to a time request: the difference to the clock's
    /// seconds (see `time_diff_of`) becomes the session's `time_diff`. An answer shorter than
    /// four bytes changes nothing.
    pub fn sync_time_diff(&mut self, response: &[u8])
        ensures
            response@.len() < 4 ==> *final(self) == *old(self),
            exists|now: u64| match #[trigger] time_diff_of(response@, now) {
                Some(d) => *final(self) == (DataCenter { sig: super::base_client::SIG { time_diff: d, ..old(self).sig }, ..*old(self) }),
                None => *final(self) == *old(self),
            },
    {
        let now = current_unix_timestamp_as_secs();
        match time_diff_from(response, now) {
            Some(d) => {
                self.sig.time_diff = d;
            },
            None => {},
        }
        assert(match time_diff_of(response@, now) {
            Some(d) => *self == (DataCenter { sig: super::base_client::SIG { time_diff: d, ..old(self).sig }, ..*old(self) }),
            None => *self == *old(self),
        });
    }
}

// ---------------------------------------------------------------------------------------------
// Registration
// ---------------------------------------------------------------------------------------------

/// What the answer to a registration says: the value it carries must be a struct whose field 9
/// is an 8-bit integer; a non-zero one registers the session, and so does a zero one when the
/// registration renews a session. `false` means the session's token was refused.
pub open spec fn register_reply(response: Seq<u8>, refresh: bool) -> Result<bool, CommonError> {
    match jce_decode_wrapper(response) {
        Err(e) => Err(CommonError::Jce(e)),
        Ok(JceValue::Struct(f)) => match field_lookup(f, 9) {
            Some(JceValue::Int8(e)) => Ok(e != 0 || refresh),
            _ => Err(CommonError::IllegalData),
        },
        Ok(_) => Err(CommonError::IllegalData),
    }
}

/// Reads the answer to a registration (see `register_reply`): `Ok(true)` when the session is
/// registered, `Ok(false)` when its token was refused.
pub fn registration_result(response: &[u8], refresh: bool) -> (r: Result<bool, CommonError>)
    ensures
        r == register_reply(response@, refresh),
{
    let rsp = match decode_wrapper(response) {
        Ok(e) => e,
        Err(e) => return Err(CommonError::Jce(e)),
    };
    match rsp {
        JceElement::StructBegin(value) => {
            match value.get(9) {
                Some(JceElement::Int8(e)) => Ok(*e != 0 || refresh),
                _ => Err(CommonError::IllegalData),
            }
        },
        _ => Err(CommonError::IllegalData),
    }
}

// ---------------------------------------------------------------------------------------------
// Heartbeats
// ---------------------------------------------------------------------------------------------

/// What follows a heartbeat.
#[derive(Debug, Clone, Copy, PartialEq, Eq, Structural)]
pub enum BeatStep {
    /// The server answered: the token is renewed if it is due.
    Refresh,
    /// No answer: beat again.
    Retry,
    /// No answer twice in a row: the connection is lost.
    Lost,
}

/// The heartbeats of a registered session: how many in a row went unanswered.
#[derive(Debug)]
pub struct Heartbeater {
    pub retried: u8,
}

impl Heartbeater {
    /// No heartbeat missed yet.
    pub fn new() -> (h: Self)
        ensures
            h.retried == 0,
    {
        Heartbeater { retried: 0 }
    }

    /// Counts a heartbeat: an answer clears the count and leads to the token's renewal; a
    /// missing one is counted, and the second in a row loses the connection.
    pub fn after_beat(&mut self, answered: bool) -> (s: BeatStep)
        requires
            !answered ==> old(self).retried < 255,
        ensures
            answered ==> final(self).retried == 0 && s == BeatStep::Refresh,
            !answered ==> final(self).retried == old(self).retried + 1
                && (s == BeatStep::Lost <==> final(self).retried >= 2)
                && (s == BeatStep::Retry <==> final(self).retried < 2),
    {
        if answered {
            self.retried = 0;
            BeatStep::Refresh
        } else {
            self.retried = self.retried + 1;
            if self.retried >= 2 {
                BeatStep::Lost
            } else {
                BeatStep::Retry
            }
        }
    }

    /// The error a lost connection is reported with.
    pub fn lost_error() -> (e: CommonError)
        ensures
            e == CommonError::ConnectionLost,
    {
        CommonError::ConnectionLost
    }
}

/// Whether the session's tickets are due for renewal at `now_secs`: 14000 seconds or more after
/// they were last given.
pub fn refresh_due_at(now_secs: u64, emp_time: u64) -> (b: bool)
    requires
        emp_time <= now_secs,
    ensures
        b == (now_secs - emp_time >= 14000),
{
    now_secs - emp_time >= 14000
}

/// The answers to a renewal that `decode_refresh_response` reads without fault.
pub open spec fn refresh_response_safe(data: DataCenter, payload: Seq<u8>) -> bool {
    &&& payload.len() >= 17
    &&& tea_decrypt_safe(reply_body(payload), data.ecdh.share_key@)
    &&& login_reply(data, payload) matches Ok((typee, m)) ==> ((typee == 0 && m.contains_key(0x119)) ==> t119_safe(data, m[0x119]))
}

impl DataCenter {
    /// Whether `decode_refresh_response` reads `payload` without fault (see
    /// `refresh_response_safe`).
    pub fn refresh_response_decodable(&self, payload: &[u8]) -> (b: bool)
        ensures
            b == refresh_response_safe(*self, payload@),
    {
        broadcast use vstd::std_specs::hash::group_hash_axioms;
        let n: usize = payload.len();
        if n < 17 {
            return false;
        }
        let body = copy_range(payload, 16, n - 1);
        if !decryptable(body.as_slice(), &self.ecdh.share_key) {
            return false;
        }
        let decrypted = match decrypt(body.as_slice(), &self.ecdh.share_key) {
            Ok(d) => d,
            Err(_) => return true,
        };
        if decrypted.len() < 3 {
            return true;
        }
        let typee = decrypted[2];
        let fields = if decrypted.len() >= 5 {
            copy_range(decrypted.as_slice(), 5, decrypted.len())
        } else {
            Vec::new()
        };
        let t = match read_tlv(fields.as_slice()) {
            Ok(m) => m,
            Err(_) => return true,
        };
        let ghost mv = tlv_fields(fields@)->Ok_0;
        assert(login_reply(*self, payload@) == Ok::<(u8, Map<u16, Seq<u8>>), CommonError>((typee, mv)));
        if typee != 0 {
            return true;
        }
        match t.get(&0x119) {
            Some(v) => self.t119_decodable(v.as_slice()),
            None => true,
        }
    }
}

impl DataCenter {
    /// Whether the session's tickets are due for renewal at `now_secs` (see `refresh_due_at`);
    /// `None` when `now_secs` lies before the time the tickets were given.
    pub fn token_refresh_due(&self, now_secs: u64) -> (r: Option<bool>)
        ensures
            r == if now_secs < self.sig.emp_time { None } else { Some(now_secs - self.sig.emp_time >= 14000) },
    {
        if now_secs < self.sig.emp_time {
            return None;
        }
        Some(refresh_due_at(now_secs, self.sig.emp_time))
    }

    /// Reads the answer to a renewal of the tickets: a reply of type 0 carries new tickets in
    /// field 0x119, read as `decode_t119` reads them (the account comes back); a reply of
    /// another type changes nothing.
    pub fn decode_refresh_response(&mut self, payload: &[u8]) -> (r: Result<Option<User>, CommonError>)
        requires
            refresh_response_safe(*old(self), payload@),
        ensures
            match login_reply(*old(self), payload@) {
                Err(e) => r == Err::<Option<User>, CommonError>(e) && *final(self) == *old(self),
                Ok((typee, m)) => if typee != 0 {
                    r matches Ok(None) && *final(self) == *old(self)
                } else if !m.contains_key(0x119) {
                    r == Err::<Option<User>, CommonError>(CommonError::TagNotExisted(0x119)) && *final(self) == *old(self)
                } else {
                    match t119_fields(*old(self), m[0x119]) {
                        Err(e) => r == Err::<Option<User>, CommonError>(e) && *final(self) == *old(self),
                        Ok(f) => exists|secs: u64, u: Result<User, CommonError>| {
                            &&& #[trigger] t119_applied(*old(self), *final(self), f, secs, u)
                            &&& match u {
                                Ok(user) => r matches Ok(Some(x)) && x == user,
                                Err(e) => r == Err::<Option<User>, CommonError>(e),
                            }
                        },
                    }
                },
            },
    {
        broadcast use vstd::std_specs::hash::group_hash_axioms;
        let n: usize = payload.len();
        let body = copy_range(payload, 16, n - 1);
        let decrypted = match decrypt(body.as_slice(), &self.ecdh.share_key) {
            Ok(d) => d,
            Err(e) => return Err(CommonError::Tea(e)),
        };
        if decrypted.len() < 3 {
            return Err(CommonError::UnexpectedEof);
        }
        let typee = decrypted[2];
        let fields = if decrypted.len() >= 5 {
            copy_range(decrypted.as_slice(), 5, decrypted.len())
        } else {
            Vec::new()
        };
        let mut t = match read_tlv(fields.as_slice()) {
            Ok(m) => m,
            Err(e) => return Err(CommonError::Tlv(e)),
        };
        let ghost mv = tlv_fields(fields@)->Ok_0;
        assert(login_reply(*old(self), payload@) == Ok::<(u8, Map<u16, Seq<u8>>), CommonError>((typee, mv)));
        if typee != 0 {
            return Ok(None);
        }
        let t119 = match t.remove(&0x119) {
            Some(v) => v,
            None => return Err(CommonError::TagNotExisted(0x119)),
        };
        assert(t119@ == mv[0x119]);
        let secs = current_unix_timestamp_as_secs();
        let u = self.decode_t119_at(t119.as_slice(), secs);
        match u {
            Ok(user) => Ok(Some(user)),
            Err(e) => Err(e),
        }
    }
}

// ---------------------------------------------------------------------------------------------
// The connection
// ---------------------------------------------------------------------------------------------

/// Counters of a client's traffic.
#[derive(Debug)]
pub struct Statistics {
    pub lost_pkt_cnt: usize,
    pub lost_times: usize,
    pub msg_cnt_per_min: usize,
    pub recv_msg_cnt: usize,
    pub recv_pkt_cnt: usize,
    /// The address of the server, as text, while connected.
    pub remote_socket_addr: Option<String>,
    pub sent_msg_cnt: usize,
    pub sent_pkt_cnt: usize,
    pub start_time: SystemTime,
}

impl Statistics {
    /// All counters at 0, no server, started now.
    pub fn new() -> (s: Self)
        ensures
            s.lost_pkt_cnt == 0 && s.lost_times == 0 && s.msg_cnt_per_min == 0 && s.recv_msg_cnt == 0,
            s.recv_pkt_cnt == 0 && s.sent_msg_cnt == 0 && s.sent_pkt_cnt == 0,
            s.remote_socket_addr is None,
    {
        Statistics {
            start_time: system_now(),
            lost_times: 0,
            recv_pkt_cnt: 0,
            sent_pkt_cnt: 0,
            lost_pkt_cnt: 0,
            recv_msg_cnt: 0,
            sent_msg_cnt: 0,
            msg_cnt_per_min: 0,
            remote_socket_addr: None,
        }
    }

    /// Follows a change of the connection's state: a closed connection forgets the server, a
    /// lost one is counted (and the session must register again: the answer is `true`), a
    /// connected one keeps the server's address.
    pub fn on_state(&mut self, state: NetworkState, addr: Option<String>) -> (reregister: bool)
        requires
            state == NetworkState::Lost ==> old(self).lost_times < usize::MAX,
        ensures
            reregister == (state == NetworkState::Lost),
            final(self).lost_times == if state == NetworkState::Lost { old(self).lost_times + 1 } else { old(self).lost_times as int },
            final(self).remote_socket_addr == match state {
                NetworkState::Closed => None,
                NetworkState::Connected => addr,
                _ => old(self).remote_socket_addr,
            },
            final(self).lost_pkt_cnt == old(self).lost_pkt_cnt && final(self).msg_cnt_per_min == old(self).msg_cnt_per_min,
            final(self).recv_msg_cnt == old(self).recv_msg_cnt && final(self).recv_pkt_cnt == old(self).recv_pkt_cnt,
            final(self).sent_msg_cnt == old(self).sent_msg_cnt && final(self).sent_pkt_cnt == old(self).sent_pkt_cnt,
    {
        match state {
            NetworkState::Closed => {
                self.remote_socket_addr = None;
                false
            },
            NetworkState::Lost => {
                self.lost_times = self.lost_times + 1;
                true
            },
            NetworkState::Connecting => false,
            NetworkState::Connected => {
                self.remote_socket_addr = addr;
                false
            },
        }
    }
}

/// The state of the connection and whether it is being closed on purpose.
#[derive(Debug)]
pub struct Connection {
    pub state: NetworkState,
    pub close_manually: bool,
}

impl Connection {
    /// A closed connection.
    pub fn new() -> (c: Self)
        ensures
            c.state == NetworkState::Closed,
            !c.close_manually,
    {
        Connection { state: NetworkState::Closed, close_manually: false }
    }

    /// Starts to connect: only a closed connection can; it is then connecting, not closed on
    /// purpose. Any other state is refused with `AlreadyConnected`.
    pub fn begin_connect(&mut self) -> (r: Result<(), CommonError>)
        ensures
            old(self).state == NetworkState::Closed ==> r is Ok && final(self).state == NetworkState::Connecting && !final(self).close_manually,
            old(self).state != NetworkState::Closed ==> r == Err::<(), CommonError>(CommonError::AlreadyConnected) && *final(self) == *old(self),
    {
        if self.state == NetworkState::Closed {
            self.close_manually = false;
            self.state = NetworkState::Connecting;
            Ok(())
        } else {
            Err(CommonError::AlreadyConnected)
        }
    }

    /// The connection is open.
    pub fn connected(&mut self)
        ensures
            final(self).state == NetworkState::Connected,
            final(self).close_manually == old(self).close_manually,
    {
        self.state = NetworkState::Connected;
    }

    /// Starts to close: only an open connection can, and it is then closed on purpose; the
    /// state changes when reading ends. Any other state is refused with `NotConnected`.
    pub fn begin_disconnect(&mut self) -> (r: Result<(), CommonError>)
        ensures
            old(self).state == NetworkState::Connected ==> r is Ok && final(self).close_manually && final(self).state == old(self).state,
            old(self).state != NetworkState::Connected ==> r == Err::<(), CommonError>(CommonError::NotConnected) && *final(self) == *old(self),
    {
        if self.state == NetworkState::Connected {
            self.close_manually = true;
            Ok(())
        } else {
            Err(CommonError::NotConnected)
        }
    }

    /// Reading from the server ended: the connection is closed, and lost unless it was closed
    /// on purpose. The states are given in the order they are announced.
    pub fn reader_ended(&mut self) -> (events: Vec<NetworkState>)
        ensures
            !old(self).close_manually ==> events@ == seq![NetworkState::Closed, NetworkState::Lost] && final(self).state == NetworkState::Lost,
            old(self).close_manually ==> events@ == seq![NetworkState::Closed] && final(self).state == NetworkState::Closed,
            final(self).close_manually == old(self).close_manually,
    {
        let mut events: Vec<NetworkState> = Vec::new();
        self.state = NetworkState::Closed;
        events.push(NetworkState::Closed);
        if !self.close_manually {
            self.state = NetworkState::Lost;
            events.push(NetworkState::Lost);
        }
        events
    }

    /// Whether a request can be written: only on an open connection, else `NotConnected`.
    pub fn check_connected(&self) -> (r: Result<(), CommonError>)
        ensures
            r is Ok <==> self.state == NetworkState::Connected,
            r is Err ==> r == Err::<(), CommonError>(CommonError::NotConnected),
    {
        if self.state == NetworkState::Connected {
            Ok(())
        } else {
            Err(CommonError::NotConnected)
        }
    }
}

// ---------------------------------------------------------------------------------------------
// Which server to connect to
// ---------------------------------------------------------------------------------------------

/// The server connected to when no list is at hand.
pub open spec fn default_server() -> (Seq<char>, u16) {
    ("msfwifi.3g.qq.com"@, 8080u16)
}

/// The servers known, and when (seconds since the epoch) the list was last fetched.
#[derive(Debug)]
pub struct ServerDirectory {
    pub server_list: Vec<(String, u16)>,
    pub last_update: Option<u64>,
    pub auto_search: bool,
}

impl ServerDirectory {
    /// No server known, to be looked up.
    pub fn new() -> (d: Self)
        ensures
            d.server_list@.len() == 0,
            d.last_update is None,
            d.auto_search,
    {
        ServerDirectory { server_list: Vec::new(), last_update: None, auto_search: true }
    }

    /// Whether the list is to be fetched again at `now_secs`: when servers are looked up and
    /// the list was never fetched or an hour or more ago (a clock that went back counts as an
    /// hour).
    pub fn needs_update(&self, now_secs: u64) -> (b: bool)
        ensures
            b == (self.auto_search && match self.last_update {
                None => true,
                Some(t) => now_secs < t || now_secs - t >= 3600,
            }),
    {
        if !self.auto_search {
            return false;
        }
        match self.last_update {
            None => true,
            Some(t) => now_secs < t || now_secs - t >= 3600,
        }
    }

    /// Takes a fetched list: a non-empty one replaces the known one and is dated `now_secs`; an
    /// empty one changes nothing.
    pub fn accept(&mut self, list: Vec<(String, u16)>, now_secs: u64)
        ensures
            list@.len() > 0 ==> final(self).server_list@ == list@ && final(self).last_update == Some(now_secs),
            list@.len() == 0 ==> final(self).server_list@ == old(self).server_list@ && final(self).last_update == old(self).last_update,
            final(self).auto_search == old(self).auto_search,
    {
        if list.len() > 0 {
            self.server_list = list;
            self.last_update = Some(now_secs);
        }
    }

    /// The server to connect to: the first of the list when servers are looked up and the list
    /// is not empty, else the default one (see `default_server`).
    pub fn target(&self) -> (t: (String, u16))
        ensures
            (self.auto_search && self.server_list@.len() > 0) ==> t.0@ == self.server_list@[0].0@ && t.1 == self.server_list@[0].1,
            !(self.auto_search && self.server_list@.len() > 0) ==> t.0@ == default_server().0 && t.1 == default_server().1,
    {
        if self.auto_search && self.server_list.len() > 0 {
            let (addr, port) = &self.server_list[0];
            (addr.clone(), *port)
        } else {
            (String::from_str("msfwifi.3g.qq.com"), 8080)
        }
    }
}

} // verus!
