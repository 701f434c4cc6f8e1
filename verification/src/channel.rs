//! The upkeep of channels: how many sessions to open, when to look after them, and the login of a
//! session.

use bytes::BytesMut;
use vstd::prelude::*;
use crate::rmux::message;
use crate::rmux::crypto;
use crate::rmux::channel;
use crate::mux::event;
use crate::cipher;
use crate::buf;
use crate::config::ChannelConfig;
use crate::rmux::channel::{
    get_channel_session_size, random_between, ChannelSessionManager, ManagerView,
};
use crate::rmux::crypto::{encrypted_event, ContextView, CryptoContext};
use crate::rmux::event::{new_auth_event, Event, FLAG_AUTH};
use crate::rmux::message::{AuthRequest, AuthResponse, ResponseView};
use crate::text::same_text;

verus! {

/// How a connection to an address is made.
#[derive(Debug, PartialEq, Eq, Structural, Clone, Copy)]
pub enum Route {
    Direct,
    /// Over a session of the channel.
    Channel,
}

/// How connections over a channel of this name are made.
pub open spec fn route_of(channel: Seq<char>) -> Route {
    if channel == "direct"@ {
        Route::Direct
    } else {
        Route::Channel
    }
}

/// How connections over a channel are made.
pub fn channel_route(channel: &str) -> (r: Route)
    ensures
        r == route_of(channel@),
{
    if same_text(channel, "direct") {
        Route::Direct
    } else {
        Route::Channel
    }
}

/// How many sessions a channel has.
pub open spec fn session_count(m: ManagerView, name: Seq<char>) -> nat {
    match channel::channel_of(m, name) {
        Some(c) => c.ids.len(),
        None => 0,
    }
}

/// How many sessions of a channel are missing at this hour.
pub open spec fn missing(cfg: ChannelConfig, hour: u8, m: ManagerView) -> nat {
    let count = session_count(m, cfg.name@);
    if cfg.works_at(hour) && count < cfg.conns_per_host {
        (cfg.conns_per_host - count) as nat
    } else {
        0
    }
}

/// How many sessions the first `n` channels miss together.
pub open spec fn missing_before(cfgs: Seq<ChannelConfig>, hour: u8, m: ManagerView, n: nat) -> nat
    decreases n,
{
    if n == 0 {
        0
    } else {
        missing_before(cfgs, hour, m, (n - 1) as nat) + missing(cfgs[n - 1], hour, m)
    }
}

/// How many sessions to open for a channel.
pub fn sessions_to_open(cfg: &ChannelConfig, hour: u8, holder: &ChannelSessionManager) -> (n: u32)
    ensures
        n == missing(*cfg, hour, holder@),
{
    if !cfg.is_valid_hour(hour) {
        return 0;
    }
    let count: usize = get_channel_session_size(holder, cfg.name.as_str());
    if count < cfg.conns_per_host as usize {
        cfg.conns_per_host - count as u32
    } else {
        0
    }
}

/// The sessions to open: each with the position of its channel and its own number.
pub open spec fn plans_sessions(
    cfgs: Seq<ChannelConfig>,
    hour: u8,
    m: ManagerView,
    seed: u32,
    next: u32,
    r: Seq<(usize, u32)>,
) -> bool {
    &&& r.len() == missing_before(cfgs, hour, m, cfgs.len())
    &&& next == (seed + r.len()) % 0x1_0000_0000
    &&& forall|k: int|
        0 <= k < r.len() ==> {
            let (c, id) = #[trigger] r[k];
            &&& c < cfgs.len()
            &&& missing_before(cfgs, hour, m, c as nat) <= k < missing_before(
                cfgs,
                hour,
                m,
                (c + 1) as nat,
            )
            &&& id == (seed + k) % 0x1_0000_0000
        }
}

/// The sessions to open now, as the position of their channel and their own number: as many for
/// each channel as it misses, and the numbers one after the other.
pub fn plan_sessions(
    cfgs: &Vec<ChannelConfig>,
    hour: u8,
    holder: &ChannelSessionManager,
    session_id_seed: &mut u32,
) -> (r: Vec<(usize, u32)>)
    ensures
        plans_sessions(
            cfgs@,
            hour,
            holder@,
            *old(session_id_seed),
            *final(session_id_seed),
            r@,
        ),
{
    let ghost start: int = *session_id_seed as int;
    let mut plan: Vec<(usize, u32)> = Vec::new();
    let mut i: usize = 0;
    while i < cfgs.len()
        invariant
            i <= cfgs@.len(),
            plan@.len() == missing_before(cfgs@, hour, holder@, i as nat),
            *session_id_seed == (start + plan@.len()) % 0x1_0000_0000,
            forall|k: int|
                0 <= k < plan@.len() ==> {
                    let (c, id) = #[trigger] plan@[k];
                    &&& c < i
                    &&& missing_before(cfgs@, hour, holder@, c as nat) <= k < missing_before(
                        cfgs@,
                        hour,
                        holder@,
                        (c + 1) as nat,
                    )
                    &&& id == (start + k) % 0x1_0000_0000
                },
        decreases cfgs@.len() - i,
    {
        let n: u32 = sessions_to_open(&cfgs[i], hour, holder);
        let mut k: u32 = 0;
        while k < n
            invariant
                i < cfgs@.len(),
                k <= n,
                n == missing(cfgs@[i as int], hour, holder@),
                plan@.len() == missing_before(cfgs@, hour, holder@, i as nat) + k,
                *session_id_seed == (start + plan@.len()) % 0x1_0000_0000,
                forall|k: int|
                    0 <= k < plan@.len() ==> {
                        let (c, id) = #[trigger] plan@[k];
                        &&& c <= i
                        &&& missing_before(cfgs@, hour, holder@, c as nat) <= k < missing_before(
                            cfgs@,
                            hour,
                            holder@,
                            (c + 1) as nat,
                        )
                        &&& id == (start + k) % 0x1_0000_0000
                    },
            decreases n - k,
        {
            plan.push((i, *session_id_seed));
            *session_id_seed = session_id_seed.wrapping_add(1);
            k += 1;
        }
        i += 1;
    }
    plan
}

/// It is time to look after the sessions.
pub open spec fn is_due(now: u64, last: u64, jitter: i64) -> bool {
    now - last > 30 + jitter
}

/// Whether it is time to look after the sessions: `jitter` seconds more or less than half a
/// minute after the last time.
pub fn routine_due(now: u64, last: u64, jitter: i64) -> (r: bool)
    requires
        last <= now,
        -10 <= jitter < 10,
    ensures
        r == is_due(now, last, jitter),
{
    now - last > (30 + jitter) as u64
}

/// Whether to look after the sessions now; the exact time is left to chance.
pub fn routine_due_now(now: u64, last: u64) -> (r: bool)
    requires
        last <= now,
    ensures
        now - last <= 20 ==> !r,
        now - last > 39 ==> r,
{
    routine_due(now, last, random_between(-10, 10))
}

/// The encryption of a login: events are counted from zero.
pub open spec fn login_context(method: Seq<char>, key: Seq<char>, nonce: u64) -> ContextView {
    ContextView {
        cipher: crypto::cipher_of(method)->Some_0,
        key: cipher::padded(vstd::utf8::encode_utf8(key)),
        nonce,
        sealed: nonce,
        opened: nonce,
    }
}

/// The bytes with which a client starts a login: its method, under the key and from zero on.
pub open spec fn starts_login(method: Seq<char>, key: Seq<char>, sent: Seq<u8>) -> bool {
    let ev = event::event_of(FLAG_AUTH, 0, crate::mux::message::text_block(method));
    &&& sent == login_context(method, key, 0).frame(ev)
    &&& login_context(method, key, 0).frames(ev)
}

/// The start of a login: what to send, and the encryption of what comes back.
pub fn start_login(method: &str, key: &str) -> (r: (BytesMut, CryptoContext))
    requires
        crypto::cipher_of(method@) is Some,
    ensures
        starts_login(method@, key@, buf::buf_of(r.0)),
        r.1.wf(),
        r.1@ == login_context(method@, key@, 0),
{
    proof {
        reveal_strlit("aes128gcm");
        reveal_strlit("chacha20poly1305");
        reveal_strlit("none");
        assert(vstd::utf8::is_ascii_chars(method@));
        vstd::utf8::is_ascii_chars_encode_utf8(method@);
    }
    let auth = AuthRequest { method: method.to_owned() };
    let data = auth.to_bytes();
    let ev = new_auth_event(0, data.as_slice());
    let rctx = CryptoContext::new(method, key, 0);
    let mut wctx = CryptoContext::new(method, key, 0);
    (encrypted_event(&mut wctx, &ev), rctx)
}

/// Why a login failed.
#[derive(Debug, PartialEq, Eq, Structural, Clone, Copy)]
pub enum LoginError {
    /// "can NOT read first auth envent."
    NoAnswer,
    /// The answer cannot be read.
    BadAnswer,
    /// The server refused the connection.
    Refused,
}

/// What an answer to a login comes to: the number that both directions count from.
pub open spec fn login_outcome(answer: Option<Seq<u8>>) -> Result<u64, LoginError> {
    match answer {
        Some(body) => match message::response_in(body) {
            Some(res) => if res.success {
                Ok(res.rand)
            } else {
                Err(LoginError::Refused)
            },
            None => Err(LoginError::BadAnswer),
        },
        None => Err(LoginError::NoAnswer),
    }
}

/// The end of a login, given the body of the answer.
pub open spec fn ends_login(
    answer: Option<Seq<u8>>,
    method: Seq<char>,
    key: Seq<char>,
    r: Result<(CryptoContext, CryptoContext), LoginError>,
) -> bool {
    match login_outcome(answer) {
        Ok(rand) => {
            &&& r is Ok
            &&& r->Ok_0.0.wf() && r->Ok_0.1.wf()
            &&& r->Ok_0.0@ == login_context(method, key, rand)
            &&& r->Ok_0.1@ == login_context(method, key, rand)
        },
        Err(e) => r is Err && r->Err_0 == e,
    }
}

/// The end of a login: the encryption of the session, for reading and for writing.
pub fn finish_login(answer: Option<Event>, method: &str, key: &str) -> (r: Result<
    (CryptoContext, CryptoContext),
    LoginError,
>)
    requires
        crypto::cipher_of(method@) is Some,
    ensures
        ends_login(
            match answer {
                Some(ev) => Some(ev@.body),
                None => None,
            },
            method@,
            key@,
            r,
        ),
{
    let ev = match answer {
        Some(ev) => ev,
        None => {
            return Err(LoginError::NoAnswer);
        },
    };
    match AuthResponse::from_bytes(ev.body.as_slice()) {
        Some(res) => {
            if !res.success {
                return Err(LoginError::Refused);
            }
            let rctx = CryptoContext::new(method, key, res.rand);
            let wctx = CryptoContext::new(method, key, res.rand);
            Ok((rctx, wctx))
        },
        None => Err(LoginError::BadAnswer),
    }
}

/// The server refuses a login that it cannot read.
#[derive(Debug, PartialEq, Eq, Structural, Clone, Copy)]
pub struct PermissionDenied;

/// `rand::random`: some number.
#[verifier::external_body]
fn random_number() -> (r: u64) {
    rand::random::<u64>()
}

/// The answer to a login, given the number to count from: the client's cipher is taken as it is.
pub open spec fn granted(method: Seq<char>, rand: u64) -> ResponseView {
    ResponseView { success: true, err: Seq::empty(), rand, method }
}

/// The answer to a login: the event to send, and what it says.
pub open spec fn answers_login(
    request: Seq<u8>,
    rand: u64,
    r: Result<(Event, AuthResponse), PermissionDenied>,
) -> bool {
    match crate::mux::message::text_in(request) {
        Some((method, _)) => {
            &&& r is Ok
            &&& r->Ok_0.1@ == granted(method, rand)
            &&& r->Ok_0.0@ == event::event_of(FLAG_AUTH, 0, granted(method, rand).bytes())
        },
        None => r is Err,
    }
}

/// Answers a login with a given number to count from: the event to send, and what it says.
pub fn answer_login_with(request: &[u8], rand: u64) -> (r: Result<
    (Event, AuthResponse),
    PermissionDenied,
>)
    ensures
        answers_login(request@, rand, r),
{
    match AuthRequest::from_bytes(request) {
        Some(req) => {
            let res = AuthResponse {
                success: true,
                err: String::new(),
                rand,
                method: req.method,
            };
            assert(res@.err =~= Seq::empty());
            let data = res.to_bytes();
            Ok((new_auth_event(0, data.as_slice()), res))
        },
        None => Err(PermissionDenied),
    }
}

/// Answers a login; the number to count from is left to chance.
pub fn answer_login(request: &[u8]) -> (r: Result<(Event, AuthResponse), PermissionDenied>)
    ensures
        match crate::mux::message::text_in(request@) {
            Some((method, _)) => {
                &&& r is Ok
                &&& r->Ok_0.1@ == granted(method, r->Ok_0.1.rand)
                &&& r->Ok_0.0@ == event::event_of(FLAG_AUTH, 0, r->Ok_0.1@.bytes())
            },
            None => r is Err,
        },
{
    answer_login_with(request, random_number())
}

/// What the server answers, the client takes: both count from the same number.
pub proof fn login_is_agreed(method: Seq<char>, rand: u64)
    requires
        crate::mux::message::fits(method),
    ensures
        login_outcome(Some(granted(method, rand).bytes())) == Ok::<u64, LoginError>(rand),
{
    assert(vstd::utf8::encode_utf8(Seq::<char>::empty()).len() == 0);
    message::response_reads_back(granted(method, rand), Seq::empty());
    assert(granted(method, rand).bytes() + Seq::<u8>::empty() =~= granted(method, rand).bytes());
}

/// After a successful login both directions can be read by a peer that logged in with the same
/// cipher, key and number.
pub proof fn login_matches_the_peer(method: Seq<char>, key: Seq<char>, rand: u64)
    ensures
        crate::rmux::crypto::matched(
            login_context(method, key, rand),
            login_context(method, key, rand),
        ),
{
}

/// Opening what is missing fills a channel up to its number of sessions, and never beyond it: a
/// channel that has enough gets none, and outside its hours it gets none.
pub proof fn channel_is_filled_up(cfg: ChannelConfig, hour: u8, m: ManagerView)
    ensures
        ({
            let have = session_count(m, cfg.name@);
            let more = missing(cfg, hour, m);
            &&& more > 0 ==> have + more == cfg.conns_per_host
            &&& more > 0 ==> (cfg.work_time_frame matches Some(frame) ==> frame@[0] <= hour
                && hour < frame@[1])
            &&& more == 0 ==> have >= cfg.conns_per_host || (cfg.work_time_frame matches Some(
                frame,
            ) && !(frame@[0] <= hour && hour < frame@[1]))
        }),
{
}

/// The sessions to open for the first channels and for the next one add up.
pub proof fn every_channel_counts(cfgs: Seq<ChannelConfig>, hour: u8, m: ManagerView, n: nat)
    ensures
        missing_before(cfgs, hour, m, 0) == 0,
        missing_before(cfgs, hour, m, n + 1) == missing_before(cfgs, hour, m, n) + missing(
            cfgs[n as int],
            hour,
            m,
        ),
{
}

/// A login is answered with what it asked for: a text that names a cipher is granted that cipher,
/// and the answer, once read, says so, with the number that the server counts from.
pub proof fn login_is_granted_its_cipher(method: Seq<char>, rand: u64)
    requires
        crate::mux::message::fits(method),
    ensures
        crate::mux::message::text_in(crate::mux::message::text_block(method)) is Some,
        crate::mux::message::text_in(crate::mux::message::text_block(method))->Some_0.0 == method,
        message::response_in(granted(method, rand).bytes()) is Some,
        ({
            let r = message::response_in(granted(method, rand).bytes())->Some_0;
            r.success && r.method == method && r.rand == rand && r.err.len() == 0
        }),
{
    crate::mux::message::text_reads_back(method, Seq::empty());
    assert(crate::mux::message::text_block(method) + Seq::<u8>::empty()
        =~= crate::mux::message::text_block(method));
    assert(vstd::utf8::encode_utf8(Seq::<char>::empty()).len() == 0);
    message::response_reads_back(granted(method, rand), Seq::empty());
    assert(granted(method, rand).bytes() + Seq::<u8>::empty() =~= granted(method, rand).bytes());
}

/// A login comes to the server's number exactly when the answer is there, can be read and says
/// yes; each way to fail has its own error.
pub proof fn login_ends_as_it_was_answered(body: Seq<u8>)
    ensures
        login_outcome(None) == Err::<u64, LoginError>(LoginError::NoAnswer),
        message::response_in(body) is None ==> login_outcome(Some(body)) == Err::<u64, LoginError>(
            LoginError::BadAnswer,
        ),
        message::response_in(body) matches Some(r) ==> {
            &&& r.success ==> login_outcome(Some(body)) == Ok::<u64, LoginError>(r.rand)
            &&& !r.success ==> login_outcome(Some(body)) == Err::<u64, LoginError>(
                LoginError::Refused,
            )
        },
{
}

/// A session counts from the number that was agreed, both ways, and its key starts with the one
/// that was given.
pub proof fn session_counts_from_the_number(method: Seq<char>, key: Seq<char>, rand: u64)
    ensures
        ({
            let c = login_context(method, key, rand);
            let given = vstd::utf8::encode_utf8(key);
            &&& c.nonce == rand
            &&& c.sealed == rand
            &&& c.opened == rand
            &&& c.key.len() >= 32
            &&& c.key.take(given.len() as int) == given
        }),
{
    cipher::short_keys_are_filled_up(vstd::utf8::encode_utf8(key));
}

/// The whole of a login: what the client sends comes out at a server with the same key as its
/// method, the server's answer comes to the number that it drew, and with it the client ends up
/// with contexts that a peer with the same number matches.
pub proof fn login_goes_through(
    method: Seq<char>,
    key: Seq<char>,
    sent: Seq<u8>,
    server: ContextView,
    post: ContextView,
    left: Seq<u8>,
    came: Result<Event, crypto::DecryptError>,
    rand: u64,
    answer: Result<(Event, AuthResponse), PermissionDenied>,
    r: Result<(CryptoContext, CryptoContext), LoginError>,
)
    requires
        crypto::cipher_of(method) is Some,
        crate::mux::message::fits(method),
        crate::mux::message::text_block(method).len() < 0x100_0000,
        starts_login(method, key, sent),
        server == login_context(method, key, 0),
        crypto::decrypts(server, post, sent, left, came),
        came is Ok ==> answers_login(came->Ok_0@.body, rand, answer),
        answer is Ok ==> ends_login(Some(answer->Ok_0.0@.body), method, key, r),
    ensures
        came is Ok,
        left.len() == 0,
        came->Ok_0@.header().flag() == 6,
        crate::mux::message::text_in(came->Ok_0@.body) is Some,
        crate::mux::message::text_in(came->Ok_0@.body)->Some_0.0 == method,
        answer is Ok,
        answer->Ok_0.0@.header().flag() == 6,
        answer->Ok_0.1@.rand == rand,
        r is Ok,
        crypto::matched(r->Ok_0.0@, login_context(method, key, rand)),
        crypto::matched(login_context(method, key, rand), r->Ok_0.1@),
        r->Ok_0.1@.nonce == rand,
{
    let body = crate::mux::message::text_block(method);
    let ev = event::event_of(FLAG_AUTH, 0, body);
    let c = login_context(method, key, 0);
    assert(sent =~= c.frame(ev) + Seq::<u8>::empty());
    assert(crypto::arrives(sent, c, ev, Seq::empty()));
    assert(crypto::matched(c, server));
    event::pack_unpacks(body.len() as int, FLAG_AUTH, 0);
    crate::mux::message::text_reads_back(method, Seq::empty());
    assert(body + Seq::<u8>::empty() =~= body);
    let g = granted(method, rand).bytes();
    event::pack_unpacks(g.len() as int, FLAG_AUTH, 0);
    login_is_agreed(method, rand);
}

/// Only the channel that is named so is direct.
pub proof fn one_channel_is_direct(channel: Seq<char>)
    ensures
        route_of(channel) is Direct <==> channel == seq!['d', 'i', 'r', 'e', 'c', 't'],
{
    reveal_strlit("direct");
    assert("direct"@ =~= seq!['d', 'i', 'r', 'e', 'c', 't']);
}

/// Sessions are looked after not before twenty seconds have passed and at the latest after forty,
/// whatever the jitter, and what is due stays due.
pub proof fn sessions_are_looked_after_in_time(now: u64, later: u64, last: u64, jitter: i64)
    requires
        last <= now <= later,
        -10 <= jitter < 10,
    ensures
        now - last <= 20 ==> !is_due(now, last, jitter),
        now - last >= 40 ==> is_due(now, last, jitter),
        is_due(now, last, jitter) ==> is_due(later, last, jitter),
        jitter == 0 ==> (is_due(now, last, jitter) <==> now - last > 30),
{
}

proof fn lemma_missing_grows(cfgs: Seq<ChannelConfig>, hour: u8, m: ManagerView, a: nat, b: nat)
    requires
        a <= b,
    ensures
        missing_before(cfgs, hour, m, a) <= missing_before(cfgs, hour, m, b),
    decreases b,
{
    if a < b {
        lemma_missing_grows(cfgs, hour, m, a, (b - 1) as nat);
    }
}

/// Each channel gets as many new sessions as it misses, one after the other, and no two sessions
/// get the same number before the numbers run out.
pub proof fn each_channel_gets_what_it_misses(
    cfgs: Seq<ChannelConfig>,
    hour: u8,
    m: ManagerView,
    seed: u32,
    next: u32,
    r: Seq<(usize, u32)>,
    c: int,
    i: int,
)
    requires
        plans_sessions(cfgs, hour, m, seed, next, r),
        0 <= c < cfgs.len(),
        0 <= i < missing(cfgs[c], hour, m),
    ensures
        ({
            let k = missing_before(cfgs, hour, m, c as nat) + i;
            &&& k < r.len()
            &&& r[k].0 == c
            &&& seed + r.len() <= u32::MAX ==> r[k].1 == seed + k && next == seed + r.len()
        }),
{
    let k = missing_before(cfgs, hour, m, c as nat) + i;
    lemma_missing_grows(cfgs, hour, m, (c + 1) as nat, cfgs.len());
    assert(missing_before(cfgs, hour, m, (c + 1) as nat) == missing_before(cfgs, hour, m, c as nat)
        + missing(cfgs[c], hour, m));
    let d = r[k].0 as int;
    assert(r[k].0 < cfgs.len());
    if d < c {
        lemma_missing_grows(cfgs, hour, m, (d + 1) as nat, c as nat);
    } else if d > c {
        lemma_missing_grows(cfgs, hour, m, (c + 1) as nat, d as nat);
    }
}

} // verus!
