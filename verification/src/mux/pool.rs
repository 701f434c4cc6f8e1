//! The sessions to the servers of all channels: which to open, which to use, and which to let go.

use vstd::prelude::*;
use crate::text::same_text;

verus! {

/// A server of a channel.
pub struct ChannelState {
    pub channel: String,
    pub url: String,
    pub conns_per_host: u32,
    pub max_alive_mins: u32,
    /// The HTTP proxy to go through; empty where there is none.
    pub proxy: String,
    /// How many sessions are in use.
    pub conns: u32,
}

/// A session in use.
#[derive(Debug, PartialEq, Eq, Structural, Clone, Copy)]
pub struct SessionData {
    /// The session's queue.
    pub queue: u64,
    /// The server, by its place.
    pub state: usize,
    /// When the session started, in seconds.
    pub born_time: u64,
    /// The longest life, in seconds; zero stands for no limit.
    pub max_alive_secs: u32,
}

/// The name of a channel and an address, as one key.
pub open spec fn url_key(channel: Seq<char>, url: Seq<char>) -> Seq<char> {
    channel + seq!['#'] + url
}

pub fn channel_url_key(n: &str, u: &str) -> (r: String)
    ensures
        r@ == url_key(n@, u@),
{
    let mut s: String = n.to_owned();
    s.push('#');
    s.push_str(u);
    assert(s@ =~= url_key(n@, u@));
    s
}

/// How many of the sessions are to this server.
pub open spec fn sessions_of(sessions: Seq<SessionData>, state: int) -> nat
    decreases sessions.len(),
{
    if sessions.len() == 0 {
        0
    } else {
        sessions_of(sessions.drop_last(), state) + if sessions.last().state == state {
            1nat
        } else {
            0
        }
    }
}

/// The sessions of all channels.
pub struct MuxSessionManager {
    all_sessions: Vec<SessionData>,
    retire_sessions: Vec<SessionData>,
    cursor: u32,
    channel_keys: Vec<String>,
    channel_states: Vec<ChannelState>,
}

/// What is known of a server.
#[verifier::ext_equal]
pub struct StateView {
    pub key: Seq<char>,
    pub channel: Seq<char>,
    pub url: Seq<char>,
    pub conns_per_host: u32,
    pub max_alive_mins: u32,
    pub proxy: Seq<char>,
    pub conns: u32,
}

#[verifier::ext_equal]
pub struct PoolView {
    /// The sessions that are used.
    pub sessions: Seq<SessionData>,
    /// The sessions that end with their last stream.
    pub retired: Seq<SessionData>,
    pub cursor: u32,
    pub states: Seq<StateView>,
}

spec fn state_views(keys: Seq<String>, states: Seq<ChannelState>) -> Seq<StateView> {
    Seq::new(
        states.len(),
        |i: int|
            StateView {
                key: keys[i]@,
                channel: states[i].channel@,
                url: states[i].url@,
                conns_per_host: states[i].conns_per_host,
                max_alive_mins: states[i].max_alive_mins,
                proxy: states[i].proxy@,
                conns: states[i].conns,
            },
    )
}

impl View for MuxSessionManager {
    type V = PoolView;

    closed spec fn view(&self) -> PoolView {
        PoolView {
            sessions: self.all_sessions@,
            retired: self.retire_sessions@,
            cursor: self.cursor,
            states: state_views(self.channel_keys@, self.channel_states@),
        }
    }
}

impl PoolView {
    /// Every session is to a server, and each server's count is that of its sessions; a longest
    /// life can be counted in seconds.
    pub open spec fn wf(self) -> bool {
        &&& forall|i: int|
            0 <= i < self.sessions.len() ==> (#[trigger] self.sessions[i]).state
                < self.states.len()
        &&& forall|k: int|
            0 <= k < self.states.len() ==> (#[trigger] self.states[k]).conns == sessions_of(
                self.sessions,
                k,
            ) && self.states[k].max_alive_mins * 60 <= u32::MAX
    }

    /// Where the server with this key stands, from `i` on.
    pub open spec fn place(self, key: Seq<char>, i: int) -> Option<int>
        decreases self.states.len() - i,
    {
        if i < 0 || i >= self.states.len() {
            None
        } else if self.states[i].key == key {
            Some(i)
        } else {
            self.place(key, i + 1)
        }
    }

    /// The pool with the server, unless one of its key is there.
    pub open spec fn with_state(self, state: StateView) -> PoolView {
        if self.place(state.key, 0) is Some {
            self
        } else {
            PoolView { states: self.states.push(state), ..self }
        }
    }

    pub open spec fn with_conns(self, k: int, conns: u32) -> PoolView {
        PoolView { states: self.states.update(k, StateView { conns, ..self.states[k] }), ..self }
    }
}

impl MuxSessionManager {
    pub closed spec fn keyed(self) -> bool {
        self.channel_keys@.len() == self.channel_states@.len()
    }

    pub open spec fn wf(self) -> bool {
        self@.wf() && self.keyed()
    }

    pub fn new() -> (r: MuxSessionManager)
        ensures
            r.wf(),
            r@ == (PoolView {
                sessions: Seq::empty(),
                retired: Seq::empty(),
                cursor: 0,
                states: Seq::empty(),
            }),
    {
        let r = MuxSessionManager {
            all_sessions: Vec::new(),
            retire_sessions: Vec::new(),
            cursor: 0,
            channel_keys: Vec::new(),
            channel_states: Vec::new(),
        };
        assert(r@.states =~= Seq::empty());
        r
    }

    fn find(&self, key: &str) -> (r: Option<usize>)
        requires
            self.keyed(),
        ensures
            match r {
                Some(i) => self@.place(key@, 0) == Some(i as int) && i < self@.states.len(),
                None => self@.place(key@, 0) is None,
            },
    {
        let mut i: usize = 0;
        while i < self.channel_keys.len()
            invariant
                i <= self.channel_keys@.len(),
                self.keyed(),
                self@.place(key@, 0) == self@.place(key@, i as int),
            decreases self.channel_keys@.len() - i,
        {
            assert(self@.states[i as int].key == self.channel_keys@[i as int]@);
            if same_text(self.channel_keys[i].as_str(), key) {
                return Some(i);
            }
            i += 1;
        }
        None
    }

    /// Takes in a server of a channel; one with the same key stays as it is.
    pub fn add_channel_url(&mut self, key: String, state: ChannelState)
        requires
            old(self).wf(),
            state.conns == 0,
            state.max_alive_mins * 60 <= u32::MAX,
        ensures
            final(self).wf(),
            final(self)@ == old(self)@.with_state(
                StateView {
                    key: key@,
                    channel: state.channel@,
                    url: state.url@,
                    conns_per_host: state.conns_per_host,
                    max_alive_mins: state.max_alive_mins,
                    proxy: state.proxy@,
                    conns: 0,
                },
            ),
    {
        let ghost pre = self@;
        if self.find(key.as_str()).is_some() {
            return;
        }
        let ghost view = StateView {
            key: key@,
            channel: state.channel@,
            url: state.url@,
            conns_per_host: state.conns_per_host,
            max_alive_mins: state.max_alive_mins,
            proxy: state.proxy@,
            conns: 0,
        };
        self.channel_keys.push(key);
        self.channel_states.push(state);
        proof {
            assert(self@.states =~= pre.states.push(view));
            lemma_none_of(pre.sessions, pre.states.len() as int);
        }
    }

    /// Takes in a session to a server; gives whether the server is known.
    pub fn add_session(&mut self, channel: &str, url: &str, queue: u64, now: u64) -> (r: bool)
        requires
            old(self).wf(),
            old(self)@.sessions.len() < u32::MAX,
        ensures
            final(self).wf(),
            adds_session(old(self)@, final(self)@, channel@, url@, queue, now, r),
    {
        let ghost pre = self@;
        let key = channel_url_key(channel, url);
        let k: usize = match self.find(key.as_str()) {
            Some(k) => k,
            None => {
                return false;
            },
        };
        proof {
            lemma_at_most(pre.sessions, k as int);
            assert(pre.states[k as int].conns == sessions_of(pre.sessions, k as int));
        }
        let data = SessionData {
            queue,
            state: k,
            born_time: now,
            max_alive_secs: self.channel_states[k].max_alive_mins * 60,
        };
        let entry = &mut self.channel_states[k];
        entry.conns = entry.conns + 1;
        self.all_sessions.push(data);
        proof {
            assert(self@.states =~= pre.with_conns(
                k as int,
                (pre.states[k as int].conns + 1) as u32,
            ).states);
            assert forall|j: int| 0 <= j < self@.states.len() implies (
            #[trigger] self@.states[j]).conns == sessions_of(self@.sessions, j) by {
                assert(self@.sessions.drop_last() =~= pre.sessions);
                assert(pre.states[j].conns == sessions_of(pre.sessions, j));
            }
        }
        true
    }
}

proof fn lemma_none_of(sessions: Seq<SessionData>, k: int)
    requires
        forall|i: int| 0 <= i < sessions.len() ==> (#[trigger] sessions[i]).state < k,
    ensures
        sessions_of(sessions, k) == 0,
    decreases sessions.len(),
{
    if sessions.len() > 0 {
        assert(sessions.last() == sessions[sessions.len() - 1]);
        assert forall|i: int| 0 <= i < sessions.drop_last().len() implies (
        #[trigger] sessions.drop_last()[i]).state < k by {
            assert(sessions[i].state < k);
        }
        lemma_none_of(sessions.drop_last(), k);
    }
}

proof fn lemma_at_most(sessions: Seq<SessionData>, k: int)
    ensures
        sessions_of(sessions, k) <= sessions.len(),
    decreases sessions.len(),
{
    if sessions.len() > 0 {
        lemma_at_most(sessions.drop_last(), k);
    }
}

proof fn lemma_remove(sessions: Seq<SessionData>, idx: int, k: int)
    requires
        0 <= idx < sessions.len(),
    ensures
        sessions_of(sessions, k) == sessions_of(sessions.remove(idx), k) + if sessions[idx].state
            == k {
            1nat
        } else {
            0
        },
    decreases sessions.len(),
{
    if idx == sessions.len() - 1 {
        assert(sessions.remove(idx) =~= sessions.drop_last());
    } else {
        lemma_remove(sessions.drop_last(), idx, k);
        assert(sessions.remove(idx).drop_last() =~= sessions.drop_last().remove(idx));
        assert(sessions.remove(idx).last() == sessions.last());
    }
}

impl PoolView {
    /// The place that the search looks at next.
    pub open spec fn next(self) -> int {
        u32::wrapping_add(self.cursor, 1) as int % self.sessions.len() as int
    }

    /// What looking at the next session does: one whose queue is gone is dropped, and one of the
    /// channel is found. An empty name stands for any channel.
    pub open spec fn look(self, ch: Seq<char>, gone: Seq<u64>) -> (PoolView, Option<u64>) {
        let s = self.sessions[self.next()];
        let moved = PoolView { cursor: u32::wrapping_add(self.cursor, 1), ..self };
        if gone.contains(s.queue) {
            (
                PoolView {
                    sessions: self.sessions.remove(self.next()),
                    ..moved.with_conns(
                        s.state as int,
                        (self.states[s.state as int].conns - 1) as u32,
                    )
                },
                None,
            )
        } else if ch.len() == 0 || self.states[s.state as int].channel == ch {
            (moved, Some(s.queue))
        } else {
            (moved, None)
        }
    }

    /// What the search does after `count` looks: it ends with a session of the channel, or after
    /// as many looks as there are sessions left.
    pub open spec fn search(self, ch: Seq<char>, gone: Seq<u64>, count: nat) -> (
        PoolView,
        Option<u64>,
    )
        decreases self.sessions.len() + 1 - count,
    {
        if count >= self.sessions.len() {
            (self, None)
        } else {
            let (p, found) = self.look(ch, gone);
            proof {
                lemma_next(self);
            }
            if found is Some {
                (p, found)
            } else {
                p.search(ch, gone, count + 1)
            }
        }
    }
}

/// The place that the search looks at next is that of a session.
pub proof fn lemma_next(p: PoolView)
    requires
        p.sessions.len() > 0,
    ensures
        0 <= p.next() < p.sessions.len(),
{
    vstd::arithmetic::div_mod::lemma_mod_bound(
        u32::wrapping_add(p.cursor, 1) as int,
        p.sessions.len() as int,
    );
}

fn is_gone(gone: &Vec<u64>, queue: u64) -> (r: bool)
    ensures
        r == gone@.contains(queue),
{
    let mut i: usize = 0;
    while i < gone.len()
        invariant
            i <= gone@.len(),
            forall|j: int| 0 <= j < i ==> gone@[j] != queue,
        decreases gone@.len() - i,
    {
        if gone[i] == queue {
            assert(gone@[i as int] == queue);
            return true;
        }
        i += 1;
    }
    false
}

impl MuxSessionManager {
    fn do_select_session(&mut self, ch: &str, gone: &Vec<u64>) -> (r: Option<u64>)
        requires
            old(self).wf(),
            old(self)@.sessions.len() > 0,
        ensures
            final(self).wf(),
            final(self)@ == old(self)@.look(ch@, gone@).0,
            r == old(self)@.look(ch@, gone@).1,
    {
        let ghost pre = self@;
        let c: u32 = self.cursor.wrapping_add(1);
        self.cursor = c;
        let len: usize = self.all_sessions.len();
        let idx: usize = c as usize % len;
        assert(idx == pre.next());
        let data: SessionData = self.all_sessions[idx];
        let k: usize = data.state;
        assert(pre.sessions[idx as int].state < pre.states.len());
        if is_gone(gone, data.queue) {
            proof {
                lemma_remove(pre.sessions, idx as int, k as int);
                assert(pre.states[k as int].conns == sessions_of(pre.sessions, k as int));
            }
            let entry = &mut self.channel_states[k];
            entry.conns = entry.conns - 1;
            self.all_sessions.remove(idx);
            proof {
                let due = pre.look(ch@, gone@).0;
                assert(self@.states =~= due.states);
                assert(self@ =~= due);
                assert forall|j: int| 0 <= j < self@.states.len() implies (
                #[trigger] self@.states[j]).conns == sessions_of(self@.sessions, j)
                    && self@.states[j].max_alive_mins * 60 <= u32::MAX by {
                    lemma_remove(pre.sessions, idx as int, j);
                    assert(pre.states[j].conns == sessions_of(pre.sessions, j));
                }
                assert forall|i: int| 0 <= i < self@.sessions.len() implies (
                #[trigger] self@.sessions[i]).state < self@.states.len() by {
                    if i < idx {
                        assert(self@.sessions[i] == pre.sessions[i]);
                    } else {
                        assert(self@.sessions[i] == pre.sessions[i + 1]);
                    }
                }
            }
            return None;
        }
        if ch.is_empty() || same_text(self.channel_states[k].channel.as_str(), ch) {
            return Some(data.queue);
        }
        None
    }

    /// Finds a session of the channel whose queue is there; an empty name stands for any channel.
    /// `gone` lists the queues that are gone.
    pub fn select_session_by_channel(&mut self, ch: &str, gone: &Vec<u64>) -> (r: Option<u64>)
        requires
            old(self).wf(),
        ensures
            final(self).wf(),
            final(self)@ == old(self)@.search(ch@, gone@, 0).0,
            r == old(self)@.search(ch@, gone@, 0).1,
    {
        let ghost pre = self@;
        let mut loop_count: usize = 0;
        while loop_count < self.all_sessions.len()
            invariant
                self.wf(),
                pre == old(self)@,
                pre.search(ch@, gone@, 0) == self@.search(ch@, gone@, loop_count as nat),
            decreases self.all_sessions@.len() + 1 - loop_count,
        {
            if let Some(v) = self.do_select_session(ch, gone) {
                return Some(v);
            }
            loop_count += 1;
        }
        None
    }

    /// Finds a session of any channel.
    pub fn select_session(&mut self, gone: &Vec<u64>) -> (r: Option<u64>)
        requires
            old(self).wf(),
        ensures
            final(self).wf(),
            final(self)@ == old(self)@.search(""@, gone@, 0).0,
            r == old(self)@.search(""@, gone@, 0).1,
    {
        self.select_session_by_channel("", gone)
    }
}

/// The queue belongs to a session of the channel.
pub open spec fn serves(p: PoolView, ch: Seq<char>, queue: u64, i: int) -> bool {
    &&& 0 <= i < p.sessions.len()
    &&& p.sessions[i].queue == queue
    &&& ch.len() == 0 || p.states[p.sessions[i].state as int].channel == ch
}

proof fn lemma_found(p: PoolView, ch: Seq<char>, gone: Seq<u64>, count: nat) -> (i: int)
    requires
        p.search(ch, gone, count).1 is Some,
        forall|i: int|
            0 <= i < p.sessions.len() ==> (#[trigger] p.sessions[i]).state < p.states.len(),
    ensures
        !gone.contains(p.search(ch, gone, count).1->Some_0),
        serves(p, ch, p.search(ch, gone, count).1->Some_0, i),
    decreases p.sessions.len() + 1 - count,
{
    let (q, found) = p.look(ch, gone);
    let at = p.next();
    lemma_next(p);
    if found is Some {
        at
    } else {
        assert forall|i: int| 0 <= i < q.sessions.len() implies (#[trigger] q.sessions[i]).state
            < q.states.len() by {
            if gone.contains(p.sessions[at].queue) && i >= at {
                assert(q.sessions[i] == p.sessions[i + 1]);
            } else {
                assert(q.sessions[i] == p.sessions[i]);
            }
        }
        let i = lemma_found(q, ch, gone, count + 1);
        if gone.contains(p.sessions[at].queue) && i >= at {
            assert(q.sessions[i] == p.sessions[i + 1]);
            i + 1
        } else {
            assert(q.sessions[i] == p.sessions[i]);
            i
        }
    }
}

/// A session that is found is one of those in use, its queue is there, and it is of the channel.
pub proof fn found_session_is_usable(p: PoolView, ch: Seq<char>, gone: Seq<u64>)
    requires
        p.wf(),
        p.search(ch, gone, 0).1 is Some,
    ensures
        !gone.contains(p.search(ch, gone, 0).1->Some_0),
        exists|i: int| serves(p, ch, p.search(ch, gone, 0).1->Some_0, i),
{
    let i = lemma_found(p, ch, gone, 0);
    assert(serves(p, ch, p.search(ch, gone, 0).1->Some_0, i));
}

/// How long a session has lived.
pub open spec fn age(s: SessionData, now: u64) -> int {
    if now >= s.born_time {
        now - s.born_time
    } else {
        0
    }
}

/// The session is not used any more: its queue is gone, or it has lived too long.
pub open spec fn retires(s: SessionData, gone: Seq<u64>, now: u64) -> bool {
    gone.contains(s.queue) || (s.max_alive_secs != 0 && age(s, now) > s.max_alive_secs)
}

/// The sessions that stay in use.
pub open spec fn kept(ss: Seq<SessionData>, gone: Seq<u64>, now: u64) -> Seq<SessionData>
    decreases ss.len(),
{
    if ss.len() == 0 {
        Seq::empty()
    } else if retires(ss.last(), gone, now) {
        kept(ss.drop_last(), gone, now)
    } else {
        kept(ss.drop_last(), gone, now).push(ss.last())
    }
}

/// The sessions that are not used any more.
pub open spec fn dropped(ss: Seq<SessionData>, gone: Seq<u64>, now: u64) -> Seq<SessionData>
    decreases ss.len(),
{
    if ss.len() == 0 {
        Seq::empty()
    } else if retires(ss.last(), gone, now) {
        dropped(ss.drop_last(), gone, now).push(ss.last())
    } else {
        dropped(ss.drop_last(), gone, now)
    }
}

/// The sessions whose queues are there.
pub open spec fn reachable(ss: Seq<SessionData>, gone: Seq<u64>) -> Seq<SessionData>
    decreases ss.len(),
{
    if ss.len() == 0 {
        Seq::empty()
    } else if gone.contains(ss.last().queue) {
        reachable(ss.drop_last(), gone)
    } else {
        reachable(ss.drop_last(), gone).push(ss.last())
    }
}

/// The queues of sessions.
pub open spec fn queues(ss: Seq<SessionData>) -> Seq<u64> {
    Seq::new(ss.len(), |i: int| ss[i].queue)
}

/// The servers to connect to: each as often as it misses sessions.
pub open spec fn to_connect(states: Seq<StateView>) -> Seq<usize>
    decreases states.len(),
{
    if states.len() == 0 {
        Seq::empty()
    } else {
        let s = states.last();
        let gap = if s.conns < s.conns_per_host {
            (s.conns_per_host - s.conns) as nat
        } else {
            0
        };
        to_connect(states.drop_last()) + Seq::new(gap, |i: int| (states.len() - 1) as usize)
    }
}

proof fn lemma_split(ss: Seq<SessionData>, gone: Seq<u64>, now: u64, k: int)
    ensures
        sessions_of(ss, k) == sessions_of(kept(ss, gone, now), k) + sessions_of(
            dropped(ss, gone, now),
            k,
        ),
    decreases ss.len(),
{
    if ss.len() > 0 {
        lemma_split(ss.drop_last(), gone, now, k);
        let a = kept(ss.drop_last(), gone, now);
        let b = dropped(ss.drop_last(), gone, now);
        assert(a.push(ss.last()).drop_last() =~= a);
        assert(b.push(ss.last()).drop_last() =~= b);
    }
}

proof fn lemma_kept_states(ss: Seq<SessionData>, gone: Seq<u64>, now: u64, n: int)
    requires
        forall|i: int| 0 <= i < ss.len() ==> (#[trigger] ss[i]).state < n,
    ensures
        forall|i: int|
            0 <= i < kept(ss, gone, now).len() ==> (#[trigger] kept(ss, gone, now)[i]).state < n,
    decreases ss.len(),
{
    if ss.len() > 0 {
        assert(ss.last() == ss[ss.len() - 1]);
        assert forall|i: int| 0 <= i < ss.drop_last().len() implies (
        #[trigger] ss.drop_last()[i]).state < n by {
            assert(ss[i].state < n);
        }
        lemma_kept_states(ss.drop_last(), gone, now, n);
        let a = kept(ss.drop_last(), gone, now);
        assert forall|i: int| 0 <= i < kept(ss, gone, now).len() implies (
        #[trigger] kept(ss, gone, now)[i]).state < n by {
            if i < a.len() {
                assert(kept(ss, gone, now)[i] == a[i]);
            }
        }
    }
}

/// What the routine asks for.
pub struct PoolRoutine {
    /// The servers to connect to, one entry for each new session.
    pub connect: Vec<usize>,
    /// The queues of the sessions to ping.
    pub ping: Vec<u64>,
    /// The queues of the sessions that end once they have no stream.
    pub try_close: Vec<u64>,
}

impl MuxSessionManager {
    fn missing_sessions(&self) -> (r: Vec<usize>)
        requires
            self.keyed(),
        ensures
            r@ == to_connect(self@.states),
    {
        let ghost all = self@.states;
        let mut connect: Vec<usize> = Vec::new();
        let mut k: usize = 0;
        assert(all.take(0) =~= Seq::empty());
        while k < self.channel_states.len()
            invariant
                k <= self.channel_states@.len(),
                all == self@.states,
                connect@ == to_connect(all.take(k as int)),
            decreases self.channel_states@.len() - k,
        {
            let s = &self.channel_states[k];
            let ghost before = connect@;
            proof {
                assert(all.take(k + 1).drop_last() =~= all.take(k as int));
                assert(all.take(k + 1).last() == all[k as int]);
            }
            let gap: u32 = if s.conns < s.conns_per_host {
                s.conns_per_host - s.conns
            } else {
                0
            };
            let mut j: u32 = 0;
            assert(before + Seq::new(0, |i: int| k) =~= before);
            while j < gap
                invariant
                    j <= gap,
                    connect@ == before + Seq::new(j as nat, |i: int| k),
                decreases gap - j,
            {
                connect.push(k);
                j += 1;
                assert(connect@ =~= before + Seq::new(j as nat, |i: int| k));
            }
            proof {
                assert(Seq::new(gap as nat, |i: int| k) =~= Seq::new(
                    gap as nat,
                    |i: int| (all.take(k + 1).len() - 1) as usize,
                ));
            }
            k += 1;
        }
        assert(all.take(k as int) =~= all);
        connect
    }

    /// Lets the sessions go that are not used any more, and gives the queues to ping.
    fn sweep(&mut self, gone: &Vec<u64>, now: u64) -> (r: Vec<u64>)
        requires
            old(self).wf(),
        ensures
            final(self).wf(),
            r@ == queues(reachable(old(self)@.sessions, gone@)),
            final(self)@.sessions == kept(old(self)@.sessions, gone@, now),
            final(self)@.retired == old(self)@.retired + dropped(
                old(self)@.sessions,
                gone@,
                now,
            ),
            final(self)@.cursor == old(self)@.cursor,
            final(self)@.states.len() == old(self)@.states.len(),
            forall|k: int|
                0 <= k < old(self)@.states.len() ==> #[trigger] final(self)@.states[k] == (
                StateView {
                    conns: sessions_of(kept(old(self)@.sessions, gone@, now), k) as u32,
                    ..old(self)@.states[k]
                }),
    {
        let ghost pre = self@;
        let ghost ss = pre.sessions;
        let mut ping: Vec<u64> = Vec::new();
        let mut stay: Vec<SessionData> = Vec::new();
        let mut i: usize = 0;
        proof {
            assert(ss.take(0) =~= Seq::empty());
            assert(queues(Seq::empty()) =~= Seq::empty());
            assert(pre.retired + Seq::<SessionData>::empty() =~= pre.retired);
            assert forall|k: int| 0 <= k < pre.states.len() implies pre.states[k].conns
                == #[trigger] sessions_of(ss, k) - sessions_of(Seq::empty(), k) by {
                assert(pre.states[k].conns == sessions_of(ss, k));
            }
        }
        while i < self.all_sessions.len()
            invariant
                i <= self.all_sessions@.len(),
                pre.wf(),
                ss == pre.sessions,
                self.keyed(),
                self@.sessions == ss,
                self@.cursor == pre.cursor,
                self@.retired == pre.retired + dropped(ss.take(i as int), gone@, now),
                self@.states.len() == pre.states.len(),
                stay@ == kept(ss.take(i as int), gone@, now),
                ping@ == queues(reachable(ss.take(i as int), gone@)),
                forall|k: int|
                    0 <= k < pre.states.len() ==> #[trigger] self@.states[k] == (StateView {
                        conns: self@.states[k].conns,
                        ..pre.states[k]
                    }) && self@.states[k].conns == sessions_of(ss, k) - sessions_of(
                        dropped(ss.take(i as int), gone@, now),
                        k,
                    ),
            decreases self.all_sessions@.len() - i,
        {
            let s: SessionData = self.all_sessions[i];
            let ghost cut = ss.take(i as int);
            let ghost mid = self@;
            let ghost pinged = ping@;
            let ghost out = dropped(cut, gone@, now);
            proof {
                assert(ss.take(i + 1).drop_last() =~= cut);
                assert(ss.take(i + 1).last() == s);
                assert(pre.sessions[i as int].state < pre.states.len());
            }
            let lost: bool = is_gone(gone, s.queue);
            if !lost {
                ping.push(s.queue);
                assert(ping@ =~= queues(reachable(cut, gone@).push(s)));
            }
            let old: bool = s.max_alive_secs != 0 && now.saturating_sub(s.born_time)
                > s.max_alive_secs as u64;
            if lost || old {
                proof {
                    lemma_split(ss, gone@, now, s.state as int);
                    lemma_dropped_grows(ss, i + 1, gone@, now, s.state as int);
                    assert(out.push(s).drop_last() =~= out);
                    assert(self@.states[s.state as int].conns >= 1);
                }
                let entry = &mut self.channel_states[s.state];
                entry.conns = entry.conns - 1;
                self.retire_sessions.push(s);
                proof {
                    assert(self@.retired =~= pre.retired + out.push(s));
                    assert forall|k: int| 0 <= k < pre.states.len() implies #[trigger] self@.states[k]
                        == (StateView { conns: self@.states[k].conns, ..pre.states[k] })
                        && self@.states[k].conns == sessions_of(ss, k) - sessions_of(
                        out.push(s),
                        k,
                    ) by {
                        assert(mid.states[k] == (StateView {
                            conns: mid.states[k].conns,
                            ..pre.states[k]
                        }));
                    }
                }
            } else {
                stay.push(s);
            }
            i += 1;
        }
        assert(ss.take(i as int) =~= ss);
        self.all_sessions = stay;
        proof {
            lemma_kept_states(ss, gone@, now, pre.states.len() as int);
            assert forall|k: int| 0 <= k < pre.states.len() implies (
            #[trigger] self@.states[k]).conns == sessions_of(self@.sessions, k) by {
                lemma_split(ss, gone@, now, k);
            }
        }
        ping
    }

    /// Looks after the sessions: servers that miss some are connected to; sessions whose queues
    /// are gone or that have lived too long are used no more; all others are sent a ping. A
    /// session that is used no more ends once it has no stream.
    pub fn routine(&mut self, gone: &Vec<u64>, now: u64) -> (r: PoolRoutine)
        requires
            old(self).wf(),
        ensures
            final(self).wf(),
            looks_after(old(self)@, final(self)@, gone@, now, r),
    {
        let connect = self.missing_sessions();
        let ping = self.sweep(gone, now);
        let ghost mid = self@;
        let ghost rs = mid.retired;
        let mut left: Vec<SessionData> = Vec::new();
        let mut try_close: Vec<u64> = Vec::new();
        let mut i: usize = 0;
        proof {
            assert(rs.take(0) =~= Seq::empty());
            assert(queues(Seq::empty()) =~= Seq::empty());
        }
        while i < self.retire_sessions.len()
            invariant
                i <= self.retire_sessions@.len(),
                self@ == mid,
                self.keyed(),
                rs == mid.retired,
                left@ == reachable(rs.take(i as int), gone@),
                try_close@ == queues(left@),
            decreases self.retire_sessions@.len() - i,
        {
            let s: SessionData = self.retire_sessions[i];
            let ghost before = left@;
            proof {
                assert(rs.take(i + 1).drop_last() =~= rs.take(i as int));
                assert(rs.take(i + 1).last() == s);
            }
            if !is_gone(gone, s.queue) {
                left.push(s);
                try_close.push(s.queue);
                assert(try_close@ =~= queues(left@));
            }
            i += 1;
        }
        assert(rs.take(i as int) =~= rs);
        self.retire_sessions = left;
        PoolRoutine { connect, ping, try_close }
    }
}

proof fn lemma_dropped_grows(ss: Seq<SessionData>, i: int, gone: Seq<u64>, now: u64, k: int)
    requires
        0 <= i <= ss.len(),
    ensures
        sessions_of(dropped(ss.take(i), gone, now), k) <= sessions_of(dropped(ss, gone, now), k),
    decreases ss.len(),
{
    if i == ss.len() {
        assert(ss.take(i) =~= ss);
    } else {
        lemma_dropped_grows(ss.drop_last(), i, gone, now, k);
        assert(ss.drop_last().take(i) =~= ss.take(i));
        let b = dropped(ss.drop_last(), gone, now);
        assert(b.push(ss.last()).drop_last() =~= b);
    }
}

/// After the routine no session is in use whose queue is gone or that has lived too long.
pub proof fn sessions_in_use_are_usable(ss: Seq<SessionData>, gone: Seq<u64>, now: u64, i: int)
    requires
        0 <= i < kept(ss, gone, now).len(),
    ensures
        !retires(kept(ss, gone, now)[i], gone, now),
    decreases ss.len(),
{
    if ss.len() > 0 {
        let a = kept(ss.drop_last(), gone, now);
        if i < a.len() {
            sessions_in_use_are_usable(ss.drop_last(), gone, now, i);
            assert(kept(ss, gone, now)[i] == a[i]);
        }
    }
}

/// A session is closed by its own task once it has no stream.
pub fn may_close(num_of_streams: usize) -> (r: bool)
    ensures
        r == (num_of_streams == 0),
{
    num_of_streams == 0
}

/// A session is not used any more exactly when its queue is gone, or when it has a longest life
/// and was made longer ago than that.
pub proof fn sessions_retire_when_gone_or_old(s: SessionData, gone: Seq<u64>, now: u64)
    ensures
        gone.contains(s.queue) ==> retires(s, gone, now),
        !gone.contains(s.queue) && s.max_alive_secs == 0 ==> !retires(s, gone, now),
        !gone.contains(s.queue) && s.max_alive_secs > 0 ==> (retires(s, gone, now) <==> now
            > s.born_time + s.max_alive_secs),
{
}

proof fn lemma_kept_and_dropped(ss: Seq<SessionData>, gone: Seq<u64>, now: u64, s: SessionData)
    ensures
        kept(ss, gone, now).len() + dropped(ss, gone, now).len() == ss.len(),
        kept(ss, gone, now).contains(s) <==> ss.contains(s) && !retires(s, gone, now),
        dropped(ss, gone, now).contains(s) <==> ss.contains(s) && retires(s, gone, now),
    decreases ss.len(),
{
    if ss.len() > 0 {
        let less = ss.drop_last();
        lemma_kept_and_dropped(less, gone, now, s);
        lemma_push_contains(less, ss.last(), s);
        assert(less.push(ss.last()) =~= ss);
        lemma_push_contains(kept(less, gone, now), ss.last(), s);
        lemma_push_contains(dropped(less, gone, now), ss.last(), s);
    }
}

proof fn lemma_push_contains<T>(s: Seq<T>, x: T, y: T)
    ensures
        s.push(x).contains(y) <==> s.contains(y) || x == y,
{
    let t = s.push(x);
    assert(t[s.len() as int] == x);
    if s.contains(y) {
        let i = choose|i: int| 0 <= i < s.len() && s[i] == y;
        assert(t[i] == y);
    }
    if t.contains(y) {
        let i = choose|i: int| 0 <= i < t.len() && t[i] == y;
        if i < s.len() {
            assert(s[i] == y);
        }
    }
}

/// The routine parts the sessions: those still in use stay, the others are retired, and none is
/// lost.
pub proof fn sessions_stay_or_retire(ss: Seq<SessionData>, gone: Seq<u64>, now: u64, s: SessionData)
    ensures
        kept(ss, gone, now).len() + dropped(ss, gone, now).len() == ss.len(),
        kept(ss, gone, now).contains(s) <==> ss.contains(s) && !retires(s, gone, now),
        dropped(ss, gone, now).contains(s) <==> ss.contains(s) && retires(s, gone, now),
{
    lemma_kept_and_dropped(ss, gone, now, s);
}

proof fn lemma_reachable(ss: Seq<SessionData>, gone: Seq<u64>, s: SessionData)
    ensures
        reachable(ss, gone).contains(s) <==> ss.contains(s) && !gone.contains(s.queue),
    decreases ss.len(),
{
    if ss.len() > 0 {
        let less = ss.drop_last();
        lemma_reachable(less, gone, s);
        lemma_push_contains(less, ss.last(), s);
        assert(less.push(ss.last()) =~= ss);
        lemma_push_contains(reachable(less, gone), ss.last(), s);
    }
}

/// Exactly the sessions whose queue is still there are reached by what goes to all of them.
pub proof fn sessions_with_a_queue_are_reached(ss: Seq<SessionData>, gone: Seq<u64>, s: SessionData)
    ensures
        reachable(ss, gone).contains(s) <==> ss.contains(s) && !gone.contains(s.queue),
        forall|i: int|
            0 <= i < ss.len() ==> #[trigger] queues(ss)[i] == ss[i].queue,
        queues(ss).len() == ss.len(),
{
    lemma_reachable(ss, gone, s);
}

/// How often a number stands in a list.
pub open spec fn times(s: Seq<usize>, k: usize) -> nat
    decreases s.len(),
{
    if s.len() == 0 {
        0
    } else {
        times(s.drop_last(), k) + if s.last() == k {
            1nat
        } else {
            0
        }
    }
}

proof fn lemma_times_parts(a: Seq<usize>, b: Seq<usize>, k: usize)
    ensures
        times(a + b, k) == times(a, k) + times(b, k),
    decreases b.len(),
{
    if b.len() == 0 {
        assert(a + b =~= a);
    } else {
        assert((a + b).drop_last() =~= a + b.drop_last());
        lemma_times_parts(a, b.drop_last(), k);
    }
}

proof fn lemma_times_same(n: nat, x: usize, k: usize)
    ensures
        times(Seq::new(n, |i: int| x), k) == if x == k {
            n
        } else {
            0
        },
    decreases n,
{
    let s = Seq::new(n, |i: int| x);
    if n > 0 {
        assert(s.drop_last() =~= Seq::new((n - 1) as nat, |i: int| x));
        lemma_times_same((n - 1) as nat, x, k);
    }
}

/// Each server is connected to as often as sessions to it are missing, and not once more.
pub proof fn each_server_is_filled_up(states: Seq<StateView>, k: int)
    requires
        0 <= k < states.len() <= usize::MAX,
    ensures
        times(to_connect(states), k as usize) == if states[k].conns < states[k].conns_per_host {
            (states[k].conns_per_host - states[k].conns) as nat
        } else {
            0nat
        },
    decreases states.len(),
{
    let n = states.len() - 1;
    let s = states.last();
    let gap = if s.conns < s.conns_per_host {
        (s.conns_per_host - s.conns) as nat
    } else {
        0
    };
    let new = Seq::new(gap, |i: int| n as usize);
    assert(to_connect(states) =~= to_connect(states.drop_last()) + new);
    lemma_times_parts(to_connect(states.drop_last()), new, k as usize);
    lemma_times_same(gap, n as usize, k as usize);
    if k < n {
        each_server_is_filled_up(states.drop_last(), k);
    } else {
        lemma_to_connect_before(states.drop_last(), k as usize);
    }
}

proof fn lemma_to_connect_before(states: Seq<StateView>, k: usize)
    requires
        states.len() <= k,
    ensures
        times(to_connect(states), k) == 0,
    decreases states.len(),
{
    if states.len() > 0 {
        let n = states.len() - 1;
        let s = states.last();
        let gap = if s.conns < s.conns_per_host {
            (s.conns_per_host - s.conns) as nat
        } else {
            0
        };
        let new = Seq::new(gap, |i: int| n as usize);
        assert(to_connect(states) =~= to_connect(states.drop_last()) + new);
        lemma_times_parts(to_connect(states.drop_last()), new, k);
        lemma_times_same(gap, n as usize, k);
        lemma_to_connect_before(states.drop_last(), k);
    }
}

proof fn lemma_search_finds(p: PoolView, ch: Seq<char>, count: nat, d: nat)
    requires
        count + d < p.sessions.len(),
        p.cursor + 1 + d <= u32::MAX,
        ch.len() == 0 || p.states[p.sessions[(p.cursor + 1 + d) % p.sessions.len() as int].state as int].channel
            == ch,
    ensures
        p.search(ch, Seq::empty(), count).1 is Some,
    decreases d,
{
    lemma_next(p);
    let (q, found) = p.look(ch, Seq::empty());
    if found is None {
        if d == 0 {
            assert(p.next() == (p.cursor + 1) % p.sessions.len() as int);
        }
        assert(q.cursor == p.cursor + 1);
        assert(q.sessions == p.sessions && q.states == p.states);
        lemma_search_finds(q, ch, count + 1, (d - 1) as nat);
    }
}

/// While no queue is gone, a channel that has a session is given one.
pub proof fn channel_with_a_session_is_given_one(p: PoolView, ch: Seq<char>, i: int)
    requires
        p.wf(),
        0 <= i < p.sessions.len(),
        ch.len() == 0 || p.states[p.sessions[i].state as int].channel == ch,
        p.cursor + p.sessions.len() <= u32::MAX,
    ensures
        p.search(ch, Seq::empty(), 0).1 is Some,
{
    let len = p.sessions.len() as int;
    let c = p.cursor + 1;
    let d = (i - c) % len;
    vstd::arithmetic::div_mod::lemma_mod_bound(i - c, len);
    vstd::arithmetic::div_mod::lemma_add_mod_noop_right(c, i - c, len);
    vstd::arithmetic::div_mod::lemma_small_mod(i as nat, len as nat);
    assert((c + d) % len == i);
    lemma_search_finds(p, ch, 0, d as nat);
}

/// The adding of a session of a server.
pub open spec fn adds_session(
    pre: PoolView,
    post: PoolView,
    channel: Seq<char>,
    url: Seq<char>,
    queue: u64,
    now: u64,
    r: bool,
) -> bool {
    match pre.place(url_key(channel, url), 0) {
        Some(k) => {
            &&& r
            &&& post == (PoolView {
                sessions: pre.sessions.push(
                    SessionData {
                        queue,
                        state: k as usize,
                        born_time: now,
                        max_alive_secs: (pre.states[k].max_alive_mins * 60) as u32,
                    },
                ),
                ..pre.with_conns(k, (pre.states[k].conns + 1) as u32)
            })
        },
        None => !r && post == pre,
    }
}

/// The routine of the pool.
pub open spec fn looks_after(
    pre: PoolView,
    post: PoolView,
    gone: Seq<u64>,
    now: u64,
    r: PoolRoutine,
) -> bool {
    let retired = reachable(pre.retired + dropped(pre.sessions, gone, now), gone);
    &&& r.connect@ == to_connect(pre.states)
    &&& r.ping@ == queues(reachable(pre.sessions, gone))
    &&& r.try_close@ == queues(retired)
    &&& post.sessions == kept(pre.sessions, gone, now)
    &&& post.retired == retired
    &&& post.cursor == pre.cursor
    &&& post.states.len() == pre.states.len()
    &&& forall|k: int|
        0 <= k < pre.states.len() ==> #[trigger] post.states[k] == (StateView {
            conns: sessions_of(kept(pre.sessions, gone, now), k) as u32,
            ..pre.states[k]
        })
}

proof fn lemma_place_is_first(p: PoolView, key: Seq<char>, i: int)
    requires
        0 <= i,
    ensures
        match p.place(key, i) {
            Some(k) => i <= k < p.states.len() && p.states[k].key == key,
            None => forall|j: int| i <= j < p.states.len() ==> (#[trigger] p.states[j]).key != key,
        },
    decreases p.states.len() - i,
{
    if i < p.states.len() && p.states[i].key != key {
        lemma_place_is_first(p, key, i + 1);
    }
}

/// A session is added exactly to a server that is known under its channel and address: it is the
/// last of the sessions, is counted there, was born now and lives as long as the server says.
pub proof fn session_is_added_to_its_server(
    pre: PoolView,
    post: PoolView,
    channel: Seq<char>,
    url: Seq<char>,
    queue: u64,
    now: u64,
    r: bool,
)
    requires
        pre.wf(),
        pre.states.len() <= usize::MAX,
        pre.sessions.len() < u32::MAX,
        adds_session(pre, post, channel, url, queue, now, r),
        forall|k: int|
            0 <= k < pre.states.len() ==> (#[trigger] pre.states[k]).conns < u32::MAX,
    ensures
        r <==> exists|k: int|
            0 <= k < pre.states.len() && (#[trigger] pre.states[k]).key == channel + seq!['#'] + url,
        !r ==> post == pre,
        r ==> {
            let s = post.sessions.last();
            let k = s.state as int;
            &&& post.sessions.len() == pre.sessions.len() + 1
            &&& post.sessions.drop_last() == pre.sessions
            &&& s.queue == queue && s.born_time == now
            &&& 0 <= k < pre.states.len()
            &&& pre.states[k].key == channel + seq!['#'] + url
            &&& s.max_alive_secs == 60 * pre.states[k].max_alive_mins
            &&& post.states[k].conns == pre.states[k].conns + 1
            &&& forall|j: int|
                0 <= j < pre.states.len() && j != k ==> #[trigger] post.states[j] == pre.states[j]
        },
{
    let key = url_key(channel, url);
    lemma_place_is_first(pre, key, 0);
    if r {
        let k = pre.place(key, 0)->Some_0;
        assert(pre.states[k].key == key);
        assert(post.sessions.drop_last() =~= pre.sessions);
        assert(pre.states[k].max_alive_mins * 60 <= u32::MAX);
    }
}

/// After the routine each session is either still in use, and counted at its server, or told to
/// close where its queue is there; every session with a queue is pinged.
pub proof fn routine_looks_after_every_session(
    pre: PoolView,
    post: PoolView,
    gone: Seq<u64>,
    now: u64,
    r: PoolRoutine,
    s: SessionData,
)
    requires
        pre.wf(),
        looks_after(pre, post, gone, now, r),
        pre.sessions.contains(s),
    ensures
        post.sessions.contains(s) <==> !retires(s, gone, now),
        retires(s, gone, now) && !gone.contains(s.queue) ==> post.retired.contains(s)
            && r.try_close@.contains(s.queue),
        !gone.contains(s.queue) ==> r.ping@.contains(s.queue),
        forall|k: int|
            0 <= k < pre.states.len() ==> {
                &&& (#[trigger] post.states[k]).conns_per_host == pre.states[k].conns_per_host
                &&& post.states[k].key == pre.states[k].key
            },
{
    lemma_kept_and_dropped(pre.sessions, gone, now, s);
    let d = dropped(pre.sessions, gone, now);
    let all = pre.retired + d;
    if retires(s, gone, now) {
        let i = choose|i: int| 0 <= i < d.len() && d[i] == s;
        assert(all[pre.retired.len() + i] == s);
        assert(all.contains(s));
    }
    lemma_reachable(all, gone, s);
    lemma_reachable(pre.sessions, gone, s);
    if !gone.contains(s.queue) {
        let rs = reachable(pre.sessions, gone);
        let i = choose|i: int| 0 <= i < rs.len() && rs[i] == s;
        assert(queues(rs)[i] == s.queue);
        if retires(s, gone, now) {
            let rr = reachable(all, gone);
            let j = choose|j: int| 0 <= j < rr.len() && rr[j] == s;
            assert(queues(rr)[j] == s.queue);
        }
    }
}

/// A session that is looked at and whose queue is gone is taken off and counted off at its server;
/// any other stays, and is given where it is of the channel, or any channel will do.
pub proof fn gone_session_is_taken_off(p: PoolView, ch: Seq<char>, gone: Seq<u64>)
    requires
        p.wf(),
        p.sessions.len() > 0,
    ensures
        ({
            let i = p.next();
            let s = p.sessions[i];
            let (q, found) = p.look(ch, gone);
            let k = s.state as int;
            &&& gone.contains(s.queue) ==> {
                &&& found is None
                &&& q.sessions == p.sessions.remove(i)
                &&& p.states[k].conns > 0 ==> q.states[k].conns == p.states[k].conns - 1
            }
            &&& !gone.contains(s.queue) ==> {
                &&& q.sessions == p.sessions && q.states == p.states
                &&& found is Some <==> ch.len() == 0 || p.states[k].channel == ch
                &&& found is Some ==> found->Some_0 == s.queue
            }
            &&& q.cursor == u32::wrapping_add(p.cursor, 1)
        }),
{
    lemma_next(p);
    assert(p.sessions[p.next()].state < p.states.len());
}

proof fn lemma_place_is_there(p: PoolView, key: Seq<char>, from: int)
    requires
        0 <= from <= p.states.len(),
    ensures
        p.place(key, from) is Some <==> exists|i: int|
            from <= i < p.states.len() && (#[trigger] p.states[i]).key == key,
    decreases p.states.len() - from,
{
    if from < p.states.len() {
        lemma_place_is_there(p, key, from + 1);
        if p.states[from].key != key && p.place(key, from) is None {
            assert forall|i: int| from <= i < p.states.len() implies (#[trigger] p.states[i]).key
                != key by {
                if i > from {
                }
            }
        }
    }
}

/// A server is taken in behind the others where none of its key is there, as it is; else
/// nothing changes. Taking it in twice is taking it in once, and no session is touched.
pub proof fn server_is_taken_in_once(p: PoolView, state: StateView)
    ensures
        (forall|i: int| 0 <= i < p.states.len() ==> (#[trigger] p.states[i]).key != state.key)
            ==> p.with_state(state).states == p.states.push(state),
        (exists|i: int| 0 <= i < p.states.len() && (#[trigger] p.states[i]).key == state.key)
            ==> p.with_state(state) == p,
        p.with_state(state).with_state(state) == p.with_state(state),
        p.with_state(state).sessions == p.sessions,
        p.with_state(state).cursor == p.cursor,
{
    lemma_place_is_there(p, state.key, 0);
    let q = p.with_state(state);
    lemma_place_is_there(q, state.key, 0);
    if p.place(state.key, 0) is None {
        assert(q.states[p.states.len() as int].key == state.key);
    }
}

} // verus!
