//! The sessions of each channel.

use std::collections::HashMap;
use rand::Rng;
use vstd::prelude::*;
use crate::rmux::session;
use crate::mux::message;
use crate::mux::event;
use crate::mux::event::EventView;
use crate::rmux::event::{
    new_ping_event, new_shutdown_event, new_syn_event, new_window_update_event, Event, FLAG_PING,
    FLAG_SHUTDOWN, FLAG_SYN, FLAG_WIN_UPDATE,
};
use crate::rmux::message::ConnectRequest;
use crate::rmux::session::PendingStream;
use crate::rmux::stream::SendPoll;
use crate::text::same_text;

verus! {

/// The times of a session.
#[derive(Debug, PartialEq, Eq, Structural, Clone, Copy)]
pub struct MuxSessionState {
    /// When the last ping went out, in seconds; zero where none has.
    pub last_ping_send_time: i64,
    /// When the last answer came, in seconds; zero where none has.
    pub last_pong_recv_time: i64,
    /// When the session started, on a clock that never goes back.
    pub born_time: u64,
    pub retired: bool,
}

impl MuxSessionState {
    pub open spec fn gap(self) -> int {
        if self.last_ping_send_time > 0 && self.last_pong_recv_time > 0 {
            self.last_pong_recv_time - self.last_ping_send_time
        } else {
            0
        }
    }

    /// How long after the last ping its answer came; negative while it is due.
    pub fn ping_pong_gap(&self) -> (r: i64)
        ensures
            r == self.gap(),
    {
        let t1: i64 = self.last_ping_send_time;
        let t2: i64 = self.last_pong_recv_time;
        if t1 > 0 && t2 > 0 {
            return t2 - t1;
        }
        0
    }

    pub fn is_retired(&self) -> (r: bool)
        ensures
            r == self.retired,
    {
        self.retired
    }
}

/// A session, as its channel knows it.
pub struct MuxSession {
    id: u32,
    pendding_streams: Vec<PendingStream>,
    stream_id_seed: u32,
    state: MuxSessionState,
    max_alive_secs: u64,
}

#[verifier::ext_equal]
pub struct SessionView {
    pub id: u32,
    /// The streams that wait to be taken in.
    pub pending: Seq<(u32, (Seq<char>, Seq<char>))>,
    /// The number of the next stream.
    pub seed: u32,
    pub state: MuxSessionState,
    pub max_alive: u64,
}

impl View for MuxSession {
    type V = SessionView;

    closed spec fn view(&self) -> SessionView {
        SessionView {
            id: self.id,
            pending: session::pending_views(self.pendding_streams@),
            seed: self.stream_id_seed,
            state: self.state,
            max_alive: self.max_alive_secs,
        }
    }
}

impl SessionView {
    /// The longest life can be counted in seconds.
    pub open spec fn wf(self) -> bool {
        self.max_alive <= i64::MAX - 60
    }

    /// The session after a ping.
    pub open spec fn pinged(self, now: i64) -> SessionView {
        SessionView {
            state: MuxSessionState { last_ping_send_time: now, ..self.state },
            ..self
        }
    }

    /// No answer has come for over a minute.
    pub open spec fn is_dead(self) -> bool {
        self.state.gap() < -60
    }

    /// The session has lived longer than `jitter` seconds beyond its longest life.
    pub open spec fn is_old(self, clock: u64, jitter: i64) -> bool {
        let elapsed = if clock >= self.state.born_time {
            clock - self.state.born_time
        } else {
            0
        };
        self.max_alive > 0 && elapsed > (self.max_alive + jitter) as i64 as u64
    }

    /// What is left of the session in its channel after the routine.
    pub open spec fn after_routine(self, now: i64, clock: u64, jitter: i64) -> Option<SessionView> {
        if self.is_dead() {
            Some(self)
        } else if self.is_old(clock, jitter) {
            None
        } else {
            Some(self.pinged(now))
        }
    }

    /// What the session is sent.
    pub open spec fn routine_event(self) -> EventView {
        if self.is_dead() {
            event::event_of(FLAG_SHUTDOWN, 0, Seq::empty())
        } else {
            event::event_of(FLAG_PING, 0, Seq::empty())
        }
    }

    /// The session with one more stream waiting.
    pub open spec fn opening(self, target: (Seq<char>, Seq<char>)) -> SessionView {
        SessionView {
            pending: self.pending.push((self.seed, target)),
            seed: u32::wrapping_add(self.seed, 2),
            ..self
        }
    }
}

impl MuxSession {
    /// A session of a channel. The side with a channel opens odd streams; the other, even ones.
    pub fn new(channel: &str, id: u32, max_alive_secs: u64, born_time: u64) -> (r: MuxSession)
        requires
            max_alive_secs <= i64::MAX - 60,
        ensures
            r@.wf(),
            r@ == (SessionView {
                id,
                pending: Seq::empty(),
                seed: if channel@.len() == 0 {
                    2
                } else {
                    1
                },
                state: MuxSessionState {
                    last_ping_send_time: 0,
                    last_pong_recv_time: 0,
                    born_time,
                    retired: false,
                },
                max_alive: max_alive_secs,
            }),
    {
        let seed: u32 = if channel.is_empty() {
            2
        } else {
            1
        };
        let state = MuxSessionState {
            last_ping_send_time: 0,
            last_pong_recv_time: 0,
            born_time,
            retired: false,
        };
        let r = MuxSession {
            id,
            pendding_streams: Vec::new(),
            stream_id_seed: seed,
            state,
            max_alive_secs,
        };
        assert(r@.pending =~= Seq::empty());
        r
    }

    /// What the routine does about a session: the event for it, and whether it is retired. A
    /// session that does not answer is shut down; any other is sent a ping, and retired once it
    /// is too old.
    pub fn routine(&mut self, now: i64, clock: u64, jitter: i64) -> (r: (Event, bool))
        requires
            old(self)@.wf(),
            -60 <= jitter < 60,
        ensures
            r.0@ == old(self)@.routine_event(),
            !r.0.remote,
            r.1 == (!old(self)@.is_dead() && old(self)@.is_old(clock, jitter)),
            final(self)@.wf(),
            final(self)@ == if old(self)@.is_dead() {
                old(self)@
            } else if r.1 {
                (SessionView {
                    state: MuxSessionState {
                        retired: true,
                        last_ping_send_time: now,
                        ..old(self)@.state
                    },
                    ..old(self)@
                })
            } else {
                old(self)@.pinged(now)
            },
    {
        if self.state.ping_pong_gap() < -60 {
            return (new_shutdown_event(0, false), false);
        }
        let ping = new_ping_event(0, false);
        self.state.last_ping_send_time = now;
        if self.max_alive_secs > 0 {
            let limit: i64 = self.max_alive_secs as i64 + jitter;
            let elapsed: u64 = clock.saturating_sub(self.state.born_time);
            if elapsed > limit as u64 {
                self.state.retired = true;
                return (ping, true);
            }
        }
        (ping, false)
    }
}

/// `rand::Rng::gen_range` of the thread's generator: some number from `low` up to, and without,
/// `high`.
#[verifier::external_body]
pub(crate) fn random_between(low: i64, high: i64) -> (r: i64)
    requires
        low < high,
    ensures
        low <= r < high,
{
    rand::thread_rng().gen_range(low..high)
}

/// The sessions of one channel. A session keeps its slot until it ends or is retired.
pub struct ChannelMuxSession {
    session_ids: HashMap<u32, usize>,
    sessions: Vec<Option<MuxSession>>,
    cursor: u32,
}

#[verifier::ext_equal]
pub struct ChannelView {
    /// The slot of each session, by its number.
    pub ids: Map<u32, usize>,
    pub slots: Seq<Option<SessionView>>,
    /// Where the search for a session goes on.
    pub cursor: u32,
}

pub open spec fn slot_view(s: Option<MuxSession>) -> Option<SessionView> {
    match s {
        Some(v) => Some(v@),
        None => None,
    }
}

spec fn slot_views(v: Seq<Option<MuxSession>>) -> Seq<Option<SessionView>> {
    Seq::new(v.len(), |i: int| slot_view(v[i]))
}

impl View for ChannelMuxSession {
    type V = ChannelView;

    closed spec fn view(&self) -> ChannelView {
        ChannelView {
            ids: self.session_ids@,
            slots: slot_views(self.sessions@),
            cursor: self.cursor,
        }
    }
}

/// The first free slot from `i` on; the number of slots where there is none.
pub open spec fn first_free(slots: Seq<Option<SessionView>>, i: int) -> int
    decreases slots.len() - i,
{
    if i < 0 || i >= slots.len() {
        slots.len() as int
    } else if slots[i] is None {
        i
    } else {
        first_free(slots, i + 1)
    }
}

/// The slots that hold a session, in order, with what they hold.
pub open spec fn live(slots: Seq<Option<SessionView>>) -> Seq<(int, SessionView)>
    decreases slots.len(),
{
    if slots.len() == 0 {
        Seq::empty()
    } else {
        let rest = live(slots.drop_last());
        match slots.last() {
            Some(s) => rest.push((slots.len() - 1, s)),
            None => rest,
        }
    }
}

impl ChannelView {
    /// Every session's slot is there, and every session is sound.
    pub open spec fn wf(self) -> bool {
        &&& forall|sid: u32| #[trigger]
            self.ids.contains_key(sid) ==> self.ids[sid] < self.slots.len()
        &&& forall|i: int|
            0 <= i < self.slots.len() && (#[trigger] self.slots[i]) is Some
                ==> self.slots[i]->Some_0.wf()
    }

    /// A channel without sessions.
    pub open spec fn fresh() -> ChannelView {
        ChannelView { ids: Map::empty(), slots: Seq::empty(), cursor: 0 }
    }

    /// The channel with the session in its first free slot.
    pub open spec fn stored(self, sid: u32, session: SessionView) -> ChannelView {
        let i = first_free(self.slots, 0);
        ChannelView {
            ids: self.ids.insert(sid, i as usize),
            slots: if i < self.slots.len() {
                self.slots.update(i, Some(session))
            } else {
                self.slots.push(Some(session))
            },
            ..self
        }
    }

    /// The channel without the session; its slot is free.
    pub open spec fn erased(self, sid: u32) -> ChannelView {
        if self.ids.contains_key(sid) {
            ChannelView {
                ids: self.ids.remove(sid),
                slots: self.slots.update(self.ids[sid] as int, None),
                ..self
            }
        } else {
            self
        }
    }

    /// The session of this number, where its slot holds one.
    pub open spec fn session(self, sid: u32) -> Option<SessionView> {
        if self.ids.contains_key(sid) {
            self.slots[self.ids[sid] as int]
        } else {
            None
        }
    }

    /// The channel after a session was answered. A slot that another session has got since is left
    /// alone.
    pub open spec fn answered(self, sid: u32, now: i64) -> ChannelView {
        match self.session(sid) {
            Some(s) => if s.id == sid {
                ChannelView {
                    slots: self.slots.update(
                        self.ids[sid] as int,
                        Some(
                            SessionView {
                                state: MuxSessionState { last_pong_recv_time: now, ..s.state },
                                ..s
                            },
                        ),
                    ),
                    ..self
                }
            } else {
                self
            },
            None => self,
        }
    }

    /// The channel after the waiting streams of a session were taken.
    pub open spec fn relieved(self, sid: u32) -> ChannelView {
        match self.session(sid) {
            Some(s) => ChannelView {
                slots: self.slots.update(
                    self.ids[sid] as int,
                    Some(SessionView { pending: Seq::empty(), ..s }),
                ),
                ..self
            },
            None => self,
        }
    }

    /// The slot that the search looks at next.
    pub open spec fn next_slot(self) -> int {
        self.cursor as int % self.slots.len() as int
    }

    /// The channel after the search looked at one slot: a session there gets a stream.
    pub open spec fn searched(self, target: (Seq<char>, Seq<char>)) -> ChannelView {
        let i = self.next_slot();
        ChannelView {
            cursor: u32::wrapping_add(self.cursor, 1),
            slots: match self.slots[i] {
                Some(s) => self.slots.update(i, Some(s.opening(target))),
                None => self.slots,
            },
            ..self
        }
    }

    /// The channel after the search looked at `n` slots.
    pub open spec fn after_search(self, target: (Seq<char>, Seq<char>), n: nat) -> ChannelView
        decreases n,
    {
        if n == 0 {
            self
        } else {
            self.after_search(target, (n - 1) as nat).searched(target)
        }
    }

    /// The session and stream that the search ends up with: the last that it came by.
    pub open spec fn found(self, target: (Seq<char>, Seq<char>), n: nat) -> Option<(u32, u32)>
        decreases n,
    {
        if n == 0 {
            None
        } else {
            let before = self.after_search(target, (n - 1) as nat);
            match before.slots[before.next_slot()] {
                Some(s) => Some((s.id, s.seed)),
                None => self.found(target, (n - 1) as nat),
            }
        }
    }
}

impl ChannelMuxSession {
    fn new() -> (r: ChannelMuxSession)
        ensures
            r@ == ChannelView::fresh(),
            r@.wf(),
    {
        let r = ChannelMuxSession { session_ids: HashMap::new(), sessions: Vec::new(), cursor: 0 };
        assert(r@ =~= ChannelView::fresh());
        r
    }

    fn store(&mut self, sid: u32, session: MuxSession)
        requires
            old(self)@.wf(),
            session@.wf(),
        ensures
            final(self)@.wf(),
            final(self)@ == old(self)@.stored(sid, session@),
    {
        let ghost pre = self@;
        let ghost view = session@;
        let mut i: usize = 0;
        while i < self.sessions.len() && self.sessions[i].is_some()
            invariant
                i <= self.sessions@.len(),
                self@ == pre,
                first_free(pre.slots, 0) == first_free(pre.slots, i as int),
            decreases self.sessions@.len() - i,
        {
            assert(pre.slots[i as int] is Some);
            i += 1;
        }
        if i < self.sessions.len() {
            assert(pre.slots[i as int] is None);
            self.sessions.set(i, Some(session));
        } else {
            self.sessions.push(Some(session));
        }
        self.session_ids.insert(sid, i);
        assert(self@ =~= pre.stored(sid, view));
    }

    fn erase(&mut self, sid: u32)
        requires
            old(self)@.wf(),
        ensures
            final(self)@.wf(),
            final(self)@ == old(self)@.erased(sid),
    {
        let ghost pre = self@;
        if let Some(idx) = self.session_ids.remove(&sid) {
            assert(pre.ids.contains_key(sid));
            self.sessions.set(idx, None);
        }
        assert(self@ =~= pre.erased(sid));
    }

    fn take_pending(&mut self, sid: u32) -> (r: Vec<PendingStream>)
        requires
            old(self)@.wf(),
        ensures
            final(self)@.wf(),
            final(self)@ == old(self)@.relieved(sid),
            session::pending_views(r@) == match old(self)@.session(sid) {
                Some(s) => s.pending.reverse(),
                None => Seq::empty(),
            },
    {
        let ghost pre = self@;
        let mut taken: Vec<PendingStream> = Vec::new();
        assert(session::pending_views(taken@) =~= Seq::empty());
        let idx: usize = match self.session_ids.get(&sid) {
            Some(i) => *i,
            None => {
                return taken;
            },
        };
        assert(pre.ids.contains_key(sid));
        let mut slot: Option<MuxSession> = None;
        std::mem::swap(&mut slot, &mut self.sessions[idx]);
        match slot {
            Some(s) => {
                let mut s = s;
                let ghost was = s@;
                loop
                    invariant
                        s@ == (SessionView { pending: s@.pending, ..was }),
                        s@.pending == was.pending.take(was.pending.len() - taken@.len()),
                        taken@.len() <= was.pending.len(),
                        session::pending_views(taken@) == was.pending.reverse().take(
                            taken@.len() as int,
                        ),
                    ensures
                        s@ == (SessionView { pending: Seq::empty(), ..was }),
                        session::pending_views(taken@) == was.pending.reverse(),
                    decreases s.pendding_streams@.len(),
                {
                    let ghost before = taken@;
                    let ghost left = s.pendding_streams@;
                    match s.pendding_streams.pop() {
                        Some(p) => {
                            let ghost got = p@;
                            taken.push(p);
                            proof {
                                assert(session::pending_views(left).last() == got);
                                assert(s@.pending =~= session::pending_views(left).drop_last());
                                assert(s@.pending =~= was.pending.take(
                                    was.pending.len() - taken@.len(),
                                ));
                                assert(session::pending_views(taken@)
                                    =~= session::pending_views(before).push(got));
                                assert(session::pending_views(taken@)
                                    =~= was.pending.reverse().take(taken@.len() as int));
                            }
                        },
                        None => {
                            proof {
                                assert(s@.pending =~= Seq::empty());
                                assert(was.pending.reverse().take(taken@.len() as int)
                                    =~= was.pending.reverse());
                            }
                            break;
                        },
                    }
                }
                self.sessions.set(idx, Some(s));
            },
            None => {},
        }
        assert(self@ =~= pre.relieved(sid));
        taken
    }

    fn pong(&mut self, sid: u32, now: i64)
        requires
            old(self)@.wf(),
        ensures
            final(self)@.wf(),
            final(self)@ == old(self)@.answered(sid, now),
    {
        let ghost pre = self@;
        if let Some(i) = self.session_ids.get(&sid) {
            let idx: usize = *i;
            assert(pre.ids.contains_key(sid));
            let mut slot: Option<MuxSession> = None;
            std::mem::swap(&mut slot, &mut self.sessions[idx]);
            if let Some(s) = slot {
                let mut s = s;
                if s.id == sid {
                    s.state.last_pong_recv_time = now;
                }
                let ghost is = s@;
                self.sessions.set(idx, Some(s));
                assert(is.wf());
                assert(self@.slots =~= pre.slots.update(idx as int, Some(is)));
            }
            assert(self@ =~= pre.answered(sid, now));
        }
    }

    /// Looks at one slot; a session there gets a stream.
    fn search(&mut self, target: &ConnectRequest) -> (r: Option<(u32, u32)>)
        requires
            old(self)@.wf(),
            0 < old(self)@.slots.len() <= u32::MAX,
        ensures
            final(self)@.wf(),
            final(self)@ == old(self)@.searched(target@),
            r == match old(self)@.slots[old(self)@.next_slot()] {
                Some(s) => Some((s.id, s.seed)),
                None => None,
            },
    {
        let ghost pre = self@;
        let n: u32 = self.sessions.len() as u32;
        let idx: usize = (self.cursor % n) as usize;
        self.cursor = self.cursor.wrapping_add(1);
        let mut slot: Option<MuxSession> = None;
        std::mem::swap(&mut slot, &mut self.sessions[idx]);
        match slot {
            Some(s) => {
                let mut s = s;
                let ghost was = s@;
                let stream_id: u32 = s.stream_id_seed;
                let id: u32 = s.id;
                s.stream_id_seed = s.stream_id_seed.wrapping_add(2);
                s.pendding_streams.push(PendingStream { id: stream_id, target: target.clone() });
                proof {
                    assert(s@.pending =~= was.pending.push((stream_id, target@)));
                }
                self.sessions.set(idx, Some(s));
                assert(self@ =~= pre.searched(target@));
                Some((id, stream_id))
            },
            None => {
                assert(self@ =~= pre.searched(target@));
                None
            },
        }
    }

    /// Searches all slots once for a session that takes a stream.
    fn open(&mut self, target: &ConnectRequest) -> (r: Option<(u32, u32)>)
        requires
            old(self)@.wf(),
            old(self)@.slots.len() <= u32::MAX,
        ensures
            final(self)@.wf(),
            final(self)@ == old(self)@.after_search(target@, old(self)@.slots.len()),
            r == old(self)@.found(target@, old(self)@.slots.len()),
    {
        let ghost pre = self@;
        let n: usize = self.sessions.len();
        let mut r: Option<(u32, u32)> = None;
        let mut k: usize = 0;
        while k < n
            invariant
                k <= n,
                n == pre.slots.len(),
                n <= u32::MAX,
                self@.wf(),
                self@.slots.len() == n,
                self@ == pre.after_search(target@, k as nat),
                r == pre.found(target@, k as nat),
            decreases n - k,
        {
            if let Some(found) = self.search(target) {
                r = Some(found);
            }
            k += 1;
        }
        r
    }
}

/// What the routine asks for about a session: the event for it, and whether it was retired.
pub struct RoutineAction {
    pub channel: String,
    pub session_id: u32,
    pub ev: Event,
    pub retired: bool,
}

/// What the routine may make of a slot: the exact life of a session is left to chance.
pub open spec fn routine_slot(
    pre: Option<SessionView>,
    post: Option<SessionView>,
    now: i64,
    clock: u64,
) -> bool {
    match pre {
        Some(s) => exists|jitter: i64|
            -60 <= jitter < 60 && post == #[trigger] s.after_routine(now, clock, jitter),
        None => post is None,
    }
}

/// What the routine may make of a channel.
pub open spec fn routine_channel(
    pre: ChannelView,
    post: ChannelView,
    now: i64,
    clock: u64,
) -> bool {
    &&& post == (ChannelView { slots: post.slots, ..pre })
    &&& post.slots.len() == pre.slots.len()
    &&& forall|i: int|
        0 <= i < pre.slots.len() ==> routine_slot(
            pre.slots[i],
            #[trigger] post.slots[i],
            now,
            clock,
        )
}

/// The action tells what the routine did about the session.
pub open spec fn tells(
    a: RoutineAction,
    name: Seq<char>,
    s: SessionView,
    after: Option<SessionView>,
) -> bool {
    &&& a.channel@ == name
    &&& a.session_id == s.id
    &&& a.ev@ == s.routine_event()
    &&& !a.ev.remote
    &&& a.retired == (after is None)
}

impl ChannelMuxSession {
    fn routine(&mut self, name: &str, now: i64, clock: u64) -> (r: Vec<RoutineAction>)
        requires
            old(self)@.wf(),
        ensures
            final(self)@.wf(),
            routine_channel(old(self)@, final(self)@, now, clock),
            r@.len() == live(old(self)@.slots).len(),
            forall|k: int|
                0 <= k < r@.len() ==> tells(
                    #[trigger] r@[k],
                    name@,
                    live(old(self)@.slots)[k].1,
                    final(self)@.slots[live(old(self)@.slots)[k].0],
                ),
    {
        let ghost pre = self@;
        let mut actions: Vec<RoutineAction> = Vec::new();
        let n: usize = self.sessions.len();
        let mut i: usize = 0;
        assert(pre.slots.take(0) =~= Seq::empty());
        while i < n
            invariant
                i <= n,
                n == pre.slots.len(),
                pre.wf(),
                self@.wf(),
                self@ == (ChannelView { slots: self@.slots, ..pre }),
                self@.slots.len() == n,
                self.sessions@.len() == n,
                forall|j: int|
                    0 <= j < i ==> routine_slot(
                        pre.slots[j],
                        #[trigger] self@.slots[j],
                        now,
                        clock,
                    ),
                forall|j: int| i <= j < n ==> #[trigger] self@.slots[j] == pre.slots[j],
                actions@.len() == live(pre.slots.take(i as int)).len(),
                forall|k: int|
                    0 <= k < actions@.len() ==> live(pre.slots.take(i as int))[k].0 < i && tells(
                        #[trigger] actions@[k],
                        name@,
                        live(pre.slots.take(i as int))[k].1,
                        self@.slots[live(pre.slots.take(i as int))[k].0],
                    ),
            decreases n - i,
        {
            let ghost before = self@;
            let ghost told = actions@;
            proof {
                lemma_live_below(pre.slots.take(i as int));
                assert(pre.slots.take(i + 1).drop_last() =~= pre.slots.take(i as int));
                assert(pre.slots.take(i + 1).last() == pre.slots[i as int]);
                assert(before.slots[i as int] == pre.slots[i as int]);
            }
            let mut slot: Option<MuxSession> = None;
            std::mem::swap(&mut slot, &mut self.sessions[i]);
            match slot {
                Some(s) => {
                    let mut s = s;
                    let ghost was = s@;
                    assert(pre.slots[i as int] == Some(was));
                    let jitter: i64 = random_between(-60, 60);
                    let (ev, retired) = s.routine(now, clock, jitter);
                    actions.push(
                        RoutineAction { channel: name.to_owned(), session_id: s.id, ev, retired },
                    );
                    if !retired {
                        self.sessions.set(i, Some(s));
                    }
                    proof {
                        assert(self@.slots[i as int] == was.after_routine(now, clock, jitter));
                        assert(routine_slot(
                            pre.slots[i as int],
                            self@.slots[i as int],
                            now,
                            clock,
                        ));
                        assert(live(pre.slots.take(i + 1)) == live(pre.slots.take(i as int)).push(
                            (i as int, was),
                        ));
                    }
                },
                None => {},
            }
            proof {
                assert forall|j: int| 0 <= j < n && j != i implies #[trigger] self@.slots[j]
                    == before.slots[j] by {}
                assert(self@ =~= (ChannelView { slots: self@.slots, ..pre }));
                assert forall|k: int| 0 <= k < actions@.len() implies live(
                    pre.slots.take(i + 1),
                )[k].0 < i + 1 && tells(
                    #[trigger] actions@[k],
                    name@,
                    live(pre.slots.take(i + 1))[k].1,
                    self@.slots[live(pre.slots.take(i + 1))[k].0],
                ) by {
                    if k < told.len() {
                        assert(actions@[k] == told[k]);
                    }
                }
            }
            i += 1;
        }
        assert(pre.slots.take(i as int) =~= pre.slots);
        actions
    }
}

/// The live slots are slots.
proof fn lemma_live_below(slots: Seq<Option<SessionView>>)
    ensures
        forall|k: int|
            0 <= k < live(slots).len() ==> 0 <= (#[trigger] live(slots)[k]).0 < slots.len()
                && slots[live(slots)[k].0] == Some(live(slots)[k].1),
    decreases slots.len(),
{
    if slots.len() > 0 {
        lemma_live_below(slots.drop_last());
    }
}

/// The channels by their names, each name once.
pub struct ChannelSessionManager {
    channels: Vec<(String, ChannelMuxSession)>,
}

/// The channels, with their names.
pub type ManagerView = Seq<(Seq<char>, ChannelView)>;

spec fn channel_views(v: Seq<(String, ChannelMuxSession)>) -> ManagerView {
    Seq::new(v.len(), |i: int| (v[i].0@, v[i].1@))
}

impl View for ChannelSessionManager {
    type V = ManagerView;

    closed spec fn view(&self) -> ManagerView {
        channel_views(self.channels@)
    }
}

/// No name stands twice, and every channel is sound.
pub open spec fn sound(m: ManagerView) -> bool {
    &&& forall|i: int, j: int| 0 <= i < j < m.len() ==> (#[trigger] m[i]).0 != (#[trigger] m[j]).0
    &&& forall|i: int| 0 <= i < m.len() ==> (#[trigger] m[i]).1.wf()
}

/// Where the channel stands, from `i` on.
pub open spec fn place(m: ManagerView, name: Seq<char>, i: int) -> Option<int>
    decreases m.len() - i,
{
    if i < 0 || i >= m.len() {
        None
    } else if m[i].0 == name {
        Some(i)
    } else {
        place(m, name, i + 1)
    }
}

/// The channel of this name.
pub open spec fn channel_of(m: ManagerView, name: Seq<char>) -> Option<ChannelView> {
    match place(m, name, 0) {
        Some(i) => Some(m[i].1),
        None => None,
    }
}

/// The channels with one of them changed; one that was not there is added.
pub open spec fn with_channel(m: ManagerView, name: Seq<char>, c: ChannelView) -> ManagerView {
    match place(m, name, 0) {
        Some(i) => m.update(i, (name, c)),
        None => m.push((name, c)),
    }
}

proof fn lemma_place(m: ManagerView, name: Seq<char>, i: int)
    requires
        0 <= i,
    ensures
        match place(m, name, i) {
            Some(k) => i <= k < m.len() && m[k].0 == name,
            None => forall|k: int| i <= k < m.len() ==> (#[trigger] m[k]).0 != name,
        },
    decreases m.len() - i,
{
    if i < m.len() && m[i].0 != name {
        lemma_place(m, name, i + 1);
    }
}

/// The sessions that the routine goes through: the channel and slot of each. A channel without a
/// name is left out.
pub open spec fn due(m: ManagerView) -> Seq<(int, int, SessionView)>
    decreases m.len(),
{
    if m.len() == 0 {
        Seq::empty()
    } else {
        let rest = due(m.drop_last());
        let c = m.last();
        if c.0.len() == 0 {
            rest
        } else {
            let sessions = live(c.1.slots);
            rest + Seq::new(
                sessions.len(),
                |k: int| (m.len() - 1, sessions[k].0, sessions[k].1),
            )
        }
    }
}

impl ChannelSessionManager {
    pub fn new() -> (r: ChannelSessionManager)
        ensures
            r@ == ManagerView::empty(),
            sound(r@),
    {
        let r = ChannelSessionManager { channels: Vec::new() };
        assert(r@ =~= ManagerView::empty());
        r
    }

    fn find(&self, channel: &str) -> (r: Option<usize>)
        ensures
            match r {
                Some(i) => place(self@, channel@, 0) == Some(i as int) && i < self@.len()
                    && self.channels@[i as int].0@ == channel@,
                None => place(self@, channel@, 0) is None,
            },
            self@.len() == self.channels@.len(),
    {
        let mut i: usize = 0;
        while i < self.channels.len()
            invariant
                i <= self.channels@.len(),
                place(self@, channel@, 0) == place(self@, channel@, i as int),
            decreases self.channels@.len() - i,
        {
            if same_text(self.channels[i].0.as_str(), channel) {
                return Some(i);
            }
            i += 1;
        }
        None
    }
}

/// Stores the session of a channel; a channel that was not there is made.
pub fn store_mux_session(
    holder: &mut ChannelSessionManager,
    channel: &str,
    sid: u32,
    session: MuxSession,
)
    requires
        sound(old(holder)@),
        session@.wf(),
    ensures
        sound(final(holder)@),
        final(holder)@ == with_channel(
            old(holder)@,
            channel@,
            match channel_of(old(holder)@, channel@) {
                Some(c) => c,
                None => ChannelView::fresh(),
            }.stored(sid, session@),
        ),
{
    let ghost pre = holder@;
    let ghost view = session@;
    proof {
        lemma_place(pre, channel@, 0);
    }
    match holder.find(channel) {
        Some(i) => {
            let ghost c = pre[i as int].1;
            let entry = &mut holder.channels[i];
            entry.1.store(sid, session);
            assert(holder@ =~= pre.update(i as int, (channel@, c.stored(sid, view))));
        },
        None => {
            let mut c = ChannelMuxSession::new();
            c.store(sid, session);
            holder.channels.push((channel.to_owned(), c));
            assert(holder@ =~= pre.push((channel@, ChannelView::fresh().stored(sid, view))));
        },
    }
}

/// The channels with a session of one of them gone.
pub open spec fn without_session(m: ManagerView, channel: Seq<char>, sid: u32) -> ManagerView {
    match channel_of(m, channel) {
        Some(c) => with_channel(m, channel, c.erased(sid)),
        None => m,
    }
}

/// Takes a session that has ended off its channel.
pub fn erase_mux_session(holder: &mut ChannelSessionManager, channel: &str, sid: u32)
    requires
        sound(old(holder)@),
    ensures
        sound(final(holder)@),
        final(holder)@ == without_session(old(holder)@, channel@, sid),
{
    let ghost pre = holder@;
    proof {
        lemma_place(pre, channel@, 0);
    }
    match holder.find(channel) {
        Some(i) => {
            let ghost c = pre[i as int].1;
            let entry = &mut holder.channels[i];
            entry.1.erase(sid);
            assert(holder@ =~= pre.update(i as int, (channel@, c.erased(sid))));
        },
        None => {},
    }
}

/// Takes the waiting streams of a session, the last one first.
pub fn take_pendding_mux_streams(holder: &mut ChannelSessionManager, channel: &str, sid: u32) -> (r:
    Vec<PendingStream>)
    requires
        sound(old(holder)@),
    ensures
        sound(final(holder)@),
        match channel_of(old(holder)@, channel@) {
            Some(c) => {
                &&& final(holder)@ == with_channel(old(holder)@, channel@, c.relieved(sid))
                &&& session::pending_views(r@) == match c.session(sid) {
                    Some(s) => s.pending.reverse(),
                    None => Seq::empty(),
                }
            },
            None => final(holder)@ == old(holder)@ && r@.len() == 0,
        },
{
    let ghost pre = holder@;
    proof {
        lemma_place(pre, channel@, 0);
    }
    match holder.find(channel) {
        Some(i) => {
            let ghost c = pre[i as int].1;
            let entry = &mut holder.channels[i];
            let r = entry.1.take_pending(sid);
            assert(holder@ =~= pre.update(i as int, (channel@, c.relieved(sid))));
            r
        },
        None => Vec::new(),
    }
}

/// How many sessions a channel has; none where there is no such channel.
pub open spec fn session_count(m: ManagerView, channel: Seq<char>) -> nat {
    match channel_of(m, channel) {
        Some(c) => c.ids.len(),
        None => 0,
    }
}

/// How many sessions a channel has.
pub fn get_channel_session_size(holder: &ChannelSessionManager, channel: &str) -> (n: usize)
    ensures
        n == session_count(holder@, channel@),
{
    match holder.find(channel) {
        Some(i) => holder.channels[i].1.session_ids.len(),
        None => 0,
    }
}

/// A ping of a session was answered.
pub fn pong_received(holder: &mut ChannelSessionManager, channel: &str, sid: u32, now: i64)
    requires
        sound(old(holder)@),
    ensures
        sound(final(holder)@),
        final(holder)@ == match channel_of(old(holder)@, channel@) {
            Some(c) => with_channel(old(holder)@, channel@, c.answered(sid, now)),
            None => old(holder)@,
        },
{
    let ghost pre = holder@;
    proof {
        lemma_place(pre, channel@, 0);
    }
    match holder.find(channel) {
        Some(i) => {
            let ghost c = pre[i as int].1;
            let entry = &mut holder.channels[i];
            entry.1.pong(sid, now);
            assert(holder@ =~= pre.update(i as int, (channel@, c.answered(sid, now))));
        },
        None => {},
    }
}

/// Asks for a stream to the address on one of the channel's sessions: gives the session, the
/// stream and the event that opens it; `None` stands for "not channel found.".
pub fn create_stream(
    holder: &mut ChannelSessionManager,
    channel: &str,
    proto: &str,
    addr: &str,
) -> (r: Option<(u32, u32, Event)>)
    requires
        sound(old(holder)@),
        channel_of(old(holder)@, channel@) is Some ==> channel_of(
            old(holder)@,
            channel@,
        )->Some_0.slots.len() <= u32::MAX,
    ensures
        sound(final(holder)@),
        asks_stream(old(holder)@, final(holder)@, channel@, (proto@, addr@), r),
{
    let ghost pre = holder@;
    proof {
        lemma_place(pre, channel@, 0);
    }
    match holder.find(channel) {
        Some(i) => {
            let ghost c = pre[i as int].1;
            let target = ConnectRequest { proto: proto.to_owned(), addr: addr.to_owned() };
            let entry = &mut holder.channels[i];
            let found = entry.1.open(&target);
            assert(holder@ =~= pre.update(
                i as int,
                (channel@, c.after_search(target@, c.slots.len())),
            ));
            match found {
                Some((session, stream)) => {
                    let data = target.to_bytes();
                    Some((session, stream, new_syn_event(stream, data.as_slice())))
                },
                None => None,
            }
        },
        None => None,
    }
}

/// Reports to the peer that more was read: the event for the session's queue, where it is there
/// and the queue takes it. Gives whether the report is done with; a session that is gone needs
/// none.
pub fn report_update_window(
    holder: &ChannelSessionManager,
    channel: &str,
    session_id: u32,
    stream_id: u32,
    window: u32,
    ready: SendPoll,
) -> (r: (bool, Option<Event>))
    requires
        sound(holder@),
    ensures
        reports(holder@, channel@, session_id, stream_id, window, ready, r.0, r.1),
{
    proof {
        lemma_place(holder@, channel@, 0);
    }
    if let Some(i) = holder.find(channel) {
        let c = &holder.channels[i].1;
        assert(c@ == holder@[i as int].1);
        if let Some(idx) = c.session_ids.get(&session_id) {
            assert(c@.ids.contains_key(session_id));
            if c.sessions[*idx].is_some() {
                return match ready {
                    SendPoll::Ready => (
                        true,
                        Some(new_window_update_event(stream_id, window, false)),
                    ),
                    _ => (false, None),
                };
            }
        }
    }
    (true, None)
}

/// What the routine may make of the channels: those without a name are left alone.
pub open spec fn routine_all(
    pre: ManagerView,
    post: ManagerView,
    now: i64,
    clock: u64,
) -> bool {
    &&& post.len() == pre.len()
    &&& forall|i: int|
        0 <= i < pre.len() ==> {
            &&& (#[trigger] post[i]).0 == pre[i].0
            &&& if pre[i].0.len() == 0 {
                post[i].1 == pre[i].1
            } else {
                routine_channel(pre[i].1, post[i].1, now, clock)
            }
        }
}

/// The actions tell, one for each session of the list, what the routine did about it.
pub open spec fn all_told(
    actions: Seq<RoutineAction>,
    listed: Seq<(int, int, SessionView)>,
    pre: ManagerView,
    post: ManagerView,
) -> bool {
    &&& actions.len() == listed.len()
    &&& forall|k: int|
        0 <= k < actions.len() ==> tells(
            #[trigger] actions[k],
            pre[listed[k].0].0,
            listed[k].2,
            post[listed[k].0].1.slots[listed[k].1],
        )
}

proof fn lemma_due_below(m: ManagerView)
    ensures
        forall|k: int| 0 <= k < due(m).len() ==> 0 <= (#[trigger] due(m)[k]).0 < m.len(),
    decreases m.len(),
{
    if m.len() > 0 {
        lemma_due_below(m.drop_last());
        let rest = due(m.drop_last());
        assert forall|k: int| 0 <= k < due(m).len() implies 0 <= (#[trigger] due(m)[k]).0
            < m.len() by {
            if k < rest.len() {
                assert(due(m)[k] == rest[k]);
            }
        }
    }
}

/// Goes through the sessions of all named channels: one that has not answered for over a minute
/// is shut down, any other is sent a ping, and one that has lived too long is retired.
pub fn routine_all_sessions(holder: &mut ChannelSessionManager, now: i64, clock: u64) -> (r: Vec<
    RoutineAction,
>)
    requires
        sound(old(holder)@),
    ensures
        sound(final(holder)@),
        routine_all(old(holder)@, final(holder)@, now, clock),
        all_told(r@, due(old(holder)@), old(holder)@, final(holder)@),
{
    let ghost pre = holder@;
    let mut actions: Vec<RoutineAction> = Vec::new();
    let n: usize = holder.channels.len();
    let mut i: usize = 0;
    assert(pre.take(0) =~= ManagerView::empty());
    while i < n
        invariant
            i <= n,
            n == pre.len(),
            n == holder.channels@.len(),
            sound(pre),
            sound(holder@),
            holder@.len() == n,
            forall|j: int| 0 <= j < n ==> (#[trigger] holder@[j]).0 == pre[j].0,
            forall|j: int|
                0 <= j < i ==> if pre[j].0.len() == 0 {
                    (#[trigger] holder@[j]).1 == pre[j].1
                } else {
                    routine_channel(pre[j].1, holder@[j].1, now, clock)
                },
            forall|j: int| i <= j < n ==> #[trigger] holder@[j] == pre[j],
            all_told(actions@, due(pre.take(i as int)), pre, holder@),
        decreases n - i,
    {
        let ghost before = holder@;
        let ghost told = actions@;
        let ghost rest = due(pre.take(i as int));
        proof {
            lemma_due_below(pre.take(i as int));
            assert(pre.take(i + 1).drop_last() =~= pre.take(i as int));
            assert(pre.take(i + 1).last() == pre[i as int]);
            assert(before[i as int] == pre[i as int]);
        }
        let name: String = holder.channels[i].0.clone();
        if !name.as_str().is_empty() {
            let entry = &mut holder.channels[i];
            let mut more = entry.1.routine(name.as_str(), now, clock);
            let ghost new = more@;
            actions.append(&mut more);
            proof {
                assert(holder@ =~= before.update(i as int, (pre[i as int].0, holder@[i as int].1)));
                let sessions = live(pre[i as int].1.slots);
                let listed = due(pre.take(i + 1));
                assert(listed.len() == rest.len() + sessions.len());
                assert forall|k: int| 0 <= k < actions@.len() implies tells(
                    #[trigger] actions@[k],
                    pre[listed[k].0].0,
                    listed[k].2,
                    holder@[listed[k].0].1.slots[listed[k].1],
                ) by {
                    if k < told.len() {
                        assert(actions@[k] == told[k]);
                        assert(listed[k] == rest[k]);
                    } else {
                        let q = k - told.len();
                        assert(actions@[k] == new[q]);
                        assert(listed[k] == (i as int, sessions[q].0, sessions[q].1));
                    }
                }
            }
        }
        i += 1;
    }
    assert(pre.take(i as int) =~= pre);
    actions
}

/// A session that was stored is found under its number.
pub proof fn stored_session_is_found(c: ChannelView, sid: u32, s: SessionView)
    requires
        c.slots.len() <= usize::MAX,
    ensures
        c.stored(sid, s).session(sid) == Some(s),
{
    lemma_first_free(c.slots, 0);
}

/// A session that was erased is not found any more.
pub proof fn erased_session_is_gone(c: ChannelView, sid: u32)
    ensures
        c.erased(sid).session(sid) is None,
{
}

proof fn lemma_first_free(slots: Seq<Option<SessionView>>, i: int)
    requires
        0 <= i <= slots.len(),
    ensures
        i <= first_free(slots, i) <= slots.len(),
    decreases slots.len() - i,
{
    if i < slots.len() && slots[i] is Some {
        lemma_first_free(slots, i + 1);
    }
}

/// A session that answers is off its channel after the routine, so that no new stream goes to it,
/// once it has lived a minute beyond its longest life, where that is a minute or more.
pub proof fn old_session_is_retired(
    pre: ChannelView,
    post: ChannelView,
    now: i64,
    clock: u64,
    i: int,
)
    requires
        pre.wf(),
        routine_channel(pre, post, now, clock),
        0 <= i < pre.slots.len(),
        pre.slots[i] is Some,
        !pre.slots[i]->Some_0.is_dead(),
        60 <= pre.slots[i]->Some_0.max_alive,
        clock - pre.slots[i]->Some_0.state.born_time >= pre.slots[i]->Some_0.max_alive + 60,
    ensures
        post.slots[i] is None,
{
    assert(routine_slot(pre.slots[i], post.slots[i], now, clock));
}

/// A session that answers stays on its channel, and is sent a ping, as long as it has not lived
/// up to a minute before its longest life.
pub proof fn young_session_stays(
    pre: ChannelView,
    post: ChannelView,
    now: i64,
    clock: u64,
    i: int,
)
    requires
        pre.wf(),
        routine_channel(pre, post, now, clock),
        0 <= i < pre.slots.len(),
        pre.slots[i] is Some,
        !pre.slots[i]->Some_0.is_dead(),
        clock <= pre.slots[i]->Some_0.state.born_time || clock
            - pre.slots[i]->Some_0.state.born_time <= pre.slots[i]->Some_0.max_alive - 60,
    ensures
        post.slots[i] == Some(pre.slots[i]->Some_0.pinged(now)),
        pre.slots[i]->Some_0.routine_event() == event::event_of(FLAG_PING, 0, Seq::empty()),
{
    assert(routine_slot(pre.slots[i], post.slots[i], now, clock));
}

/// Each side's streams have numbers of one kind, odd or even, for ever.
pub proof fn stream_numbers_keep_their_kind(s: SessionView, target: (Seq<char>, Seq<char>))
    ensures
        s.opening(target).seed % 2 == s.seed % 2,
{
}

proof fn lemma_search(c: ChannelView, target: (Seq<char>, Seq<char>), n: nat)
    requires
        c.slots.len() > 0,
        c.cursor + n <= u32::MAX,
    ensures
        c.after_search(target, n).cursor == c.cursor + n,
        c.after_search(target, n).slots.len() == c.slots.len(),
        forall|i: int|
            0 <= i < c.slots.len() ==> ((#[trigger] c.after_search(target, n).slots[i]) is Some
                <==> c.slots[i] is Some),
    decreases n,
{
    if n > 0 {
        lemma_search(c, target, (n - 1) as nat);
        let before = c.after_search(target, (n - 1) as nat);
        let after = c.after_search(target, n);
        assert forall|i: int| 0 <= i < c.slots.len() implies ((#[trigger] after.slots[i]) is Some
            <==> c.slots[i] is Some) by {
            assert(before.slots[i] is Some <==> c.slots[i] is Some);
        }
    }
}

proof fn lemma_found(c: ChannelView, target: (Seq<char>, Seq<char>), n: nat, k: int)
    requires
        c.slots.len() > 0,
        c.cursor + n <= u32::MAX,
        0 <= k < n,
        c.slots[(c.cursor + k) % c.slots.len() as int] is Some,
    ensures
        c.found(target, n) is Some,
    decreases n,
{
    let before = c.after_search(target, (n - 1) as nat);
    lemma_search(c, target, (n - 1) as nat);
    if k == n - 1 {
        let i = (c.cursor + k) % c.slots.len() as int;
        assert(before.next_slot() == i);
        assert(before.slots[i] is Some);
    } else {
        lemma_found(c, target, (n - 1) as nat, k);
    }
}

/// A channel that has a session gives a stream, as long as the search does not run into the end
/// of its numbers.
pub proof fn live_channel_gives_a_stream(c: ChannelView, target: (Seq<char>, Seq<char>), i: int)
    requires
        0 <= i < c.slots.len(),
        c.slots[i] is Some,
        c.cursor + c.slots.len() <= u32::MAX,
    ensures
        c.found(target, c.slots.len()) is Some,
{
    let len = c.slots.len() as int;
    let k = (i - c.cursor) % len;
    vstd::arithmetic::div_mod::lemma_add_mod_noop_right(c.cursor as int, i - c.cursor, len);
    vstd::arithmetic::div_mod::lemma_small_mod(i as nat, len as nat);
    assert((c.cursor + k) % len == i);
    lemma_found(c, target, c.slots.len(), k);
}

/// A change to the sessions of the channels.
pub enum SessionChange {
    /// `store_mux_session` of a session under a number.
    Store(Seq<char>, u32, SessionView),
    /// `erase_mux_session` of a number.
    Erase(Seq<char>, u32),
}

/// The channels after one change.
pub open spec fn changed(m: ManagerView, change: SessionChange) -> ManagerView {
    match change {
        SessionChange::Store(channel, sid, session) => with_channel(
            m,
            channel,
            match channel_of(m, channel) {
                Some(c) => c,
                None => ChannelView::fresh(),
            }.stored(sid, session),
        ),
        SessionChange::Erase(channel, sid) => without_session(m, channel, sid),
    }
}

/// The channels after changes to a manager without any.
pub open spec fn after_changes(changes: Seq<SessionChange>) -> ManagerView
    decreases changes.len(),
{
    if changes.len() == 0 {
        ManagerView::empty()
    } else {
        changed(after_changes(changes.drop_last()), changes.last())
    }
}

/// The numbers that were stored under a channel and not erased since.
pub open spec fn stored_ids(changes: Seq<SessionChange>, channel: Seq<char>) -> Set<u32>
    decreases changes.len(),
{
    if changes.len() == 0 {
        Set::empty()
    } else {
        let before = stored_ids(changes.drop_last(), channel);
        match changes.last() {
            SessionChange::Store(name, sid, _) => if name == channel {
                before.insert(sid)
            } else {
                before
            },
            SessionChange::Erase(name, sid) => if name == channel {
                before.remove(sid)
            } else {
                before
            },
        }
    }
}

proof fn lemma_place_stays(m: ManagerView, t: ManagerView, name: Seq<char>, i: int)
    requires
        0 <= i,
        t.len() >= m.len(),
        forall|k: int| 0 <= k < m.len() ==> (#[trigger] t[k]).0 == m[k].0,
        t.len() > m.len() ==> t.len() == m.len() + 1,
    ensures
        place(m, name, i) is Some ==> place(t, name, i) == place(m, name, i),
        place(m, name, i) is None && i <= m.len() ==> place(t, name, i) == if t.len() > m.len()
            && t.last().0 == name {
            Some(m.len() as int)
        } else {
            None::<int>
        },
    decreases t.len() - i,
{
    if i < m.len() {
        if m[i].0 != name {
            lemma_place_stays(m, t, name, i + 1);
        }
    } else if i == m.len() && t.len() > m.len() {
        lemma_place_stays(m, t, name, i + 1);
    }
}

proof fn lemma_with_channel(m: ManagerView, name: Seq<char>, c: ChannelView, other: Seq<char>)
    ensures
        channel_of(with_channel(m, name, c), other) == if other == name {
            Some(c)
        } else {
            channel_of(m, other)
        },
{
    let t = with_channel(m, name, c);
    lemma_place(m, name, 0);
    lemma_place(m, other, 0);
    lemma_place_stays(m, t, other, 0);
    lemma_place(t, other, 0);
}

/// The number of a channel's sessions is that of the numbers stored under this channel and not
/// erased since, whatever was stored and erased in whatever order: none where nothing was stored,
/// and untouched by the changes of other channels and by erasing what is not there.
pub proof fn sessions_are_counted(changes: Seq<SessionChange>, channel: Seq<char>)
    ensures
        session_count(after_changes(changes), channel) == stored_ids(changes, channel).len(),
{
    lemma_stored_ids(changes, channel);
}

proof fn lemma_stored_ids(changes: Seq<SessionChange>, channel: Seq<char>)
    ensures
        match channel_of(after_changes(changes), channel) {
            Some(c) => c.ids.dom() == stored_ids(changes, channel),
            None => stored_ids(changes, channel) == Set::<u32>::empty(),
        },
    decreases changes.len(),
{
    if changes.len() > 0 {
        let before = changes.drop_last();
        let m = after_changes(before);
        lemma_stored_ids(before, channel);
        match changes.last() {
            SessionChange::Store(name, sid, session) => {
                let c = match channel_of(m, name) {
                    Some(c) => c,
                    None => ChannelView::fresh(),
                };
                lemma_with_channel(m, name, c.stored(sid, session), channel);
                if name == channel {
                    assert(c.stored(sid, session).ids.dom() =~= stored_ids(changes, channel));
                }
            },
            SessionChange::Erase(name, sid) => {
                if let Some(c) = channel_of(m, name) {
                    lemma_with_channel(m, name, c.erased(sid), channel);
                    if name == channel {
                        assert(c.erased(sid).ids.dom() =~= stored_ids(changes, channel));
                    }
                } else if name == channel {
                    assert(stored_ids(changes, channel) =~= Set::<u32>::empty());
                }
            },
        }
    }
}

proof fn lemma_free_is_free(slots: Seq<Option<SessionView>>, i: int)
    requires
        0 <= i <= slots.len(),
    ensures
        i <= first_free(slots, i) <= slots.len(),
        first_free(slots, i) < slots.len() ==> slots[first_free(slots, i)] is None,
        forall|j: int| i <= j < first_free(slots, i) ==> (#[trigger] slots[j]) is Some,
    decreases slots.len() - i,
{
    if i < slots.len() && slots[i] is Some {
        lemma_free_is_free(slots, i + 1);
    }
}

/// Storing a session takes no other session's place.
pub proof fn stored_session_displaces_none(c: ChannelView, sid: u32, s: SessionView, other: u32)
    requires
        c.wf(),
        c.slots.len() < usize::MAX,
        other != sid,
        c.session(other) is Some,
    ensures
        c.stored(sid, s).session(other) == c.session(other),
        c.stored(sid, s).slots.len() <= c.slots.len() + 1,
        c.stored(sid, s).cursor == c.cursor,
{
    lemma_free_is_free(c.slots, 0);
}

/// Erasing a session leaves those in the other places alone.
pub proof fn erasing_leaves_the_others(c: ChannelView, sid: u32, other: u32)
    requires
        c.wf(),
        other != sid,
        c.ids.contains_key(other),
        c.ids.contains_key(sid) ==> c.ids[sid] != c.ids[other],
    ensures
        c.erased(sid).session(other) == c.session(other),
{
}

/// What is done to one channel leaves the others alone.
pub proof fn channels_are_kept_apart(m: ManagerView, name: Seq<char>, c: ChannelView, other: Seq<char>)
    ensures
        channel_of(with_channel(m, name, c), name) == Some(c),
        other != name ==> channel_of(with_channel(m, name, c), other) == channel_of(m, other),
{
    lemma_with_channel(m, name, c, other);
    lemma_with_channel(m, name, c, name);
}

/// A session whose last answer lies more than a minute before the last ping is told to shut down,
/// and stays on its channel; every other live session is sent a ping.
pub proof fn silent_session_is_told_to_stop(
    pre: ChannelView,
    post: ChannelView,
    now: i64,
    clock: u64,
    i: int,
    a: RoutineAction,
    name: Seq<char>,
)
    requires
        routine_channel(pre, post, now, clock),
        0 <= i < pre.slots.len(),
        pre.slots[i] is Some,
        tells(a, name, pre.slots[i]->Some_0, post.slots[i]),
    ensures
        ({
            let s = pre.slots[i]->Some_0;
            let pinged = s.state.last_ping_send_time;
            let answered = s.state.last_pong_recv_time;
            let silent = pinged > 0 && answered > 0 && pinged - answered > 60;
            &&& a.channel@ == name
            &&& a.session_id == s.id
            &&& a.ev@.body.len() == 0
            &&& a.ev@.stream_id == 0
            &&& a.ev@.header().flag() == if silent {
                7u8
            } else {
                5u8
            }
            &&& silent ==> post.slots[i] == Some(s) && !a.retired
            &&& a.retired == (post.slots[i] is None)
            &&& !silent && !a.retired ==> post.slots[i]->Some_0.state.last_ping_send_time == now
        }),
{
    assert(routine_slot(pre.slots[i], post.slots[i], now, clock));
}

/// An answer is noted in the session that it came on, and nowhere else. A session that has
/// answered is not silent, as long as its last ping was not sent more than a minute after that.
pub proof fn answer_is_noted(c: ChannelView, sid: u32, now: i64, s: SessionView, j: int)
    requires
        c.wf(),
        c.session(sid) == Some(s),
        s.id == sid,
    ensures
        ({
            let d = c.answered(sid, now);
            &&& d.session(sid) is Some
            &&& d.session(sid)->Some_0.state.last_pong_recv_time == now
            &&& d.session(sid)->Some_0.state.last_ping_send_time == s.state.last_ping_send_time
            &&& d.session(sid)->Some_0.pending == s.pending
            &&& d.ids == c.ids
            &&& d.slots.len() == c.slots.len()
            &&& 0 <= j < c.slots.len() && j != c.ids[sid] ==> d.slots[j] == c.slots[j]
            &&& s.state.last_ping_send_time <= now + 60 ==> !d.session(sid)->Some_0.is_dead()
        }),
{
}

/// Streams that wait on a session are taken once: after that none waits there, and nothing else
/// has changed.
pub proof fn waiting_streams_are_taken_once(c: ChannelView, sid: u32, j: int)
    requires
        c.wf(),
        c.session(sid) is Some,
    ensures
        ({
            let d = c.relieved(sid);
            let s = c.session(sid)->Some_0;
            &&& d.session(sid) is Some
            &&& d.session(sid)->Some_0.pending.len() == 0
            &&& d.session(sid)->Some_0.seed == s.seed
            &&& d.session(sid)->Some_0.id == s.id
            &&& d.session(sid)->Some_0.state == s.state
            &&& d.ids == c.ids
            &&& 0 <= j < c.slots.len() && j != c.ids[sid] ==> d.slots[j] == c.slots[j]
        }),
{
}

/// The stream that was asked for waits on the session that it was given, with the address that was
/// asked for, and no later stream of that session gets its number before the numbers run out.
pub proof fn asked_stream_waits_on_its_session(
    c: ChannelView,
    target: (Seq<char>, Seq<char>),
    n: nat,
    id: u32,
    stream: u32,
)
    requires
        c.slots.len() > 0,
        c.found(target, n) == Some((id, stream)),
    ensures
        exists|i: int|
            0 <= i < c.slots.len() && (#[trigger] c.after_search(target, n).slots[i]) is Some && {
                let s = c.after_search(target, n).slots[i]->Some_0;
                &&& s.id == id
                &&& s.pending.len() > 0
                &&& s.pending.last() == (stream, target)
                &&& s.seed != stream
            },
        c.after_search(target, n).slots.len() == c.slots.len(),
        c.after_search(target, n).ids == c.ids,
    decreases n,
{
    lemma_search_len(c, target, n);
    let after = c.after_search(target, n);
    let before = c.after_search(target, (n - 1) as nat);
    lemma_search_len(c, target, (n - 1) as nat);
    let i = before.next_slot();
    vstd::arithmetic::div_mod::lemma_mod_bound(before.cursor as int, before.slots.len() as int);
    match before.slots[i] {
        Some(s) => {
            assert(after.slots[i] == Some(s.opening(target)));
        },
        None => {
            asked_stream_waits_on_its_session(c, target, (n - 1) as nat, id, stream);
            let k = choose|k: int|
                0 <= k < c.slots.len() && (#[trigger] before.slots[k]) is Some && {
                    let s = before.slots[k]->Some_0;
                    &&& s.id == id
                    &&& s.pending.len() > 0
                    &&& s.pending.last() == (stream, target)
                    &&& s.seed != stream
                };
            assert(after.slots[k] == before.slots[k]);
        },
    }
}

proof fn lemma_search_len(c: ChannelView, target: (Seq<char>, Seq<char>), n: nat)
    requires
        c.slots.len() > 0,
    ensures
        c.after_search(target, n).slots.len() == c.slots.len(),
        c.after_search(target, n).ids == c.ids,
    decreases n,
{
    if n > 0 {
        lemma_search_len(c, target, (n - 1) as nat);
        let before = c.after_search(target, (n - 1) as nat);
        vstd::arithmetic::div_mod::lemma_mod_bound(before.cursor as int, before.slots.len() as int);
    }
}

proof fn lemma_live(slots: Seq<Option<SessionView>>, j: int, s: SessionView)
    ensures
        live(slots).contains((j, s)) <==> 0 <= j < slots.len() && slots[j] == Some(s),
    decreases slots.len(),
{
    if slots.len() > 0 {
        let rest = live(slots.drop_last());
        lemma_live(slots.drop_last(), j, s);
        let n = slots.len() - 1;
        match slots.last() {
            Some(t) => {
                let all = rest.push((n, t));
                assert(live(slots) == all);
                if rest.contains((j, s)) {
                    let k = choose|k: int| 0 <= k < rest.len() && rest[k] == (j, s);
                    assert(all[k] == (j, s));
                }
                if j == n && s == t {
                    assert(all[rest.len() as int] == (j, s));
                }
                if all.contains((j, s)) {
                    let k = choose|k: int| 0 <= k < all.len() && all[k] == (j, s);
                    if k < rest.len() {
                        assert(rest[k] == (j, s));
                    }
                }
            },
            None => {},
        }
    }
}

proof fn lemma_due(m: ManagerView, i: int, j: int, s: SessionView)
    ensures
        due(m).contains((i, j, s)) <==> 0 <= i < m.len() && m[i].0.len() > 0 && 0 <= j
            < m[i].1.slots.len() && m[i].1.slots[j] == Some(s),
    decreases m.len(),
{
    if m.len() > 0 {
        let rest = due(m.drop_last());
        lemma_due(m.drop_last(), i, j, s);
        let c = m.last();
        let n = m.len() - 1;
        if c.0.len() > 0 {
            let sessions = live(c.1.slots);
            let added = Seq::new(sessions.len(), |k: int| (n, sessions[k].0, sessions[k].1));
            let all = rest + added;
            assert(due(m) =~= all);
            lemma_live(c.1.slots, j, s);
            if rest.contains((i, j, s)) {
                let k = choose|k: int| 0 <= k < rest.len() && rest[k] == (i, j, s);
                assert(all[k] == (i, j, s));
            }
            if i == n && sessions.contains((j, s)) {
                let k = choose|k: int| 0 <= k < sessions.len() && sessions[k] == (j, s);
                assert(all[rest.len() + k] == (i, j, s));
            }
            if all.contains((i, j, s)) {
                let k = choose|k: int| 0 <= k < all.len() && all[k] == (i, j, s);
                if k < rest.len() {
                    assert(rest[k] == (i, j, s));
                } else {
                    assert(sessions[k - rest.len()] == (j, s));
                }
            }
        }
    }
}

/// The routine looks after every live session of every channel that has a name, and after no
/// other.
pub proof fn every_live_session_is_looked_after(m: ManagerView, i: int, j: int, s: SessionView)
    ensures
        due(m).contains((i, j, s)) <==> 0 <= i < m.len() && m[i].0.len() > 0 && 0 <= j
            < m[i].1.slots.len() && m[i].1.slots[j] == Some(s),
{
    lemma_due(m, i, j, s);
}

/// The asking for a stream on a channel.
pub open spec fn asks_stream(
    pre: ManagerView,
    post: ManagerView,
    channel: Seq<char>,
    target: (Seq<char>, Seq<char>),
    r: Option<(u32, u32, Event)>,
) -> bool {
    match channel_of(pre, channel) {
        Some(c) => {
            &&& post == with_channel(pre, channel, c.after_search(target, c.slots.len()))
            &&& match c.found(target, c.slots.len()) {
                Some((session, stream)) => {
                    &&& r is Some
                    &&& r->Some_0.0 == session
                    &&& r->Some_0.1 == stream
                    &&& r->Some_0.2@ == event::event_of(
                        FLAG_SYN,
                        stream,
                        message::text_block(target.0) + message::text_block(target.1),
                    )
                    &&& !r->Some_0.2.remote
                },
                None => r is None,
            }
        },
        None => r is None && post == pre,
    }
}

/// The report that more of a stream was read.
pub open spec fn reports(
    m: ManagerView,
    channel: Seq<char>,
    session_id: u32,
    stream_id: u32,
    window: u32,
    ready: SendPoll,
    done: bool,
    out: Option<Event>,
) -> bool {
    let session = match channel_of(m, channel) {
        Some(c) => c.session(session_id),
        None => None,
    };
    if session is Some && ready == SendPoll::Ready {
        &&& done
        &&& out is Some
        &&& out->Some_0@ == (EventView {
            flag_len: event::pack(window as int, FLAG_WIN_UPDATE),
            stream_id,
            body: Seq::empty(),
        })
        &&& !out->Some_0.remote
    } else {
        done == (session is None) && out is None
    }
}

/// The stream is the last of those that wait on a session with this number.
pub open spec fn waits_on(
    c: ChannelView,
    session: u32,
    stream: u32,
    target: (Seq<char>, Seq<char>),
) -> bool {
    exists|k: int|
        0 <= k < c.slots.len() && (#[trigger] c.slots[k]) is Some && c.slots[k]->Some_0.id == session
            && c.slots[k]->Some_0.pending.len() > 0 && c.slots[k]->Some_0.pending.last() == (
            stream,
            target,
        )
}

/// A stream that is asked for on a channel with a live session is given, and waits on the session
/// that it was given. No other channel changes.
pub proof fn asked_stream_is_given(
    pre: ManagerView,
    post: ManagerView,
    channel: Seq<char>,
    target: (Seq<char>, Seq<char>),
    r: Option<(u32, u32, Event)>,
    i: int,
    other: Seq<char>,
)
    requires
        asks_stream(pre, post, channel, target, r),
        channel_of(pre, channel) matches Some(c) && 0 <= i < c.slots.len() && c.slots[i] is Some
            && c.cursor + c.slots.len() <= u32::MAX,
        other != channel,
    ensures
        r is Some,
        channel_of(post, channel) is Some,
        waits_on(channel_of(post, channel)->Some_0, r->Some_0.0, r->Some_0.1, target),
        channel_of(post, other) == channel_of(pre, other),
{
    let c = channel_of(pre, channel)->Some_0;
    let n = c.slots.len();
    live_channel_gives_a_stream(c, target, i);
    let (session, stream) = c.found(target, n)->Some_0;
    let d = c.after_search(target, n);
    asked_stream_waits_on_its_session(c, target, n, session, stream);
    assert(waits_on(d, session, stream, target));
    lemma_with_channel(pre, channel, d, channel);
    lemma_with_channel(pre, channel, d, other);
}

/// The event that asks for a stream opens it with the address that was asked for.
pub proof fn asked_stream_names_its_address(
    pre: ManagerView,
    post: ManagerView,
    channel: Seq<char>,
    target: (Seq<char>, Seq<char>),
    r: Option<(u32, u32, Event)>,
)
    requires
        asks_stream(pre, post, channel, target, r),
        r is Some,
        message::fits(target.0),
        message::fits(target.1),
        (message::text_block(target.0) + message::text_block(target.1)).len() < 0x100_0000,
    ensures
        r->Some_0.2@.header().flag() == 1,
        r->Some_0.2@.stream_id == r->Some_0.1,
        r->Some_0.2@.header().body_len() == r->Some_0.2@.body.len(),
        message::texts_in(r->Some_0.2@.body) == Some(target),
        !r->Some_0.2.remote,
{
    lemma_asking_event(r->Some_0.2@, r->Some_0.1, target.0, target.1);
}

proof fn lemma_asking_event(ev: EventView, stream: u32, proto: Seq<char>, addr: Seq<char>)
    requires
        ev == event::event_of(
            FLAG_SYN,
            stream,
            message::text_block(proto) + message::text_block(addr),
        ),
        message::fits(proto),
        message::fits(addr),
        (message::text_block(proto) + message::text_block(addr)).len() < 0x100_0000,
    ensures
        ev.header().flag() == 1,
        ev.stream_id == stream,
        ev.header().body_len() == ev.body.len(),
        message::texts_in(ev.body) == Some((proto, addr)),
{
    let body = message::text_block(proto) + message::text_block(addr);
    assert(message::texts_in(body) == Some((proto, addr))) by {
        message::request_reads_back(proto, addr, Seq::empty());
        assert(body + Seq::<u8>::empty() =~= body);
    }
    let n = body.len() as int;
    event::pack_unpacks(n, FLAG_SYN, stream);
}

/// What was read of a stream is reported on its session, in one event that says how much; where
/// the session is gone there is nothing to report, and where its queue is full the report waits.
pub proof fn read_bytes_are_reported(
    m: ManagerView,
    channel: Seq<char>,
    session_id: u32,
    stream_id: u32,
    window: u32,
    ready: SendPoll,
    done: bool,
    out: Option<Event>,
)
    requires
        reports(m, channel, session_id, stream_id, window, ready, done, out),
        window < 0x100_0000,
    ensures
        ({
            let there = channel_of(m, channel) is Some && channel_of(m, channel)->Some_0.session(
                session_id,
            ) is Some;
            &&& out is Some <==> there && ready is Ready
            &&& done <==> !there || ready is Ready
            &&& out matches Some(ev) ==> ev@.header().flag() == 4 && ev@.header().body_len()
                == window && ev@.stream_id == stream_id && ev@.body.len() == 0
        }),
{
    event::pack_unpacks(window as int, FLAG_WIN_UPDATE, stream_id);
}

/// A session without a longest life never grows too old; one with a longest life is too old when
/// it has lived longer than that, give or take the jitter.
pub proof fn sessions_age_by_their_limit(s: SessionView, clock: u64, jitter: i64)
    requires
        s.wf(),
        -60 <= jitter < 60,
    ensures
        s.max_alive == 0 ==> !s.is_old(clock, jitter),
        s.max_alive >= 60 && clock >= s.state.born_time ==> (s.is_old(clock, jitter) <==> clock
            - s.state.born_time > s.max_alive + jitter),
        s.max_alive >= 60 && clock < s.state.born_time ==> (s.is_old(clock, jitter) <==> 0
            > s.max_alive + jitter),
{
}

} // verus!
