//! The streams of a connection, as far as it has to know which of them are open.

use vstd::prelude::*;
use crate::mux::common;
use crate::mux::event;
use crate::rmux::event::{new_fin_event, Event, FLAG_FIN};

verus! {

/// A stream of the connection.
#[derive(Debug, PartialEq, Eq, Structural, Clone, Copy)]
pub struct StreamSlot {
    pub id: u32,
    pub closed: bool,
}

pub struct CommonMuxConn {
    streams: Vec<StreamSlot>,
}

impl View for CommonMuxConn {
    type V = Seq<StreamSlot>;

    closed spec fn view(&self) -> Seq<StreamSlot> {
        self.streams@
    }
}

/// Each stream is there once.
pub open spec fn distinct(s: Seq<StreamSlot>) -> bool {
    forall|i: int, j: int| 0 <= i < j < s.len() ==> s[i].id != s[j].id
}

/// The stream is one of the connection's.
pub open spec fn knows(s: Seq<StreamSlot>, sid: u32) -> bool {
    exists|i: int| 0 <= i < s.len() && (#[trigger] s[i]).id == sid
}

/// The streams with the one of the number: as they are where it is there, else with a new one.
pub open spec fn with_stream(s: Seq<StreamSlot>, sid: u32) -> Seq<StreamSlot> {
    if knows(s, sid) {
        s
    } else {
        s.push(StreamSlot { id: sid, closed: false })
    }
}

/// The stream is gone and the others are there as before.
pub open spec fn drops(pre: Seq<StreamSlot>, post: Seq<StreamSlot>, sid: u32) -> bool {
    &&& !knows(post, sid)
    &&& forall|s: StreamSlot| s.id != sid ==> (post.contains(s) <==> pre.contains(s))
}

/// What the peer is told of the end of a stream.
pub open spec fn told(s: Seq<StreamSlot>, sid: u32, initial: bool) -> Option<event::EventView> {
    if initial && knows(s, sid) {
        Some(event::event_of(FLAG_FIN, sid, Seq::empty()))
    } else {
        None
    }
}

/// The streams, all of them closed.
pub open spec fn all_closed(s: Seq<StreamSlot>) -> Seq<StreamSlot> {
    Seq::new(s.len(), |i: int| StreamSlot { id: s[i].id, closed: true })
}

impl CommonMuxConn {
    pub fn new() -> (r: CommonMuxConn)
        ensures
            r@ == Seq::<StreamSlot>::empty(),
            distinct(r@),
    {
        CommonMuxConn { streams: Vec::new() }
    }

    fn find(&self, sid: u32) -> (r: Option<usize>)
        ensures
            match r {
                Some(i) => i < self@.len() && self@[i as int].id == sid,
                None => !knows(self@, sid),
            },
    {
        let mut i: usize = 0;
        while i < self.streams.len()
            invariant
                i <= self.streams@.len(),
                forall|k: int| 0 <= k < i ==> (#[trigger] self.streams@[k]).id != sid,
            decreases self.streams@.len() - i,
        {
            if self.streams[i].id == sid {
                return Some(i);
            }
            i = i + 1;
        }
        None
    }

    /// The stream with the number, where there is one.
    pub fn get_stream(&self, sid: u32) -> (r: Option<StreamSlot>)
        requires
            distinct(self@),
        ensures
            match r {
                Some(s) => s.id == sid && self@.contains(s),
                None => !knows(self@, sid),
            },
    {
        match self.find(sid) {
            Some(i) => {
                assert(self@[i as int] == self.streams@[i as int]);
                Some(self.streams[i])
            },
            None => None,
        }
    }

    /// Keeps the stream with the number, or makes one.
    pub fn new_stream(&mut self, sid: u32)
        requires
            distinct(old(self)@),
        ensures
            distinct(final(self)@),
            final(self)@ == with_stream(old(self)@, sid),
    {
        match self.find(sid) {
            Some(i) => {
                assert(self@[i as int].id == sid);
            },
            None => {
                self.streams.push(StreamSlot { id: sid, closed: false });
            },
        }
    }

    /// Drops the stream; the peer is told where the end started here.
    pub fn close_stream(&mut self, sid: u32, initial: bool) -> (r: Option<Event>)
        requires
            distinct(old(self)@),
        ensures
            distinct(final(self)@),
            drops(old(self)@, final(self)@, sid),
            common::event_view(r) == told(old(self)@, sid, initial),
    {
        let ghost pre = self@;
        match self.find(sid) {
            Some(i) => {
                let _ = self.streams.remove(i);
                proof {
                    let post = self@;
                    assert(pre[i as int].id == sid);
                    assert forall|s: StreamSlot| s.id != sid implies (post.contains(s)
                        <==> pre.contains(s)) by {
                        if pre.contains(s) {
                            let k = choose|k: int| 0 <= k < pre.len() && pre[k] == s;
                            let m = if k < i {
                                k
                            } else {
                                k - 1
                            };
                            assert(post[m] == s);
                        }
                        if post.contains(s) {
                            let k = choose|k: int| 0 <= k < post.len() && post[k] == s;
                            let m = if k < i {
                                k
                            } else {
                                k + 1
                            };
                            assert(pre[m] == s);
                        }
                    }
                    assert forall|k: int| 0 <= k < post.len() implies post[k].id != sid by {
                        let m = if k < i {
                            k
                        } else {
                            k + 1
                        };
                        assert(post[k] == pre[m]);
                    }
                }
                if initial {
                    Some(new_fin_event(sid, false))
                } else {
                    None
                }
            },
            None => None,
        }
    }

    /// Closes every stream.
    pub fn close(&mut self)
        requires
            distinct(old(self)@),
        ensures
            distinct(final(self)@),
            final(self)@ == all_closed(old(self)@),
    {
        let ghost pre = self@;
        let mut i: usize = 0;
        while i < self.streams.len()
            invariant
                i <= self.streams@.len(),
                self.streams@.len() == pre.len(),
                forall|k: int|
                    0 <= k < i ==> #[trigger] self.streams@[k] == (StreamSlot {
                        id: pre[k].id,
                        closed: true,
                    }),
                forall|k: int| i <= k < pre.len() ==> #[trigger] self.streams@[k] == pre[k],
            decreases self.streams@.len() - i,
        {
            let id: u32 = self.streams[i].id;
            self.streams[i] = StreamSlot { id, closed: true };
            i = i + 1;
        }
        assert(self@ =~= Seq::new(
            pre.len(),
            |i: int| StreamSlot { id: pre[i].id, closed: true },
        ));
    }
}

/// A stream that was made is known and open, and making it again changes nothing; the others are
/// there as before.
pub proof fn made_stream_is_known(s: Seq<StreamSlot>, sid: u32, other: StreamSlot)
    requires
        other.id != sid,
    ensures
        knows(with_stream(s, sid), sid),
        !knows(s, sid) ==> with_stream(s, sid).contains(StreamSlot { id: sid, closed: false }),
        knows(s, sid) ==> with_stream(s, sid) == s,
        with_stream(with_stream(s, sid), sid) == with_stream(s, sid),
        with_stream(s, sid).contains(other) <==> s.contains(other),
{
    let t = with_stream(s, sid);
    if !knows(s, sid) {
        assert(t[s.len() as int].id == sid);
        assert(t[s.len() as int] == (StreamSlot { id: sid, closed: false }));
        if s.contains(other) {
            let k = choose|k: int| 0 <= k < s.len() && s[k] == other;
            assert(t[k] == other);
        }
        if t.contains(other) {
            let k = choose|k: int| 0 <= k < t.len() && t[k] == other;
            assert(s[k] == other);
        }
    }
}

/// A stream that was made and then dropped here leaves the others, and the peer is told of its end
/// by an event of the second kind without a body; where the peer ended it, the peer is told
/// nothing, and dropping it once more tells nobody.
pub proof fn dropped_stream_is_told_once(
    s: Seq<StreamSlot>,
    after: Seq<StreamSlot>,
    sid: u32,
    other: StreamSlot,
)
    requires
        drops(with_stream(s, sid), after, sid),
        other.id != sid,
    ensures
        told(with_stream(s, sid), sid, true) == Some(event::event_of(2, sid, Seq::empty())),
        told(with_stream(s, sid), sid, false) is None,
        told(after, sid, true) is None,
        after.contains(other) <==> s.contains(other),
        !after.contains(StreamSlot { id: sid, closed: false }),
        !after.contains(StreamSlot { id: sid, closed: true }),
{
    made_stream_is_known(s, sid, other);
}

/// Closing the connection closes every stream and forgets none.
pub proof fn closing_reaches_every_stream(s: Seq<StreamSlot>, i: int)
    requires
        0 <= i < s.len(),
    ensures
        all_closed(s).len() == s.len(),
        all_closed(s)[i].closed,
        all_closed(s)[i].id == s[i].id,
{
}

} // verus!
