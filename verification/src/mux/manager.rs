//! Connections to a set of servers, so many to each.

use vstd::prelude::*;
use crate::common::utils;
use crate::common::utils::parse_url;
use crate::text::same_text;

verus! {

/// The connections to one server.
struct MuxSessionHolder {
    url: String,
    connected: Vec<u64>,
    conns_per_host: u16,
    connectings: u16,
}

#[verifier::ext_equal]
pub struct HolderView {
    pub url: Seq<char>,
    /// The sessions, by their numbers.
    pub connected: Seq<u64>,
    /// How many connections there shall be.
    pub conns_per_host: u16,
    /// How many are being made.
    pub connectings: u16,
}

impl HolderView {
    /// No more connections are there or being made than there shall be.
    pub open spec fn wf(self) -> bool {
        self.connected.len() + self.connectings <= self.conns_per_host
    }

    pub open spec fn missing(self) -> int {
        self.conns_per_host - self.connected.len() - self.connectings
    }
}

impl View for MuxSessionHolder {
    type V = HolderView;

    closed spec fn view(&self) -> HolderView {
        HolderView {
            url: self.url@,
            connected: self.connected@,
            conns_per_host: self.conns_per_host,
            connectings: self.connectings,
        }
    }
}

/// The address is none.
#[derive(Debug, PartialEq, Eq, Structural, Clone, Copy)]
pub struct ParseError;

pub struct SessionManager {
    remote_sessions: Vec<MuxSessionHolder>,
}

#[verifier::ext_equal]
pub struct ManagerView {
    /// The servers, each once.
    pub holders: Seq<HolderView>,
}

impl View for SessionManager {
    type V = ManagerView;

    closed spec fn view(&self) -> ManagerView {
        ManagerView {
            holders: Seq::new(
                self.remote_sessions@.len(),
                |i: int| self.remote_sessions@[i]@,
            ),
        }
    }
}

/// Where the server stands, from `i` on.
pub open spec fn place(holders: Seq<HolderView>, url: Seq<char>, i: int) -> Option<int>
    decreases holders.len() - i,
{
    if i < 0 || i >= holders.len() {
        None
    } else if holders[i].url == url {
        Some(i)
    } else {
        place(holders, url, i + 1)
    }
}

proof fn lemma_place(holders: Seq<HolderView>, url: Seq<char>, i: int)
    requires
        0 <= i,
    ensures
        match place(holders, url, i) {
            Some(k) => i <= k < holders.len() && holders[k].url == url,
            None => forall|k: int| i <= k < holders.len() ==> holders[k].url != url,
        },
    decreases holders.len() - i,
{
    if i < holders.len() && holders[i].url != url {
        lemma_place(holders, url, i + 1);
    }
}

impl ManagerView {
    pub open spec fn wf(self) -> bool {
        &&& forall|i: int| 0 <= i < self.holders.len() ==> (#[trigger] self.holders[i]).wf()
        &&& forall|i: int, j: int|
            0 <= i < j < self.holders.len() ==> self.holders[i].url != self.holders[j].url
    }

    pub open spec fn find(self, url: Seq<char>) -> Option<int> {
        place(self.holders, url, 0)
    }

    /// A connection to the server is being made.
    pub open spec fn is_connecting(self, url: Seq<char>) -> bool {
        match self.find(url) {
            Some(k) => self.holders[k].connectings > 0,
            None => true,
        }
    }

    pub open spec fn with(self, k: int, h: HolderView) -> ManagerView {
        ManagerView { holders: self.holders.update(k, h) }
    }

    /// After the server was added, or set up anew.
    pub open spec fn added(self, url: Seq<char>, n: u16) -> ManagerView {
        let h = HolderView { url, connected: Seq::empty(), conns_per_host: n, connectings: 0 };
        match self.find(url) {
            Some(k) => self.with(k, h),
            None => ManagerView { holders: self.holders.push(h) },
        }
    }

    /// After a connection to the server was made.
    pub open spec fn connected(self, url: Seq<char>, session: u64) -> ManagerView {
        match self.find(url) {
            Some(k) => self.with(
                k,
                HolderView {
                    connected: self.holders[k].connected.push(session),
                    connectings: (self.holders[k].connectings - 1) as u16,
                    ..self.holders[k]
                },
            ),
            None => self,
        }
    }

    /// After a connection to the server failed.
    pub open spec fn failed(self, url: Seq<char>) -> ManagerView {
        match self.find(url) {
            Some(k) => self.with(
                k,
                HolderView {
                    connectings: (self.holders[k].connectings - 1) as u16,
                    ..self.holders[k]
                },
            ),
            None => self,
        }
    }

    /// After the sessions had their turn: those that went through it are let go.
    pub open spec fn processed(self, done: Seq<u64>) -> ManagerView {
        ManagerView {
            holders: Seq::new(
                self.holders.len(),
                |i: int|
                    HolderView {
                        connected: self.holders[i].connected.filter(
                            |s: u64| !done.contains(s),
                        ),
                        ..self.holders[i]
                    },
            ),
        }
    }

    /// After the missing connections were begun.
    pub open spec fn filled(self) -> ManagerView {
        ManagerView {
            holders: Seq::new(
                self.holders.len(),
                |i: int|
                    HolderView {
                        connectings: (self.holders[i].connectings + self.holders[i].missing()) as u16,
                        ..self.holders[i]
                    },
            ),
        }
    }
}

fn contains_number(all: &Vec<u64>, x: u64) -> (r: bool)
    ensures
        r == all@.contains(x),
{
    let mut i: usize = 0;
    while i < all.len()
        invariant
            i <= all@.len(),
            forall|k: int| 0 <= k < i ==> all@[k] != x,
        decreases all@.len() - i,
    {
        if all[i] == x {
            return true;
        }
        i = i + 1;
    }
    false
}

/// The numbers that are not among `done`, in order.
fn without_done(all: &Vec<u64>, done: &Vec<u64>) -> (r: Vec<u64>)
    ensures
        r@ == all@.filter(|s: u64| !done@.contains(s)),
        r@.len() <= all@.len(),
{
    let mut out: Vec<u64> = Vec::new();
    let ghost keep = |s: u64| !done@.contains(s);
    let mut i: usize = 0;
    assert(all@.take(0).filter(keep) =~= Seq::<u64>::empty()) by {
        reveal(Seq::filter);
    }
    while i < all.len()
        invariant
            i <= all@.len(),
            keep == (|s: u64| !done@.contains(s)),
            out@ == all@.take(i as int).filter(keep),
            out@.len() <= i,
        decreases all@.len() - i,
    {
        proof {
            assert(all@.take(i + 1).drop_last() =~= all@.take(i as int));
            reveal(Seq::filter);
        }
        if !contains_number(done, all[i]) {
            out.push(all[i]);
        }
        i = i + 1;
    }
    assert(all@.take(i as int) =~= all@);
    out
}

impl SessionManager {
    pub fn new() -> (r: SessionManager)
        ensures
            r@.holders == Seq::<HolderView>::empty(),
            r@.wf(),
    {
        let r = SessionManager { remote_sessions: Vec::new() };
        assert(r@.holders =~= Seq::empty());
        r
    }

    fn find_holder(&self, url: &str) -> (r: Option<usize>)
        ensures
            match r {
                Some(k) => self@.find(url@) == Some(k as int) && k < self@.holders.len()
                    && self@.holders[k as int].url == url@,
                None => self@.find(url@) is None,
            },
    {
        let mut i: usize = 0;
        while i < self.remote_sessions.len()
            invariant
                i <= self.remote_sessions@.len(),
                self@.find(url@) == place(self@.holders, url@, i as int),
            decreases self.remote_sessions@.len() - i,
        {
            if same_text(self.remote_sessions[i].url.as_str(), url) {
                return Some(i);
            }
            i = i + 1;
        }
        None
    }

    /// Adds a server, to which so many connections shall be made; one that is there is set up anew.
    pub fn add_url(&mut self, url: &str, conns_per_host: u16) -> (r: Result<(), ParseError>)
        requires
            old(self)@.wf(),
        ensures
            final(self)@.wf(),
            match utils::url_parts(url@) {
                Some(p) => r is Ok && final(self)@ == old(self)@.added(p.text, conns_per_host),
                None => r is Err && final(self)@ == old(self)@,
            },
    {
        match parse_url(url) {
            Some(parts) => {
                self.set_holder(parts.text, conns_per_host);
                Ok(())
            },
            None => Err(ParseError),
        }
    }

    /// Adds a server by its address in full.
    pub fn set_holder(&mut self, url: String, conns_per_host: u16)
        requires
            old(self)@.wf(),
        ensures
            final(self)@.wf(),
            final(self)@ == old(self)@.added(url@, conns_per_host),
    {
        let ghost pre = self@;
        proof {
            lemma_place(pre.holders, url@, 0);
        }
        let at = self.find_holder(url.as_str());
        let h = MuxSessionHolder { url, connected: Vec::new(), conns_per_host, connectings: 0 };
        assert(h@.connected =~= Seq::empty());
        match at {
            Some(k) => {
                self.remote_sessions[k] = h;
                assert(self@.holders =~= pre.added(url@, conns_per_host).holders);
            },
            None => {
                self.remote_sessions.push(h);
                assert(self@.holders =~= pre.added(url@, conns_per_host).holders);
            },
        }
    }

    /// A connection to the server was made.
    pub fn add_connection(&mut self, url: &str, session: u64)
        requires
            old(self)@.wf(),
            old(self)@.is_connecting(url@),
        ensures
            final(self)@.wf(),
            final(self)@ == old(self)@.connected(url@, session),
    {
        let ghost pre = self@;
        match self.find_holder(url) {
            Some(k) => {
                assert(pre.holders[k as int] == self.remote_sessions@[k as int]@);
                let h = &mut self.remote_sessions[k];
                h.connected.push(session);
                h.connectings = h.connectings - 1;
                assert(self@.holders =~= pre.connected(url@, session).holders);
            },
            None => {},
        }
    }

    /// A connection to the server could not be made.
    pub fn connect_fail(&mut self, url: &str)
        requires
            old(self)@.wf(),
            old(self)@.is_connecting(url@),
        ensures
            final(self)@.wf(),
            final(self)@ == old(self)@.failed(url@),
    {
        let ghost pre = self@;
        match self.find_holder(url) {
            Some(k) => {
                assert(pre.holders[k as int] == self.remote_sessions@[k as int]@);
                let h = &mut self.remote_sessions[k];
                h.connectings = h.connectings - 1;
                assert(self@.holders =~= pre.failed(url@).holders);
            },
            None => {},
        }
    }

    /// After each session had a turn: those in `done`, which went through it, are let go.
    pub fn process_conn_events(&mut self, done: &Vec<u64>)
        requires
            old(self)@.wf(),
        ensures
            final(self)@.wf(),
            final(self)@ == old(self)@.processed(done@),
    {
        let ghost pre = self@;
        let mut i: usize = 0;
        while i < self.remote_sessions.len()
            invariant
                i <= self.remote_sessions@.len(),
                self@.holders.len() == pre.holders.len(),
                self@.holders.len() == self.remote_sessions@.len(),
                pre.wf(),
                self@.wf(),
                forall|k: int|
                    0 <= k < i ==> #[trigger] self@.holders[k] == pre.processed(done@).holders[k],
                forall|k: int|
                    i <= k < pre.holders.len() ==> #[trigger] self@.holders[k] == pre.holders[k],
            decreases self.remote_sessions@.len() - i,
        {
            let ghost before = self@;
            assert(before.holders[i as int] == pre.holders[i as int]);
            let kept = without_done(&self.remote_sessions[i].connected, done);
            let ghost kept_view = kept@;
            let h = &mut self.remote_sessions[i];
            h.connected = kept;
            assert(self@.holders =~= before.holders.update(
                i as int,
                HolderView { connected: kept_view, ..before.holders[i as int] },
            ));
            i = i + 1;
        }
        assert(self@.holders =~= pre.processed(done@).holders);
    }

    /// How many connections to begin, to each server in order.
    pub fn routine(&mut self, done: &Vec<u64>) -> (r: Vec<(String, u16)>)
        requires
            old(self)@.wf(),
        ensures
            final(self)@.wf(),
            fills(old(self)@, final(self)@, done@, r@),
    {
        self.process_conn_events(done);
        let ghost pre = self@;
        let mut r: Vec<(String, u16)> = Vec::new();
        let mut i: usize = 0;
        while i < self.remote_sessions.len()
            invariant
                i <= self.remote_sessions@.len(),
                r@.len() == i,
                self@.holders.len() == pre.holders.len(),
                self@.holders.len() == self.remote_sessions@.len(),
                pre.wf(),
                self@.wf(),
                forall|k: int|
                    0 <= k < i ==> #[trigger] self@.holders[k] == pre.filled().holders[k],
                forall|k: int|
                    i <= k < pre.holders.len() ==> #[trigger] self@.holders[k] == pre.holders[k],
                forall|k: int|
                    0 <= k < i ==> (#[trigger] r@[k]).0@ == pre.holders[k].url && r@[k].1
                        == pre.holders[k].missing(),
            decreases self.remote_sessions@.len() - i,
        {
            let ghost before = self@;
            assert(before.holders[i as int] == pre.holders[i as int]);
            assert(before.holders[i as int] == self.remote_sessions@[i as int]@);
            let h = &mut self.remote_sessions[i];
            let missing: u16 = h.conns_per_host - h.connected.len() as u16 - h.connectings;
            let url = h.url.clone();
            h.connectings = h.connectings + missing;
            assert(self@.holders =~= before.holders.update(
                i as int,
                HolderView {
                    connectings: (before.holders[i as int].connectings + missing) as u16,
                    ..before.holders[i as int]
                },
            ));
            r.push((url, missing));
            i = i + 1;
        }
        assert(self@.holders =~= pre.filled().holders);
        r
    }
}

/// After the routine every server has as many connections as it shall have, made or begun.
pub proof fn routine_fills_every_server(m: ManagerView, done: Seq<u64>, i: int)
    requires
        m.wf(),
        0 <= i < m.holders.len(),
    ensures
        ({
            let h = m.processed(done).filled().holders[i];
            h.connected.len() + h.connectings == m.holders[i].conns_per_host
        }),
{
    let keep = |s: u64| !done.contains(s);
    lemma_filter_is_no_longer(m.holders[i].connected, keep);
}

proof fn lemma_filter_is_no_longer(s: Seq<u64>, keep: spec_fn(u64) -> bool)
    ensures
        s.filter(keep).len() <= s.len(),
    decreases s.len(),
{
    reveal(Seq::filter);
    if s.len() > 0 {
        lemma_filter_is_no_longer(s.drop_last(), keep);
    }
}

/// A connection that is made takes the place of the one that was begun.
pub proof fn made_connection_counts_once(m: ManagerView, url: Seq<char>, session: u64, i: int)
    requires
        m.wf(),
        m.is_connecting(url),
        0 <= i < m.holders.len(),
    ensures
        m.connected(url, session).holders[i].missing() == m.holders[i].missing(),
{
    lemma_place(m.holders, url, 0);
}

/// A connection that was made is in its server's list, after those that were there, and no other
/// server's list changes.
pub proof fn made_connection_is_listed(m: ManagerView, url: Seq<char>, session: u64, k: int, i: int)
    requires
        m.wf(),
        0 <= k < m.holders.len(),
        m.holders[k].url == url,
        m.holders[k].connectings > 0,
        0 <= i < m.holders.len(),
    ensures
        ({
            let t = m.connected(url, session);
            &&& t.holders.len() == m.holders.len()
            &&& t.holders[k].connected == m.holders[k].connected.push(session)
            &&& t.holders[k].connectings == m.holders[k].connectings - 1
            &&& i != k ==> t.holders[i] == m.holders[i]
        }),
{
    lemma_place(m.holders, url, 0);
}

/// A connection that could not be made leaves one more to make, and no list changes.
pub proof fn failed_connection_is_missing_again(m: ManagerView, url: Seq<char>, k: int, i: int)
    requires
        m.wf(),
        0 <= k < m.holders.len(),
        m.holders[k].url == url,
        m.holders[k].connectings > 0,
        0 <= i < m.holders.len(),
    ensures
        ({
            let t = m.failed(url);
            &&& t.holders.len() == m.holders.len()
            &&& t.holders[i].connected == m.holders[i].connected
            &&& t.holders[k].connectings == m.holders[k].connectings - 1
            &&& t.holders[k].conns_per_host - t.holders[k].connected.len()
                - t.holders[k].connectings == m.holders[k].conns_per_host
                - m.holders[k].connected.len() - m.holders[k].connectings + 1
            &&& i != k ==> t.holders[i] == m.holders[i]
        }),
{
    lemma_place(m.holders, url, 0);
}

/// A server that is added starts with no connection and none under way, and stands under its
/// address; adding it again starts it anew, and the other servers stay.
pub proof fn added_server_starts_empty(m: ManagerView, url: Seq<char>, n: u16, i: int)
    requires
        m.wf(),
        0 <= i < m.holders.len(),
    ensures
        ({
            let t = m.added(url, n);
            &&& t.find(url) is Some
            &&& t.holders[t.find(url)->Some_0].url == url
            &&& t.holders[t.find(url)->Some_0].connected.len() == 0
            &&& t.holders[t.find(url)->Some_0].connectings == 0
            &&& t.holders[t.find(url)->Some_0].conns_per_host == n
            &&& m.holders[i].url != url ==> t.holders[i] == m.holders[i]
        }),
{
    let t = m.added(url, n);
    lemma_place(m.holders, url, 0);
    lemma_place(t.holders, url, 0);
    match m.find(url) {
        Some(k) => {
            assert(t.holders[k].url == url);
        },
        None => {
            assert(t.holders[m.holders.len() as int].url == url);
        },
    }
}

proof fn lemma_filtered(s: Seq<u64>, keep: spec_fn(u64) -> bool, x: u64)
    ensures
        s.filter(keep).contains(x) <==> s.contains(x) && keep(x),
    decreases s.len(),
{
    reveal(Seq::filter);
    if s.len() > 0 {
        let less = s.drop_last();
        let f = less.filter(keep);
        lemma_filtered(less, keep, x);
        assert(s[s.len() - 1] == s.last());
        if s.contains(x) {
            let i = choose|i: int| 0 <= i < s.len() && s[i] == x;
            if i < less.len() {
                assert(less[i] == x);
            }
        }
        if less.contains(x) {
            let i = choose|i: int| 0 <= i < less.len() && less[i] == x;
            assert(s[i] == x);
        }
        if keep(s.last()) {
            let g = f.push(s.last());
            assert(s.filter(keep) == g);
            assert(g[f.len() as int] == s.last());
            if f.contains(x) {
                let i = choose|i: int| 0 <= i < f.len() && f[i] == x;
                assert(g[i] == x);
            }
            if g.contains(x) {
                let i = choose|i: int| 0 <= i < g.len() && g[i] == x;
                if i < f.len() {
                    assert(f[i] == x);
                }
            }
        }
    }
}

/// A session that has ended leaves its server's list, and every other stays in it.
pub proof fn ended_sessions_leave_the_lists(m: ManagerView, done: Seq<u64>, i: int, session: u64)
    requires
        0 <= i < m.holders.len(),
    ensures
        m.processed(done).holders[i].connected.contains(session) <==> m.holders[i].connected.contains(
            session,
        ) && !done.contains(session),
        m.processed(done).holders[i].url == m.holders[i].url,
        m.processed(done).holders[i].connectings == m.holders[i].connectings,
        m.processed(done).holders.len() == m.holders.len(),
{
    let keep = |s: u64| !done.contains(s);
    lemma_filtered(m.holders[i].connected, keep, session);
}

/// The routine: what has ended is taken off, and what is missing is begun.
pub open spec fn fills(
    pre: ManagerView,
    post: ManagerView,
    done: Seq<u64>,
    r: Seq<(String, u16)>,
) -> bool {
    &&& post == pre.processed(done).filled()
    &&& r.len() == pre.holders.len()
    &&& forall|i: int|
        0 <= i < r.len() ==> (#[trigger] r[i]).0@ == pre.holders[i].url && r[i].1 == pre.processed(
            done,
        ).holders[i].missing()
}

/// As many connections to a server are begun as its number wants beyond those that are left and
/// those under way, and each counts as under way from then on.
pub proof fn missing_connections_are_begun(
    pre: ManagerView,
    post: ManagerView,
    done: Seq<u64>,
    r: Seq<(String, u16)>,
    i: int,
)
    requires
        pre.wf(),
        fills(pre, post, done, r),
        0 <= i < pre.holders.len(),
    ensures
        r[i].0@ == pre.holders[i].url,
        post.holders[i].url == pre.holders[i].url,
        post.holders[i].connectings == pre.holders[i].connectings + r[i].1,
        post.holders[i].connected.len() + pre.holders[i].connectings + r[i].1
            == pre.holders[i].conns_per_host,
        post.holders[i].conns_per_host == pre.holders[i].conns_per_host,
{
    let keep = |s: u64| !done.contains(s);
    lemma_filter_is_no_longer(pre.holders[i].connected, keep);
    assert(r[i].0@ == pre.holders[i].url);
}

} // verus!
