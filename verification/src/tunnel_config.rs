//! Tunnel entries and port ranges, as they are written on the command line.

use vstd::prelude::*;
use crate::text;
use crate::parts;
use crate::mux::event;
use crate::mux::event::TunnelEntry;
use crate::parts::{split, Separator};
use crate::text::{chars_of, decimal, find_text, parse_number, text_between};

verus! {

/// Why a tunnel entry or a port range cannot be read.
#[derive(Debug, PartialEq, Eq, Structural, Clone, Copy)]
pub enum TunnelArgError {
    /// The parts are too few or too many, or one of them is missing.
    Format,
    /// A port is no number up to 65535.
    Port,
    /// The range ends before it starts.
    Range,
}

impl TunnelArgError {
    pub open spec fn text(self) -> Seq<char> {
        match self {
            TunnelArgError::Format => "invalid tunnel entry format"@,
            TunnelArgError::Port => "invalid tunnel port"@,
            TunnelArgError::Range => "invalid tunnel port range"@,
        }
    }

    pub fn message(&self) -> (r: &'static str)
        ensures
            r@ == self.text(),
    {
        match self {
            TunnelArgError::Format => "invalid tunnel entry format",
            TunnelArgError::Port => "invalid tunnel port",
            TunnelArgError::Range => "invalid tunnel port range",
        }
    }
}

/// What a tunnel entry says: the local address, the port on the server and the domain.
pub type EntryView = (Seq<char>, u16, Option<Seq<char>>);

impl View for TunnelEntry {
    type V = EntryView;

    open spec fn view(&self) -> EntryView {
        (self.local_addr@, self.remote_port, event::text_of(self.sni))
    }
}

/// The port that a text stands for.
pub open spec fn port_of(s: Seq<char>) -> Option<u16> {
    match text::number_of(s, 65535) {
        Some(n) => Some(n as u16),
        None => None,
    }
}

/// The entry with this host, these ports and this domain.
pub open spec fn entry_of(
    host: Seq<char>,
    local: Seq<char>,
    remote: Seq<char>,
    sni: Option<Seq<char>>,
) -> Result<EntryView, TunnelArgError> {
    if host.len() == 0 || (sni is Some && sni->Some_0.len() == 0) {
        Err(TunnelArgError::Format)
    } else {
        match (port_of(local), port_of(remote)) {
            (Some(l), Some(r)) => Ok((host + ":"@ + text::digits(l as nat), r, sni)),
            _ => Err(TunnelArgError::Port),
        }
    }
}

/// The entry that parts stand for: a port, a local and a remote port, and before them a host and
/// after them a domain.
pub open spec fn entry_of_parts(p: Seq<Seq<char>>) -> Result<EntryView, TunnelArgError> {
    if p.len() == 1 {
        entry_of("localhost"@, p[0], p[0], None)
    } else if p.len() == 2 {
        entry_of("localhost"@, p[0], p[1], None)
    } else if p.len() == 3 {
        entry_of(p[0], p[1], p[2], None)
    } else if p.len() == 4 {
        entry_of(p[0], p[1], p[2], Some(p[3]))
    } else {
        Err(TunnelArgError::Format)
    }
}

/// The entry with a host in brackets: the ports and the domain follow.
pub open spec fn bracketed_entry(s: Seq<char>) -> Result<EntryView, TunnelArgError> {
    match text::first_at(s, seq![']'], 0) {
        Some(k) => if k + 1 < s.len() && s[k + 1] == ':' {
            let p = parts::pieces(s.skip(k + 2), Separator::Char(':'));
            if p.len() == 2 {
                entry_of(s.take(k + 1), p[0], p[1], None)
            } else if p.len() == 3 {
                entry_of(s.take(k + 1), p[0], p[1], Some(p[2]))
            } else {
                Err(TunnelArgError::Format)
            }
        } else {
            Err(TunnelArgError::Format)
        },
        None => Err(TunnelArgError::Format),
    }
}

/// The entry that a text stands for.
pub open spec fn tunnel_entry(s: Seq<char>) -> Result<EntryView, TunnelArgError> {
    if s.len() > 0 && s[0] == '[' {
        bracketed_entry(s)
    } else {
        entry_of_parts(parts::pieces(s, Separator::Char(':')))
    }
}

fn parse_port(s: &str) -> (r: Option<u16>)
    ensures
        r == port_of(s@),
{
    match parse_number(s, 65535) {
        Some(n) => Some(n as u16),
        None => None,
    }
}

/// An outcome is the one that is due.
pub open spec fn parsed_as(
    r: Result<TunnelEntry, TunnelArgError>,
    due: Result<EntryView, TunnelArgError>,
) -> bool {
    match due {
        Ok(e) => r is Ok && r->Ok_0@ == e,
        Err(e) => r is Err && r->Err_0 == e,
    }
}

fn make_entry(host: &str, local: &str, remote: &str, sni: Option<&String>) -> (r: Result<
    TunnelEntry,
    TunnelArgError,
>)
    ensures
        parsed_as(
            r,
            entry_of(
                host@,
                local@,
                remote@,
                match sni {
                    Some(s) => Some(s@),
                    None => None,
                },
            ),
        ),
{
    if host.is_empty() {
        return Err(TunnelArgError::Format);
    }
    let sni = match sni {
        Some(s) => {
            if s.as_str().is_empty() {
                return Err(TunnelArgError::Format);
            }
            Some(s.clone())
        },
        None => None,
    };
    match (parse_port(local), parse_port(remote)) {
        (Some(l), Some(remote_port)) => {
            let mut local_addr: String = host.to_owned();
            local_addr.push_str(":");
            local_addr.push_str(decimal(l as u64).as_str());
            Ok(TunnelEntry { local_addr, remote_port, sni })
        },
        _ => Err(TunnelArgError::Port),
    }
}

fn parse_bracketed(arg: &str) -> (r: Result<TunnelEntry, TunnelArgError>)
    ensures
        parsed_as(r, bracketed_entry(arg@)),
{
    let v = chars_of(arg);
    let mut end: Vec<char> = Vec::new();
    end.push(']');
    proof {
        assert(end@ =~= seq![']']);
    }
    let k: usize = match find_text(&v, &end, 0) {
        Some(k) => k,
        None => {
            return Err(TunnelArgError::Format);
        },
    };
    let size: usize = v.len();
    if !(k + 1 < size && v[k + 1] == ':') {
        return Err(TunnelArgError::Format);
    }
    let host = text_between(&v, 0, k + 1);
    let rest = text_between(&v, k + 2, size);
    proof {
        assert(host@ =~= arg@.take(k + 1));
        assert(rest@ =~= arg@.skip(k + 2));
    }
    let p = split(rest.as_str(), Separator::Char(':'));
    let ghost all = parts::texts(p@);
    if p.len() == 2 {
        assert(all[0] == p@[0]@ && all[1] == p@[1]@);
        make_entry(host.as_str(), p[0].as_str(), p[1].as_str(), None)
    } else if p.len() == 3 {
        assert(all[0] == p@[0]@ && all[1] == p@[1]@ && all[2] == p@[2]@);
        make_entry(host.as_str(), p[0].as_str(), p[1].as_str(), Some(&p[2]))
    } else {
        Err(TunnelArgError::Format)
    }
}

/// Reads a tunnel entry: `port`, `local:remote`, `host:local:remote` or `host:local:remote:sni`;
/// a host may stand in brackets.
pub fn parse_tunnel_arg(arg: &str) -> (r: Result<TunnelEntry, TunnelArgError>)
    ensures
        parsed_as(r, tunnel_entry(arg@)),
{
    let v = chars_of(arg);
    if v.len() > 0 && v[0] == '[' {
        return parse_bracketed(arg);
    }
    let p = split(arg, Separator::Char(':'));
    let ghost all = parts::texts(p@);
    if p.len() == 1 {
        assert(all[0] == p@[0]@);
        make_entry("localhost", p[0].as_str(), p[0].as_str(), None)
    } else if p.len() == 2 {
        assert(all[0] == p@[0]@ && all[1] == p@[1]@);
        make_entry("localhost", p[0].as_str(), p[1].as_str(), None)
    } else if p.len() == 3 {
        assert(all[0] == p@[0]@ && all[1] == p@[1]@ && all[2] == p@[2]@);
        make_entry(p[0].as_str(), p[1].as_str(), p[2].as_str(), None)
    } else if p.len() == 4 {
        assert(all[0] == p@[0]@ && all[1] == p@[1]@ && all[2] == p@[2]@ && all[3] == p@[3]@);
        make_entry(p[0].as_str(), p[1].as_str(), p[2].as_str(), Some(&p[3]))
    } else {
        Err(TunnelArgError::Format)
    }
}

/// The ports from the first to the second.
pub open spec fn range_of(s: Seq<char>) -> Result<(u16, u16), TunnelArgError> {
    let p = parts::pieces(s, Separator::Char('-'));
    if p.len() != 2 {
        Err(TunnelArgError::Format)
    } else {
        match (port_of(p[0]), port_of(p[1])) {
            (Some(low), Some(high)) => if low <= high {
                Ok((low, high))
            } else {
                Err(TunnelArgError::Range)
            },
            _ => Err(TunnelArgError::Port),
        }
    }
}

/// The ranges that texts stand for; the first that cannot be read decides.
pub open spec fn ranges_of(p: Seq<Seq<char>>) -> Result<Seq<(u16, u16)>, TunnelArgError>
    decreases p.len(),
{
    if p.len() == 0 {
        Ok(Seq::empty())
    } else {
        match ranges_of(p.drop_last()) {
            Ok(before) => match range_of(p.last()) {
                Ok(range) => Ok(before.push(range)),
                Err(e) => Err(e),
            },
            Err(e) => Err(e),
        }
    }
}

proof fn lemma_error_stays(p: Seq<Seq<char>>, i: int)
    requires
        0 <= i <= p.len(),
        ranges_of(p.take(i)) is Err,
    ensures
        ranges_of(p) == ranges_of(p.take(i)),
    decreases p.len(),
{
    if i == p.len() {
        assert(p.take(i) =~= p);
    } else {
        assert(p.drop_last().take(i) =~= p.take(i));
        lemma_error_stays(p.drop_last(), i);
    }
}

fn parse_range(s: &str) -> (r: Result<(u16, u16), TunnelArgError>)
    ensures
        r == range_of(s@),
{
    let p = split(s, Separator::Char('-'));
    let ghost all = parts::texts(p@);
    if p.len() != 2 {
        return Err(TunnelArgError::Format);
    }
    assert(all[0] == p@[0]@ && all[1] == p@[1]@);
    match (parse_port(p[0].as_str()), parse_port(p[1].as_str())) {
        (Some(low), Some(high)) => {
            if low <= high {
                Ok((low, high))
            } else {
                Err(TunnelArgError::Range)
            }
        },
        _ => Err(TunnelArgError::Port),
    }
}

/// Reads port ranges, such as `8000-9000,10000-10100`.
pub fn parse_port_range(s: &str) -> (r: Result<Vec<(u16, u16)>, TunnelArgError>)
    ensures
        match ranges_of(parts::pieces(s@, Separator::Char(','))) {
            Ok(ranges) => r is Ok && r->Ok_0@ == ranges,
            Err(e) => r is Err && r->Err_0 == e,
        },
{
    let p = split(s, Separator::Char(','));
    let ghost all = parts::texts(p@);
    let mut ranges: Vec<(u16, u16)> = Vec::new();
    let mut i: usize = 0;
    proof {
        assert(all.take(0) =~= Seq::empty());
        assert(ranges@ =~= Seq::empty());
    }
    while i < p.len()
        invariant
            i <= p@.len(),
            all == parts::texts(p@),
            all == parts::pieces(s@, Separator::Char(',')),
            ranges_of(all.take(i as int)) == Ok::<Seq<(u16, u16)>, TunnelArgError>(ranges@),
        decreases p@.len() - i,
    {
        proof {
            assert(all.take(i + 1).drop_last() =~= all.take(i as int));
            assert(all.take(i + 1).last() == p@[i as int]@);
        }
        match parse_range(p[i].as_str()) {
            Ok(range) => {
                ranges.push(range);
            },
            Err(e) => {
                proof {
                    lemma_error_stays(all, i + 1);
                }
                return Err(e);
            },
        }
        i += 1;
    }
    assert(all.take(i as int) =~= all);
    Ok(ranges)
}

proof fn lemma_port_text(p: u16)
    ensures
        port_of(text::digits(p as nat)) == Some(p),
        !text::digits(p as nat).contains(':'),
        !text::digits(p as nat).contains('-'),
        text::digits(p as nat).len() > 0,
        text::digits(p as nat)[0] != '[',
{
    let d = text::digits(p as nat);
    text::decimal_reads_back(p as nat);
    assert(text::digit_value(d[0]) is Some);
    assert forall|i: int| 0 <= i < d.len() implies d[i] != ':' && d[i] != '-' by {
        assert(text::digit_value(d[i]) is Some);
    }
}

/// A port alone stands for that port on this host and the same port on the server.
pub proof fn port_entry(p: u16)
    ensures
        tunnel_entry(text::digits(p as nat)) == Ok::<EntryView, TunnelArgError>(
            ("localhost"@ + ":"@ + text::digits(p as nat), p, None),
        ),
{
    reveal_strlit("localhost");
    lemma_port_text(p);
    parts::pieces_of_one(text::digits(p as nat), ':');
}

/// Two ports stand for the first on this host and the second on the server.
pub proof fn two_port_entry(local: u16, remote: u16)
    ensures
        tunnel_entry(text::digits(local as nat) + seq![':'] + text::digits(remote as nat)) == Ok::<
            EntryView,
            TunnelArgError,
        >(("localhost"@ + ":"@ + text::digits(local as nat), remote, None)),
{
    reveal_strlit("localhost");
    lemma_port_text(local);
    lemma_port_text(remote);
    parts::pieces_of_joined(text::digits(local as nat), ':', text::digits(remote as nat));
    parts::pieces_of_one(text::digits(remote as nat), ':');
}

/// A host and two ports stand for the first port on that host and the second on the server.
pub proof fn host_entry(host: Seq<char>, local: u16, remote: u16)
    requires
        host.len() > 0,
        host[0] != '[',
        !host.contains(':'),
    ensures
        tunnel_entry(
            host + seq![':'] + (text::digits(local as nat) + seq![':'] + text::digits(remote as nat)),
        ) == Ok::<EntryView, TunnelArgError>((host + ":"@ + text::digits(local as nat), remote, None)),
{
    lemma_port_text(local);
    lemma_port_text(remote);
    let tail = text::digits(local as nat) + seq![':'] + text::digits(remote as nat);
    parts::pieces_of_joined(host, ':', tail);
    parts::pieces_of_joined(text::digits(local as nat), ':', text::digits(remote as nat));
    parts::pieces_of_one(text::digits(remote as nat), ':');
    assert(parts::pieces(host + seq![':'] + tail, Separator::Char(':')) =~= seq![
        host,
        text::digits(local as nat),
        text::digits(remote as nat),
    ]);
}

/// With a domain behind them, the entry is for that domain.
pub proof fn domain_entry(host: Seq<char>, local: u16, remote: u16, sni: Seq<char>)
    requires
        host.len() > 0,
        host[0] != '[',
        !host.contains(':'),
        sni.len() > 0,
        !sni.contains(':'),
    ensures
        tunnel_entry(
            host + seq![':'] + (text::digits(local as nat) + seq![':'] + (text::digits(remote as nat) + seq![':']
                + sni)),
        ) == Ok::<EntryView, TunnelArgError>(
            (host + ":"@ + text::digits(local as nat), remote, Some(sni)),
        ),
{
    lemma_port_text(local);
    lemma_port_text(remote);
    let end = text::digits(remote as nat) + seq![':'] + sni;
    let tail = text::digits(local as nat) + seq![':'] + end;
    parts::pieces_of_joined(host, ':', tail);
    parts::pieces_of_joined(text::digits(local as nat), ':', end);
    parts::pieces_of_joined(text::digits(remote as nat), ':', sni);
    parts::pieces_of_one(sni, ':');
    assert(parts::pieces(host + seq![':'] + tail, Separator::Char(':')) =~= seq![
        host,
        text::digits(local as nat),
        text::digits(remote as nat),
        sni,
    ]);
}

proof fn lemma_brackets(host: Seq<char>, tail: Seq<char>)
    requires
        !host.contains(']'),
    ensures
        ({
            let s = seq!['['] + host + seq![']', ':'] + tail;
            let k = host.len() as int + 1;
            &&& text::first_at(s, seq![']'], 0) == Some(k)
            &&& s[k + 1] == ':'
            &&& s.skip(k + 2) == tail
            &&& s.take(k + 1) == seq!['['] + host + seq![']']
        }),
{
    let s = seq!['['] + host + seq![']', ':'] + tail;
    let k = host.len() as int + 1;
    text::lemma_first_at(s, seq![']'], 0);
    assert(s[k] == ']');
    assert(s.subrange(k, k + 1) =~= seq![']']);
    assert(text::occurs_at(s, seq![']'], k));
    assert forall|j: int| 0 <= j < k implies !#[trigger] text::occurs_at(s, seq![']'], j) by {
        if text::occurs_at(s, seq![']'], j) {
            assert(s.subrange(j, j + 1)[0] == ']');
            assert(s[j] == ']');
            if j > 0 {
                assert(host[j - 1] == s[j]);
            }
        }
    }
    assert(s.skip(k + 2) =~= tail);
    assert(s.take(k + 1) =~= seq!['['] + host + seq![']']);
}

/// A host in brackets may hold colons.
pub proof fn bracketed_host_entry(host: Seq<char>, local: u16, remote: u16)
    requires
        !host.contains(']'),
    ensures
        tunnel_entry(
            seq!['['] + host + seq![']', ':'] + (text::digits(local as nat) + seq![':']
                + text::digits(remote as nat)),
        ) == Ok::<EntryView, TunnelArgError>(
            (seq!['['] + host + seq![']'] + ":"@ + text::digits(local as nat), remote, None),
        ),
{
    lemma_port_text(local);
    lemma_port_text(remote);
    lemma_brackets(host, text::digits(local as nat) + seq![':'] + text::digits(remote as nat));
    parts::pieces_of_joined(text::digits(local as nat), ':', text::digits(remote as nat));
    parts::pieces_of_one(text::digits(remote as nat), ':');
}

/// A host in brackets may come with a domain.
pub proof fn bracketed_domain_entry(host: Seq<char>, local: u16, remote: u16, sni: Seq<char>)
    requires
        !host.contains(']'),
        sni.len() > 0,
        !sni.contains(':'),
    ensures
        tunnel_entry(
            seq!['['] + host + seq![']', ':'] + (text::digits(local as nat) + seq![':'] + (
            text::digits(remote as nat) + seq![':'] + sni)),
        ) == Ok::<EntryView, TunnelArgError>(
            (seq!['['] + host + seq![']'] + ":"@ + text::digits(local as nat), remote, Some(sni)),
        ),
{
    lemma_port_text(local);
    lemma_port_text(remote);
    let end = text::digits(remote as nat) + seq![':'] + sni;
    let tail = text::digits(local as nat) + seq![':'] + end;
    lemma_brackets(host, tail);
    parts::pieces_of_joined(text::digits(local as nat), ':', end);
    parts::pieces_of_joined(text::digits(remote as nat), ':', sni);
    parts::pieces_of_one(sni, ':');
    assert(parts::pieces(tail, Separator::Char(':')) =~= seq![
        text::digits(local as nat),
        text::digits(remote as nat),
        sni,
    ]);
}

/// A range that is written in decimal is read back.
pub proof fn range_reads_back(low: u16, high: u16)
    requires
        low <= high,
    ensures
        range_of(text::digits(low as nat) + seq!['-'] + text::digits(high as nat)) == Ok::<
            (u16, u16),
            TunnelArgError,
        >((low, high)),
{
    lemma_port_text(low);
    lemma_port_text(high);
    parts::pieces_of_joined(text::digits(low as nat), '-', text::digits(high as nat));
    parts::pieces_of_one(text::digits(high as nat), '-');
}

/// A port is a number up to 65535; a larger one is refused wherever it stands.
pub proof fn port_out_of_range_is_refused(n: nat, m: u16)
    requires
        n > 65535,
    ensures
        tunnel_entry(text::digits(n)) == Err::<EntryView, TunnelArgError>(TunnelArgError::Port),
        tunnel_entry(text::digits(n) + seq![':'] + text::digits(m as nat)) == Err::<
            EntryView,
            TunnelArgError,
        >(TunnelArgError::Port),
        tunnel_entry(text::digits(m as nat) + seq![':'] + text::digits(n)) == Err::<
            EntryView,
            TunnelArgError,
        >(TunnelArgError::Port),
        range_of(text::digits(n) + seq!['-'] + text::digits(m as nat)) == Err::<
            (u16, u16),
            TunnelArgError,
        >(TunnelArgError::Port),
        range_of(text::digits(m as nat) + seq!['-'] + text::digits(n)) == Err::<
            (u16, u16),
            TunnelArgError,
        >(TunnelArgError::Port),
{
    reveal_strlit("localhost");
    lemma_port_text(m);
    text::numbers_are_read_up_to_the_largest(n, 65535);
    text::decimal_reads_back(n);
    let d = text::digits(n);
    let e = text::digits(m as nat);
    assert(text::digit_value(d[0]) is Some);
    assert forall|i: int| 0 <= i < d.len() implies d[i] != ':' && d[i] != '-' by {
        assert(text::digit_value(d[i]) is Some);
    }
    parts::pieces_of_one(d, ':');
    parts::pieces_of_one(d, '-');
    parts::pieces_of_one(e, ':');
    parts::pieces_of_one(e, '-');
    parts::pieces_of_joined(d, ':', e);
    parts::pieces_of_joined(e, ':', d);
    parts::pieces_of_joined(d, '-', e);
    parts::pieces_of_joined(e, '-', d);
    assert((d + seq![':'] + e)[0] == d[0]);
    assert((e + seq![':'] + d)[0] == e[0]);
}

/// A range whose end lies before its start is refused.
pub proof fn reversed_range_is_refused(low: u16, high: u16)
    requires
        high < low,
    ensures
        range_of(text::digits(low as nat) + seq!['-'] + text::digits(high as nat)) == Err::<
            (u16, u16),
            TunnelArgError,
        >(TunnelArgError::Range),
{
    lemma_port_text(low);
    lemma_port_text(high);
    parts::pieces_of_joined(text::digits(low as nat), '-', text::digits(high as nat));
    parts::pieces_of_one(text::digits(high as nat), '-');
}

/// A tunnel to a host without a name, or with a domain that is left empty, is refused.
pub proof fn empty_names_are_refused(host: Seq<char>, local: u16, remote: u16)
    requires
        host.len() > 0,
        host[0] != '[',
        !host.contains(':'),
    ensures
        tunnel_entry(
            seq![':'] + (text::digits(local as nat) + seq![':'] + text::digits(remote as nat)),
        ) == Err::<EntryView, TunnelArgError>(TunnelArgError::Format),
        tunnel_entry(
            host + seq![':'] + (text::digits(local as nat) + seq![':'] + (text::digits(
                remote as nat,
            ) + seq![':'])),
        ) == Err::<EntryView, TunnelArgError>(TunnelArgError::Format),
{
    lemma_port_text(local);
    lemma_port_text(remote);
    let l = text::digits(local as nat);
    let r = text::digits(remote as nat);
    let none = Seq::<char>::empty();
    let tail = l + seq![':'] + r;
    parts::pieces_of_one(r, ':');
    parts::pieces_of_joined(l, ':', r);
    parts::pieces_of_joined(none, ':', tail);
    assert(none + seq![':'] + tail =~= seq![':'] + tail);
    assert(parts::pieces(seq![':'] + tail, Separator::Char(':')) =~= seq![none, l, r]);
    let end = r + seq![':'];
    let tail4 = l + seq![':'] + end;
    parts::pieces_of_one(none, ':');
    assert(r + seq![':'] + none =~= end);
    parts::pieces_of_joined(r, ':', none);
    parts::pieces_of_joined(l, ':', end);
    parts::pieces_of_joined(host, ':', tail4);
    assert(parts::pieces(host + seq![':'] + tail4, Separator::Char(':')) =~= seq![
        host,
        l,
        r,
        none,
    ]);
    assert((host + seq![':'] + tail4)[0] == host[0]);
}

proof fn lemma_ranges(p: Seq<Seq<char>>)
    ensures
        ranges_of(p) is Ok <==> forall|i: int| 0 <= i < p.len() ==> range_of(#[trigger] p[i]) is Ok,
        ranges_of(p) is Ok ==> ranges_of(p)->Ok_0.len() == p.len(),
        ranges_of(p) is Ok ==> forall|i: int|
            0 <= i < p.len() ==> range_of(#[trigger] p[i])->Ok_0 == ranges_of(p)->Ok_0[i],
        ranges_of(p) is Err ==> exists|i: int|
            0 <= i < p.len() && range_of(#[trigger] p[i]) is Err && ranges_of(p)->Err_0 == range_of(
                p[i],
            )->Err_0 && forall|j: int| 0 <= j < i ==> range_of(#[trigger] p[j]) is Ok,
    decreases p.len(),
{
    if p.len() > 0 {
        let q = p.drop_last();
        lemma_ranges(q);
        assert forall|i: int| 0 <= i < q.len() implies q[i] == p[i] by {}
        let n = p.len() - 1;
        assert(p[n] == p.last());
        if ranges_of(q) is Ok {
            assert forall|i: int| 0 <= i < n implies range_of(#[trigger] p[i]) is Ok by {
                assert(range_of(q[i]) is Ok);
            }
            if range_of(p.last()) is Ok {
                assert forall|i: int| 0 <= i < p.len() implies range_of(#[trigger] p[i]) is Ok
                    && range_of(p[i])->Ok_0 == ranges_of(p)->Ok_0[i] by {
                    if i < n {
                        assert(range_of(q[i])->Ok_0 == ranges_of(q)->Ok_0[i]);
                    }
                }
            } else {
                assert(range_of(p[n]) is Err);
            }
        } else {
            let i = choose|i: int|
                0 <= i < q.len() && range_of(#[trigger] q[i]) is Err && ranges_of(q)->Err_0
                    == range_of(q[i])->Err_0 && forall|j: int|
                    0 <= j < i ==> range_of(#[trigger] q[j]) is Ok;
            assert(range_of(p[i]) is Err);
            assert forall|j: int| 0 <= j < i implies range_of(#[trigger] p[j]) is Ok by {
                assert(range_of(q[j]) is Ok);
            }
        }
    }
}

/// A list of ranges is read exactly when each of them is, one range for one; otherwise the first
/// that cannot be read says why.
pub proof fn ranges_are_read_one_by_one(p: Seq<Seq<char>>)
    ensures
        ranges_of(p) is Ok <==> forall|i: int| 0 <= i < p.len() ==> range_of(#[trigger] p[i]) is Ok,
        ranges_of(p) is Ok ==> ranges_of(p)->Ok_0.len() == p.len() && forall|i: int|
            0 <= i < p.len() ==> range_of(#[trigger] p[i])->Ok_0 == ranges_of(p)->Ok_0[i],
        ranges_of(p) is Err ==> exists|i: int|
            0 <= i < p.len() && range_of(#[trigger] p[i]) is Err && ranges_of(p)->Err_0 == range_of(
                p[i],
            )->Err_0 && forall|j: int| 0 <= j < i ==> range_of(#[trigger] p[j]) is Ok,
{
    lemma_ranges(p);
}

} // verus!
