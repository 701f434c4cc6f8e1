//! Counters of the running program.

use vstd::prelude::*;
use crate::text;
use crate::text::{decimal, same_text};

verus! {

#[derive(Debug, PartialEq, Eq, Structural, Clone, Copy)]
pub struct Stat {
    pub alive_relay_sessions: i32,
    pub alive_conns: i32,
    pub retired_conns: i32,
    pub alive_streams: i32,
    pub retired_streams: i32,
    pub relay_id_seed: u32,
    pub connection_id_seed: u32,
}

impl Default for Stat {
    fn default() -> (r: Stat)
        ensures
            r == (Stat {
                alive_relay_sessions: 0,
                alive_conns: 0,
                retired_conns: 0,
                alive_streams: 0,
                retired_streams: 0,
                relay_id_seed: 0,
                connection_id_seed: 0,
            }),
    {
        Stat {
            alive_relay_sessions: 0,
            alive_conns: 0,
            retired_conns: 0,
            alive_streams: 0,
            retired_streams: 0,
            relay_id_seed: 0,
            connection_id_seed: 0,
        }
    }
}

impl Stat {
    pub fn new() -> (r: Stat)
        ensures
            r == (Stat {
                alive_relay_sessions: 0,
                alive_conns: 0,
                retired_conns: 0,
                alive_streams: 0,
                retired_streams: 0,
                relay_id_seed: 0,
                connection_id_seed: 0,
            }),
    {
        Stat::default()
    }
}

/// Counts a relay session in, and gives the count before.
pub fn inc_alive_relay_sessions(stat: &mut Stat) -> (r: i32)
    ensures
        r == old(stat).alive_relay_sessions,
        *final(stat) == (Stat {
            alive_relay_sessions: i32::wrapping_add(old(stat).alive_relay_sessions, 1),
            ..*old(stat)
        }),
{
    let before: i32 = stat.alive_relay_sessions;
    stat.alive_relay_sessions = before.wrapping_add(1);
    before
}

/// Counts a relay session out, and gives the count before.
pub fn dec_alive_relay_sessions(stat: &mut Stat) -> (r: i32)
    ensures
        r == old(stat).alive_relay_sessions,
        *final(stat) == (Stat {
            alive_relay_sessions: i32::wrapping_sub(old(stat).alive_relay_sessions, 1),
            ..*old(stat)
        }),
{
    let before: i32 = stat.alive_relay_sessions;
    stat.alive_relay_sessions = before.wrapping_sub(1);
    before
}

pub fn set_alive_conns(stat: &mut Stat, c: usize)
    ensures
        *final(stat) == (Stat { alive_conns: c as i32, ..*old(stat) }),
{
    stat.alive_conns = c as i32;
}

pub fn set_retired_conns(stat: &mut Stat, c: usize)
    ensures
        *final(stat) == (Stat { retired_conns: c as i32, ..*old(stat) }),
{
    stat.retired_conns = c as i32;
}

pub fn set_retired_streams(stat: &mut Stat, c: usize)
    ensures
        *final(stat) == (Stat { retired_streams: c as i32, ..*old(stat) }),
{
    stat.retired_streams = c as i32;
}

pub fn inc_retired_streams(stat: &mut Stat, c: usize)
    ensures
        *final(stat) == (Stat {
            retired_streams: i32::wrapping_add(old(stat).retired_streams, c as i32),
            ..*old(stat)
        }),
{
    stat.retired_streams = stat.retired_streams.wrapping_add(c as i32);
}

pub fn set_alive_streams(stat: &mut Stat, c: usize)
    ensures
        *final(stat) == (Stat { alive_streams: c as i32, ..*old(stat) }),
{
    stat.alive_streams = c as i32;
}

pub fn inc_alive_streams(stat: &mut Stat, c: usize)
    ensures
        *final(stat) == (Stat {
            alive_streams: i32::wrapping_add(old(stat).alive_streams, c as i32),
            ..*old(stat)
        }),
{
    stat.alive_streams = stat.alive_streams.wrapping_add(c as i32);
}

/// The number for a new relay.
pub fn next_relay_id(stat: &mut Stat) -> (r: u32)
    ensures
        r == old(stat).relay_id_seed,
        *final(stat) == (Stat {
            relay_id_seed: u32::wrapping_add(old(stat).relay_id_seed, 1),
            ..*old(stat)
        }),
{
    let id: u32 = stat.relay_id_seed;
    stat.relay_id_seed = id.wrapping_add(1);
    id
}

/// The number for a new connection.
pub fn next_connection_id(stat: &mut Stat) -> (r: u32)
    ensures
        r == old(stat).connection_id_seed,
        *final(stat) == (Stat {
            connection_id_seed: u32::wrapping_add(old(stat).connection_id_seed, 1),
            ..*old(stat)
        }),
{
    let id: u32 = stat.connection_id_seed;
    stat.connection_id_seed = id.wrapping_add(1);
    id
}

/// A number with its sign, in decimal.
pub open spec fn signed(n: i32) -> Seq<char> {
    if n < 0 {
        "-"@ + text::digits((-n) as nat)
    } else {
        text::digits(n as nat)
    }
}

pub fn signed_decimal(n: i32) -> (r: String)
    ensures
        r@ == signed(n),
{
    if n < 0 {
        let mut s: String = "-".to_owned();
        s.push_str(decimal((-(n as i64)) as u64).as_str());
        s
    } else {
        decimal(n as u64)
    }
}

/// The counters as a text.
pub open spec fn stat_text(s: Stat) -> Seq<char> {
    "===========Period Dump Stat=============\n    alive_relay_sessions:"@ + signed(
        s.alive_relay_sessions,
    ) + "\n    alive_conns:"@ + signed(s.alive_conns) + "\n    retired_conns:"@ + signed(
        s.retired_conns,
    ) + "\n    alive_streams:"@ + signed(s.alive_streams) + "\n    retired_streams:"@ + signed(
        s.retired_streams,
    ) + "\n"@
}

/// The counters as a text for the log.
pub fn dump_stat(stat: &Stat) -> (r: String)
    ensures
        r@ == stat_text(*stat),
{
    let mut s: String =
        "===========Period Dump Stat=============\n    alive_relay_sessions:".to_owned();
    s.push_str(signed_decimal(stat.alive_relay_sessions).as_str());
    s.push_str("\n    alive_conns:");
    s.push_str(signed_decimal(stat.alive_conns).as_str());
    s.push_str("\n    retired_conns:");
    s.push_str(signed_decimal(stat.retired_conns).as_str());
    s.push_str("\n    alive_streams:");
    s.push_str(signed_decimal(stat.alive_streams).as_str());
    s.push_str("\n    retired_streams:");
    s.push_str(signed_decimal(stat.retired_streams).as_str());
    s.push_str("\n");
    s
}

/// The answer to a request of the debug server.
pub fn debug_page(url: &str, state: &str) -> (r: String)
    ensures
        r@ == if url@ == "/stat"@ {
            state@
        } else {
            "hello world"@
        },
{
    if same_text(url, "/stat") {
        state.to_owned()
    } else {
        "hello world".to_owned()
    }
}

/// A relay session that is counted in and out leaves the count as it was.
pub proof fn counting_in_and_out_cancels(n: i32)
    ensures
        i32::wrapping_sub(i32::wrapping_add(n, 1), 1) == n,
{
}

/// A number that is negative has a minus sign before its digits; the digits are those of its size.
pub proof fn numbers_are_written_with_their_sign(n: i32)
    ensures
        n >= 0 ==> text::number_of(signed(n), u64::MAX as nat) == Some(n as nat),
        n < 0 ==> signed(n).len() > 1 && signed(n)[0] == '-' && text::number_of(
            signed(n).skip(1),
            u64::MAX as nat,
        ) == Some((-n) as nat),
{
    reveal_strlit("-");
    if n >= 0 {
        text::numbers_are_read_up_to_the_largest(n as nat, u64::MAX as nat);
    } else {
        text::numbers_are_read_up_to_the_largest((-n) as nat, u64::MAX as nat);
        text::decimal_reads_back((-n) as nat);
        assert(signed(n).skip(1) =~= text::digits((-n) as nat));
    }
}

proof fn lemma_shown(a: Seq<char>, label: Seq<char>, value: Seq<char>, b: Seq<char>)
    ensures
        text::has_part(a + label + value + b, label + value),
{
    let part = label + value;
    assert(a + label + value + b =~= a + part + b);
    assert(text::has_part(a + part + b, part)) by {
        text::lemma_whole_part(part);
        text::lemma_part_between(a, part, b, part);
    }
}

/// The dump shows each of the five numbers behind its name.
pub proof fn dump_shows_the_numbers(s: Stat)
    ensures
        text::has_part(stat_text(s), "alive_relay_sessions:"@ + signed(s.alive_relay_sessions)),
        text::has_part(stat_text(s), "\n    alive_conns:"@ + signed(s.alive_conns)),
        text::has_part(stat_text(s), "\n    retired_conns:"@ + signed(s.retired_conns)),
        text::has_part(stat_text(s), "\n    alive_streams:"@ + signed(s.alive_streams)),
        text::has_part(stat_text(s), "\n    retired_streams:"@ + signed(s.retired_streams)),
{
    let l1 = "===========Period Dump Stat=============\n    alive_relay_sessions:"@;
    let l2 = "\n    alive_conns:"@;
    let l3 = "\n    retired_conns:"@;
    let l4 = "\n    alive_streams:"@;
    let l5 = "\n    retired_streams:"@;
    let e = "\n"@;
    let a = signed(s.alive_relay_sessions);
    let b = signed(s.alive_conns);
    let c = signed(s.retired_conns);
    let d = signed(s.alive_streams);
    let f = signed(s.retired_streams);
    let name = "alive_relay_sessions:"@;
    reveal_strlit("===========Period Dump Stat=============\n    alive_relay_sessions:");
    reveal_strlit("alive_relay_sessions:");
    let k = l1.len() - name.len();
    assert(l1.skip(k) =~= name);
    assert(l1 =~= l1.take(k) + name);
    lemma_shown(l1.take(k), name, a, l2 + b + l3 + c + l4 + d + l5 + f + e);
    assert(stat_text(s) =~= l1.take(k) + name + a + (l2 + b + l3 + c + l4 + d + l5 + f + e));
    lemma_shown(l1 + a, l2, b, l3 + c + l4 + d + l5 + f + e);
    assert(stat_text(s) =~= l1 + a + l2 + b + (l3 + c + l4 + d + l5 + f + e));
    lemma_shown(l1 + a + l2 + b, l3, c, l4 + d + l5 + f + e);
    assert(stat_text(s) =~= l1 + a + l2 + b + l3 + c + (l4 + d + l5 + f + e));
    lemma_shown(l1 + a + l2 + b + l3 + c, l4, d, l5 + f + e);
    assert(stat_text(s) =~= l1 + a + l2 + b + l3 + c + l4 + d + (l5 + f + e));
    lemma_shown(l1 + a + l2 + b + l3 + c + l4 + d, l5, f, e);
}

} // verus!
