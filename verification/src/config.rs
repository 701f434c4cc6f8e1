//! The settings of a client with channels.

use regex::Regex;
use vstd::prelude::*;

verus! {

#[derive(Debug, Clone)]
pub struct LogConfig {
    pub logtostderr: bool,
    pub level: String,
    pub logdir: String,
}

/// `regex::Regex`: a pattern made ready to be matched.
#[verifier::external_type_specification]
#[verifier::external_body]
pub struct ExRegex(Regex);

/// The pattern that a `Regex` was made of, as `Regex::as_str` gives it.
pub uninterp spec fn pattern_of(re: Regex) -> Seq<char>;

/// Whether `Regex::new` takes the pattern.
pub uninterp spec fn regex_valid(pattern: Seq<char>) -> bool;

/// What `Regex::is_match` says of a valid pattern and a text.
pub uninterp spec fn regex_match(pattern: Seq<char>, text: Seq<char>) -> bool;

/// `Regex::new`: whether it takes a pattern is a function of the pattern, and what it makes keeps
/// the pattern.
#[verifier::external_body]
fn compile(pattern: &str) -> (r: Option<Regex>)
    ensures
        match r {
            Some(re) => regex_valid(pattern@) && pattern_of(re) == pattern@,
            None => !regex_valid(pattern@),
        },
{
    Regex::new(pattern).ok()
}

/// `Regex::is_match`: a function of the pattern and the text.
#[verifier::external_body]
fn matches_text(re: &Regex, text: &str) -> (r: bool)
    ensures
        r == regex_match(pattern_of(*re), text@),
{
    re.is_match(text)
}

/// A rule that sends the hosts that match a pattern over a channel.
#[derive(Debug, Clone)]
pub struct PACConfig {
    pub host: String,
    pub channel: String,
    /// The pattern, once it is ready to be matched.
    pub re: Option<Regex>,
}

/// The pattern of a rule is not valid.
#[derive(Debug, PartialEq, Eq, Structural, Clone, Copy)]
pub struct BadPattern;

impl PACConfig {
    /// Makes the rule ready for use. A rule that is ready keeps its pattern.
    pub fn init(&mut self) -> (r: Result<(), BadPattern>)
        ensures
            final(self).host@ == old(self).host@,
            final(self).channel@ == old(self).channel@,
            match old(self).re {
                Some(re) => r is Ok && final(self).re == Some(re),
                None => if regex_valid(old(self).host@) {
                    &&& r is Ok
                    &&& final(self).re is Some
                    &&& pattern_of(final(self).re->Some_0) == old(self).host@
                } else {
                    r is Err && final(self).re is None
                },
            },
    {
        if self.re.is_none() {
            match compile(self.host.as_str()) {
                Some(re) => {
                    self.re = Some(re);
                },
                None => {
                    return Err(BadPattern);
                },
            }
        }
        Ok(())
    }

    /// Whether the rule is for the address: the pattern that it was made ready with decides.
    pub fn is_match(&self, addr: &str) -> (r: bool)
        requires
            self.re is Some,
        ensures
            r == regex_match(pattern_of(self.re->Some_0), addr@),
    {
        match &self.re {
            Some(re) => matches_text(re, addr),
            None => false,
        }
    }
}

#[derive(Debug, Clone)]
pub struct CipherConfig {
    pub key: String,
    pub method: String,
}

#[derive(Debug, Clone)]
pub struct ChannelConfig {
    pub name: String,
    pub url: String,
    pub cipher: CipherConfig,
    pub ping_interval_sec: u32,
    pub conns_per_host: u32,
    pub max_alive_mins: u32,
    pub proxy: Option<String>,
    /// The hours of the day in which the channel is used: from the first, up to the second.
    pub work_time_frame: Option<[u8; 2]>,
    pub sni: Option<String>,
    pub sni_proxy: Option<String>,
}

impl ChannelConfig {
    /// The channel is used at this hour.
    pub open spec fn works_at(self, h: u8) -> bool {
        match self.work_time_frame {
            Some(frame) => frame@[0] <= h < frame@[1],
            None => true,
        }
    }

    pub fn is_valid_hour(&self, h: u8) -> (r: bool)
        ensures
            r == self.works_at(h),
    {
        if let Some(frame) = self.work_time_frame {
            return frame[0] <= h && frame[1] > h;
        }
        true
    }

    /// The longest life of a session of the channel, in seconds.
    pub fn max_alive_secs(&self) -> (r: u64)
        ensures
            r == self.max_alive_mins * 60,
            r <= i64::MAX - 60,
    {
        self.max_alive_mins as u64 * 60
    }
}

#[derive(Debug, Clone)]
pub struct TunnelConfig {
    pub listen: String,
    pub cipher: Option<CipherConfig>,
    pub pac: Vec<PACConfig>,
}

/// The first rule that is ready and is for the address, from `i` on.
pub open spec fn first_rule(rules: Seq<PACConfig>, addr: Seq<char>, i: int) -> Option<int>
    decreases rules.len() - i,
{
    if i < 0 || i >= rules.len() {
        None
    } else if rules[i].re is Some && regex_match(pattern_of(rules[i].re->Some_0), addr) {
        Some(i)
    } else {
        first_rule(rules, addr, i + 1)
    }
}

impl TunnelConfig {
    /// The place of the rule that says which channel an address is reached over, if there is one.
    pub fn rule_for(&self, addr: &str) -> (r: Option<usize>)
        ensures
            match r {
                Some(i) => first_rule(self.pac@, addr@, 0) == Some(i as int),
                None => first_rule(self.pac@, addr@, 0) is None,
            },
    {
        let mut i: usize = 0;
        while i < self.pac.len()
            invariant
                i <= self.pac@.len(),
                first_rule(self.pac@, addr@, 0) == first_rule(self.pac@, addr@, i as int),
            decreases self.pac@.len() - i,
        {
            if self.pac[i].re.is_some() && self.pac[i].is_match(addr) {
                return Some(i);
            }
            i += 1;
        }
        None
    }
}

#[derive(Debug, Clone)]
pub struct DebugConfig {
    pub listen: String,
}

#[derive(Debug, Clone)]
pub struct Config {
    pub log: LogConfig,
    pub tunnel: Vec<TunnelConfig>,
    pub channel: Option<Vec<ChannelConfig>>,
    pub debug: Option<DebugConfig>,
}

/// A channel with working hours is used from the first of them on, up to the last and without it;
/// one without is used at every hour.
pub proof fn channel_keeps_its_hours(cfg: ChannelConfig, from: u8, to: u8, h: u8)
    requires
        cfg.work_time_frame is Some ==> cfg.work_time_frame->Some_0@ =~= seq![from, to],
    ensures
        cfg.work_time_frame is None ==> cfg.works_at(h),
        cfg.work_time_frame is Some ==> {
            &&& h < from ==> !cfg.works_at(h)
            &&& from <= h && h < to ==> cfg.works_at(h)
            &&& to <= h ==> !cfg.works_at(h)
        },
{
}

/// The rule that decides is ready and is for the address, and no rule before it is both; there is
/// none exactly when no rule is both.
pub proof fn first_matching_rule_decides(rules: Seq<PACConfig>, addr: Seq<char>, from: int)
    requires
        0 <= from,
    ensures
        match first_rule(rules, addr, from) {
            Some(i) => {
                &&& from <= i < rules.len()
                &&& rules[i].re is Some && regex_match(pattern_of(rules[i].re->Some_0), addr)
                &&& forall|j: int|
                    from <= j < i ==> !((#[trigger] rules[j]).re is Some && regex_match(
                        pattern_of(rules[j].re->Some_0),
                        addr,
                    ))
            },
            None => forall|j: int|
                from <= j < rules.len() ==> !((#[trigger] rules[j]).re is Some && regex_match(
                    pattern_of(rules[j].re->Some_0),
                    addr,
                )),
        },
    decreases rules.len() - from,
{
    if from < rules.len() {
        first_matching_rule_decides(rules, addr, from + 1);
    }
}

} // verus!
