//! The timeout of a read. Several readers may share one timer.

use vstd::prelude::*;

verus! {

/// The timer: it is up once the time is at or past its deadline. Times are in milliseconds.
#[derive(Debug, PartialEq, Eq, Structural, Clone, Copy)]
pub struct Delay {
    pub deadline: u64,
}

impl Delay {
    pub fn new(at: u64) -> (r: Delay)
        ensures
            r.deadline == at,
    {
        Delay { deadline: at }
    }

    pub fn reset(&mut self, at: u64)
        ensures
            final(self).deadline == at,
    {
        self.deadline = at;
    }

    pub fn is_up(&self, now: u64) -> (r: bool)
        ensures
            r == (now >= self.deadline),
    {
        now >= self.deadline
    }
}

/// A read took too long.
#[derive(Debug, PartialEq, Eq, Structural, Clone, Copy)]
pub struct TimedOut;

/// The timeout of one reader.
#[derive(Debug, PartialEq, Eq, Structural, Clone, Copy)]
pub struct TimeoutState {
    timeout: Option<u64>,
    active: bool,
}

impl TimeoutState {
    pub closed spec fn limit(self) -> Option<u64> {
        self.timeout
    }

    /// The timer runs for this reader.
    pub closed spec fn running(self) -> bool {
        self.active
    }

    /// There is initially no timeout.
    pub fn new() -> (r: TimeoutState)
        ensures
            r.limit() is None,
            !r.running(),
    {
        TimeoutState { timeout: None, active: false }
    }

    pub fn timeout(&self) -> (r: Option<u64>)
        ensures
            r == self.limit(),
    {
        self.timeout
    }

    /// Sets the timeout, and stops the timer where it runs.
    pub fn set_timeout(&mut self, timeout: Option<u64>, timer: &mut Delay, now: u64)
        ensures
            final(self).limit() == timeout,
            !final(self).running(),
            final(timer).deadline == if old(self).running() {
                now
            } else {
                old(timer).deadline
            },
    {
        self.timeout = timeout;
        self.reset(timer, now);
    }

    /// Something was read: the timer stops where it runs.
    pub fn reset(&mut self, timer: &mut Delay, now: u64)
        ensures
            final(self).limit() == old(self).limit(),
            !final(self).running(),
            final(timer).deadline == if old(self).running() {
                now
            } else {
                old(timer).deadline
            },
    {
        if self.active {
            self.active = false;
            timer.reset(now);
        }
    }

    /// Nothing could be read: the timer starts where it does not run, and the read fails once the
    /// timer is up.
    pub fn check(&mut self, timer: &mut Delay, now: u64) -> (r: Result<(), TimedOut>)
        requires
            old(self).limit() matches Some(t) ==> now + t <= u64::MAX,
        ensures
            final(self).limit() == old(self).limit(),
            match old(self).limit() {
                None => r is Ok && *final(self) == *old(self) && *final(timer) == *old(timer),
                Some(t) => {
                    &&& final(self).running()
                    &&& final(timer).deadline == if old(self).running() {
                        old(timer).deadline
                    } else {
                        (now + t) as u64
                    }
                    &&& r is Err <==> now >= final(timer).deadline
                },
            },
    {
        let timeout: u64 = match self.timeout {
            Some(timeout) => timeout,
            None => {
                return Ok(());
            },
        };
        if !self.active {
            timer.reset(now + timeout);
            self.active = true;
        }
        if timer.is_up(now) {
            Err(TimedOut)
        } else {
            Ok(())
        }
    }

    /// What comes of a read: one that found nothing is checked against the timeout, and any other
    /// stops the timer.
    pub fn after_read(&mut self, would_block: bool, timer: &mut Delay, now: u64) -> (r: Result<
        (),
        TimedOut,
    >)
        requires
            old(self).limit() matches Some(t) ==> now + t <= u64::MAX,
        ensures
            is_timed(*old(self), *final(self), *old(timer), *final(timer), would_block, now, r),
    {
        if would_block {
            self.check(timer, now)
        } else {
            self.reset(timer, now);
            Ok(())
        }
    }
}

/// What a read comes to under a timeout.
pub open spec fn is_timed(
    pre: TimeoutState,
    post: TimeoutState,
    before: Delay,
    after: Delay,
    would_block: bool,
    now: u64,
    r: Result<(), TimedOut>,
) -> bool {
    &&& post.limit() == pre.limit()
    &&& r is Err <==> would_block && pre.limit() is Some && now >= after.deadline
    &&& post.running() == (would_block && (pre.limit() is Some || pre.running()))
    &&& after.deadline == if would_block {
        if pre.limit() is Some && !pre.running() {
            (now + pre.limit()->Some_0) as u64
        } else {
            before.deadline
        }
    } else if pre.running() {
        now
    } else {
        before.deadline
    }
}

/// A reader that finds nothing fails exactly when its timeout has passed since it first found
/// nothing: the clock starts with that read, and later ones do not move it.
pub proof fn empty_reads_time_out(
    a: TimeoutState,
    b: TimeoutState,
    c: TimeoutState,
    t0: Delay,
    t1: Delay,
    t2: Delay,
    limit: u64,
    start: u64,
    now: u64,
    first: Result<(), TimedOut>,
    second: Result<(), TimedOut>,
)
    requires
        a.limit() == Some(limit),
        !a.running(),
        start + limit <= u64::MAX,
        start <= now,
        is_timed(a, b, t0, t1, true, start, first),
        is_timed(b, c, t1, t2, true, now, second),
    ensures
        first is Err <==> limit == 0,
        second is Err <==> now - start >= limit,
        b.running() && c.running(),
{
}

/// Whatever is read stops the clock, so that the next empty read starts it anew; and without a
/// timeout nothing ever fails.
pub proof fn data_stops_the_clock(
    a: TimeoutState,
    b: TimeoutState,
    t0: Delay,
    t1: Delay,
    would_block: bool,
    now: u64,
    r: Result<(), TimedOut>,
)
    requires
        is_timed(a, b, t0, t1, would_block, now, r),
    ensures
        !would_block ==> r is Ok && !b.running(),
        a.limit() is None ==> r is Ok,
        b.limit() == a.limit(),
{
}

} // verus!
