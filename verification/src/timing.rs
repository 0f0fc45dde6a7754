//! Measured times, in nanoseconds.
use vstd::prelude::*;

verus! {

/// The longest time that a measurement or a sum of measurements can be: one nanosecond less than
/// 2^64 seconds.
pub const MAX_NANOS: u128 = 18_446_744_073_709_551_615_999_999_999;

/// The two phases of a server's work on one group.
#[derive(Clone, Copy, Debug, PartialEq, Eq, Structural)]
pub struct PhaseTimes {
    pub dpf_eval: u128,
    pub fetch_xor: u128,
}

/// The sum of `times`.
pub open spec fn total_time(times: Seq<u128>) -> nat
    decreases times.len(),
{
    if times.len() == 0 {
        0
    } else {
        total_time(times.drop_last()) + times.last() as nat
    }
}

pub(crate) proof fn lemma_total_time_prefix(times: Seq<u128>, i: int)
    requires
        0 <= i <= times.len(),
    ensures
        total_time(times.take(i)) <= total_time(times),
    decreases times.len() - i,
{
    if i == times.len() {
        assert(times.take(i) =~= times);
    } else {
        lemma_total_time_prefix(times, i + 1);
        assert(times.take(i + 1).drop_last() =~= times.take(i));
    }
}

/// The longer of two times.
pub open spec fn longer(a: u128, b: u128) -> u128 {
    if a < b {
        b
    } else {
        a
    }
}

/// The time that two servers take side by side.
pub fn parallel_time(a: u128, b: u128) -> (r: u128)
    ensures
        r == longer(a, b),
{
    if a < b {
        b
    } else {
        a
    }
}

/// The time from the clock reading `from` to the reading `to`; none if the clock went back.
pub open spec fn elapsed(from: u128, to: u128) -> u128 {
    if from <= to {
        (to - from) as u128
    } else {
        0
    }
}

/// The phases of a trial that are measured.
#[derive(Clone, Copy, Debug, PartialEq, Eq, Structural)]
pub enum Phase {
    /// Making the keys.
    Keys,
    /// The work of server 0.
    Server0,
    /// The work of server 1.
    Server1,
    /// Verifying the servers' answers.
    Verify,
    /// Making the hints.
    Hints,
    /// Setting up the client's states.
    Setup,
    /// Building the requests.
    Requests,
    /// Answering the requests.
    Responses,
    /// Making answers of the responses, and verifying them.
    Answers,
}

/// What a clock is asked for: the time at which a phase starts, or that at which it ends.
#[derive(Clone, Copy, Debug, PartialEq, Eq, Structural)]
pub enum Mark {
    Start(Phase),
    End(Phase),
}

/// `time` is what lies between the readings of `clock` at the start and at the end of `phase`.
pub open spec fn measured_by<C: Fn(Mark) -> u128>(clock: C, phase: Phase, time: u128) -> bool {
    exists|from: u128, to: u128|
        #![trigger call_ensures(clock, (Mark::Start(phase),), from),
            call_ensures(clock, (Mark::End(phase),), to)]
        call_ensures(clock, (Mark::Start(phase),), from) && call_ensures(
            clock,
            (Mark::End(phase),),
            to,
        ) && time == elapsed(from, to)
}

/// `clock` can be asked for every mark.
pub open spec fn clock_ready<C: Fn(Mark) -> u128>(clock: C) -> bool {
    forall|mark: Mark| #[trigger] call_requires(clock, (mark,))
}

/// The sum of `n` times that `clock` measures is no more than a time can be.
pub open spec fn clock_fits<C: Fn(Mark) -> u128>(clock: C, n: nat) -> bool {
    forall|mark: Mark, t: u128| #[trigger] call_ensures(clock, (mark,), t) ==> n * t <= MAX_NANOS
}

/// The time from the clock reading `from` to the reading `to`.
pub fn elapsed_time(from: u128, to: u128) -> (r: u128)
    ensures
        r == elapsed(from, to),
        r <= to,
{
    if from <= to {
        to - from
    } else {
        0
    }
}

/// A measured time is what lies between a reading at the start of its phase and one at its end,
/// which are handed back, and none where the clock went back.
pub proof fn law_measured_time<C: Fn(Mark) -> u128>(clock: C, phase: Phase, time: u128) -> (r: (
    u128,
    u128,
))
    requires
        measured_by(clock, phase, time),
    ensures
        call_ensures(clock, (Mark::Start(phase),), r.0),
        call_ensures(clock, (Mark::End(phase),), r.1),
        r.0 <= r.1 ==> r.0 + time == r.1,
        r.0 > r.1 ==> time == 0,
{
    choose|from: u128, to: u128|
        #![trigger call_ensures(clock, (Mark::Start(phase),), from),
            call_ensures(clock, (Mark::End(phase),), to)]
        call_ensures(clock, (Mark::Start(phase),), from) && call_ensures(
            clock,
            (Mark::End(phase),),
            to,
        ) && time == elapsed(from, to)
}

} // verus!
