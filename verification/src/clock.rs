//! Reading the clock.
use std::time::{Instant, SystemTime};
use vstd::prelude::*;

verus! {

/// `std::time::Instant`, carried as an opaque value.
#[verifier::external_type_specification]
#[verifier::external_body]
pub struct ExInstant(Instant);

/// `Instant::now`: the present moment, of which nothing is known beforehand.
#[verifier::external_body]
fn now() -> (moment: Instant) {
    Instant::now()
}

/// `Instant::elapsed`: the nanoseconds since a moment, of which nothing is known
/// beforehand.
#[verifier::external_body]
fn elapsed_ns(since: &Instant) -> (nanos: u64) {
    since.elapsed().as_nanos() as u64
}

/// The moment is what the clock answered when it was asked for the present one.
pub closed spec fn read_now(moment: Instant) -> bool {
    call_ensures(now, (), moment)
}

/// Asks a clock for the present moment.
fn ask_now<F: Fn() -> Instant>(clock: F) -> (moment: Instant)
    requires
        call_requires(clock, ()),
    ensures
        call_ensures(clock, (), moment),
{
    clock()
}

/// The present moment, as the clock tells it.
pub fn present() -> (moment: Instant)
    ensures
        read_now(moment),
{
    ask_now(now)
}

/// The nanoseconds are what the clock answered when it was asked for the time
/// since a moment.
pub closed spec fn read_since(moment: Instant, nanos: u64) -> bool {
    call_ensures(elapsed_ns, (&moment,), nanos)
}

/// Asks a clock for the time since a moment.
fn ask_since<F: Fn(&Instant) -> u64>(clock: F, moment: &Instant) -> (nanos: u64)
    requires
        call_requires(clock, (moment,)),
    ensures
        call_ensures(clock, (moment,), nanos),
{
    clock(moment)
}

/// The nanoseconds since a moment, as the clock tells them.
pub fn time_since(moment: &Instant) -> (nanos: u64)
    ensures
        read_since(*moment, nanos),
{
    ask_since(elapsed_ns, moment)
}

/// The nanoseconds are a time that was measured, from a moment that the clock told.
pub open spec fn measured(nanos: u64) -> bool {
    exists|start: Instant| #[trigger] read_now(start) && read_since(start, nanos)
}

/// `std::time::SystemTime`, carried as an opaque value.
#[verifier::external_type_specification]
#[verifier::external_body]
pub struct ExSystemTime(SystemTime);

/// `SystemTime::now`: the present time of day, of which nothing is known
/// beforehand.
#[verifier::external_body]
fn wall_clock() -> (time: SystemTime) {
    SystemTime::now()
}

/// `SystemTime::duration_since` the epoch: its whole seconds, and nothing for a
/// time before the epoch. No more is stated of them: a time is opaque here.
#[verifier::external_body]
fn epoch_seconds(time: SystemTime) -> (seconds: Option<u64>) {
    time.duration_since(SystemTime::UNIX_EPOCH).map(|d| d.as_secs()).ok()
}

/// The seconds are those from the epoch to a time of day that the clock answered
/// when it was asked; zero for a time before the epoch.
pub closed spec fn read_from_epoch(seconds: u64) -> bool {
    exists|time: SystemTime, answer: Option<u64>|
        {
            &&& #[trigger] call_ensures(wall_clock, (), time)
            &&& #[trigger] call_ensures(epoch_seconds, (time,), answer)
            &&& seconds == match answer {
                Some(n) => n,
                None => 0,
            }
        }
}

/// Asks a clock for the time of day, and a calendar for its seconds.
fn ask_seconds<C: Fn() -> SystemTime, E: Fn(SystemTime) -> Option<u64>>(clock: C, epoch: E) -> (
    seconds: Option<u64>)
    requires
        call_requires(clock, ()),
        forall|time: SystemTime| #[trigger] call_requires(epoch, (time,)),
    ensures
        exists|time: SystemTime|
            #[trigger] call_ensures(clock, (), time) && call_ensures(epoch, (time,), seconds),
{
    let time: SystemTime = clock();
    epoch(time)
}

/// The seconds since the epoch; zero if the clock is set before it.
pub fn unix_timestamp_now() -> (seconds: u64)
    ensures
        read_from_epoch(seconds),
{
    match ask_seconds(wall_clock, epoch_seconds) {
        Some(seconds) => seconds,
        None => 0,
    }
}

}
