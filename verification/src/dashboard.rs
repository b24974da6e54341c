//! The status of a fuzzing session.
//!
//! All times are nanoseconds since the session began. Each method that reads the
//! clock has a sibling that takes the reading as an argument.
use crate::base64::base64;
pub use crate::base64::base64_encode;
use crate::clock::{
    present, read_from_epoch, read_now, read_since, time_since, unix_timestamp_now,
};
use crate::corpus::CorpusStats;
use crate::coverage_map::{density_of, CoverageStats, COVERAGE_MAP_SIZE};
use crate::ratio::Ratio;
use std::time::Instant;
use vstd::prelude::*;
use vstd::slice::*;
use vstd::string::*;

verus! {

/// Nanoseconds in a second.
pub const NANOS_PER_SECOND: u64 = 1_000_000_000;

/// A snapshot of the status.
#[derive(Debug, Clone)]
pub struct FuzzerStatusSnapshot {
    /// Number of inputs executed.
    pub total_executions: u64,
    /// Executions per second, in the last full window of a second.
    pub executions_per_second: Ratio,
    /// Number of corpus entries.
    pub corpus_size: usize,
    /// Figures of the coverage map.
    pub coverage: CoverageStats,
    /// Figures of the corpus.
    pub corpus_stats: CorpusStats,
    /// Number of unique crashes.
    pub unique_crashes: u64,
    /// Number of crashes, duplicates included.
    pub total_crashes: u64,
    /// Time since new coverage was found, in nanoseconds.
    pub since_new_coverage_ns: u64,
    /// Time until the session ends, in nanoseconds, if it ends.
    pub until_timeout_ns: Option<u64>,
    /// When the session began, in seconds since the epoch.
    pub session_start_unix: u64,
    /// Duration of the session so far, in nanoseconds.
    pub session_duration_ns: u64,
    /// What the fuzzer is doing.
    pub current_stage: String,
    /// The coverage bitmap, in base 64.
    pub coverage_bitmap_b64: String,
}

/// The status of a session.
#[derive(Debug)]
pub struct FuzzerStatus {
    /// Number of inputs executed.
    pub total_executions: u64,
    /// The same in the present window.
    pub executions_this_window: u64,
    /// When the window began.
    pub window_start_ns: u64,
    /// Executions per second, in the last full window.
    pub executions_per_second: Ratio,
    /// Figures of the corpus.
    pub corpus_stats: CorpusStats,
    /// Figures of the coverage map.
    pub coverage_stats: CoverageStats,
    /// Number of unique crashes.
    pub unique_crashes: u64,
    /// Number of crashes, duplicates included.
    pub total_crashes: u64,
    /// When new coverage was found.
    pub last_new_coverage_ns: u64,
    /// When the session began.
    pub session_start: Instant,
    /// When the session began, in seconds since the epoch.
    pub session_start_unix: u64,
    /// When the session ends, if it ends.
    pub timeout_ns: Option<u64>,
    /// What the fuzzer is doing.
    pub current_stage: String,
    /// The coverage bitmap.
    pub coverage_bitmap: Vec<u8>,
}

/// The time from one reading to a later one; zero if it is earlier.
pub open spec fn time_from(start: u64, end: u64) -> u64 {
    if end < start {
        0
    } else {
        (end - start) as u64
    }
}

impl FuzzerStatus {
    /// No more executions are in the window than in the session, and no more
    /// crashes are unique than there are.
    pub open spec fn consistent(self) -> bool {
        &&& self.executions_this_window <= self.total_executions
        &&& self.unique_crashes <= self.total_crashes
    }

    /// Everything but the counters of executions.
    pub open spec fn same_rest(self, other: FuzzerStatus) -> bool {
        &&& self.corpus_stats == other.corpus_stats
        &&& self.coverage_stats == other.coverage_stats
        &&& self.unique_crashes == other.unique_crashes
        &&& self.total_crashes == other.total_crashes
        &&& self.last_new_coverage_ns == other.last_new_coverage_ns
        &&& self.session_start == other.session_start
        &&& self.session_start_unix == other.session_start_unix
        &&& self.timeout_ns == other.timeout_ns
        &&& self.current_stage == other.current_stage
        &&& self.coverage_bitmap == other.coverage_bitmap
    }

    /// The status after an execution, at a time.
    pub open spec fn ticked(self, before: FuzzerStatus, at_ns: u64) -> bool {
        let window = time_from(before.window_start_ns, at_ns);
        &&& self.total_executions == before.total_executions + 1
        &&& window < NANOS_PER_SECOND ==> {
            &&& self.executions_this_window == before.executions_this_window + 1
            &&& self.window_start_ns == before.window_start_ns
            &&& self.executions_per_second == before.executions_per_second
        }
        &&& window >= NANOS_PER_SECOND ==> {
            &&& self.executions_this_window == 0
            &&& self.window_start_ns == at_ns
            &&& self.executions_per_second.numerator == (before.executions_this_window + 1)
                * NANOS_PER_SECOND
            &&& self.executions_per_second.denominator == window
        }
    }

    /// The status of a session in which nothing has happened.
    pub open spec fn fresh(self, timeout_ns: Option<u64>) -> bool {
        &&& self.consistent()
        &&& self.total_executions == 0
        &&& self.executions_this_window == 0
        &&& self.window_start_ns == 0
        &&& self.executions_per_second == (Ratio { numerator: 0, denominator: 1 })
        &&& self.corpus_stats.describes(Seq::empty())
        &&& self.coverage_stats.total_edges == 0
        &&& self.coverage_stats.density == density_of(0)
        &&& self.coverage_stats.interesting_inputs == 0
        &&& self.unique_crashes == 0
        &&& self.total_crashes == 0
        &&& self.last_new_coverage_ns == 0
        &&& read_now(self.session_start)
        &&& read_from_epoch(self.session_start_unix)
        &&& self.timeout_ns == timeout_ns
        &&& self.current_stage@ == "initializing"@
        &&& self.coverage_bitmap@ == Seq::new(COVERAGE_MAP_SIZE as nat, |i: int| 0u8)
    }

    /// The status of a session that begins now.
    pub fn new(timeout_ns: Option<u64>) -> (status: Self)
        ensures
            status.fresh(timeout_ns),
    {
        let bitmap: Vec<u8> = vec![0u8; COVERAGE_MAP_SIZE];
        assert(bitmap@ =~= Seq::new(COVERAGE_MAP_SIZE as nat, |i: int| 0u8));
        FuzzerStatus {
            total_executions: 0,
            executions_this_window: 0,
            window_start_ns: 0,
            executions_per_second: Ratio::zero(),
            corpus_stats: CorpusStats::default(),
            coverage_stats: CoverageStats {
                total_edges: 0,
                density: Ratio { numerator: 0, denominator: COVERAGE_MAP_SIZE as u128 },
                interesting_inputs: 0,
            },
            unique_crashes: 0,
            total_crashes: 0,
            last_new_coverage_ns: 0,
            session_start: present(),
            session_start_unix: unix_timestamp_now(),
            timeout_ns,
            current_stage: String::from_str("initializing"),
            coverage_bitmap: bitmap,
        }
    }

    /// Counts an execution at a time. Once a window has lasted a second, the
    /// rate in it is kept and a new one begins.
    pub fn tick_at(&mut self, at_ns: u64)
        requires
            old(self).total_executions < u64::MAX,
            old(self).executions_this_window < u64::MAX,
        ensures
            final(self).ticked(*old(self), at_ns),
            final(self).same_rest(*old(self)),
            old(self).consistent() ==> final(self).consistent(),
    {
        self.total_executions = self.total_executions + 1;
        let count: u64 = self.executions_this_window + 1;
        let window: u64 = at_ns.saturating_sub(self.window_start_ns);
        if window >= NANOS_PER_SECOND {
            self.executions_per_second = Ratio {
                numerator: count as u128 * 1_000_000_000,
                denominator: window as u128,
            };
            self.executions_this_window = 0;
            self.window_start_ns = at_ns;
        } else {
            self.executions_this_window = count;
        }
    }

    /// Counts an execution.
    pub fn tick(&mut self)
        requires
            old(self).total_executions < u64::MAX,
            old(self).executions_this_window < u64::MAX,
        ensures
            exists|at_ns: u64|
                {
                    &&& #[trigger] read_since(old(self).session_start, at_ns)
                    &&& final(self).ticked(*old(self), at_ns)
                },
            final(self).same_rest(*old(self)),
            old(self).consistent() ==> final(self).consistent(),
    {
        let at_ns: u64 = time_since(&self.session_start);
        self.tick_at(at_ns);
    }

    /// Notes that new coverage was found at a time.
    pub fn record_new_coverage_at(&mut self, at_ns: u64)
        ensures
            *final(self) == (FuzzerStatus { last_new_coverage_ns: at_ns, ..*old(self) }),
    {
        self.last_new_coverage_ns = at_ns;
    }

    /// Notes that new coverage was found: the time since the session began, as the
    /// clock tells it.
    pub fn record_new_coverage(&mut self)
        ensures
            read_since(old(self).session_start, final(self).last_new_coverage_ns),
            *final(self) == (FuzzerStatus {
                last_new_coverage_ns: final(self).last_new_coverage_ns,
                ..*old(self)
            }),
    {
        let at_ns: u64 = time_since(&self.session_start);
        self.record_new_coverage_at(at_ns);
    }

    /// The snapshot shows the status at a time.
    pub open spec fn shown_by(self, at_ns: u64, snapshot: FuzzerStatusSnapshot) -> bool {
        &&& snapshot.total_executions == self.total_executions
        &&& snapshot.executions_per_second == self.executions_per_second
        &&& snapshot.corpus_size == self.corpus_stats.size
        &&& snapshot.coverage == self.coverage_stats
        &&& snapshot.corpus_stats == self.corpus_stats
        &&& snapshot.unique_crashes == self.unique_crashes
        &&& snapshot.total_crashes == self.total_crashes
        &&& snapshot.since_new_coverage_ns == time_from(self.last_new_coverage_ns, at_ns)
        &&& snapshot.until_timeout_ns == match self.timeout_ns {
            Some(end) => Some(time_from(at_ns, end)),
            None => None,
        }
        &&& snapshot.session_start_unix == self.session_start_unix
        &&& snapshot.session_duration_ns == at_ns
        &&& snapshot.current_stage@ == self.current_stage@
        &&& snapshot.coverage_bitmap_b64@ == base64(self.coverage_bitmap@)
    }

    /// A snapshot of the status at a time.
    pub fn snapshot_at(&self, at_ns: u64) -> (snapshot: FuzzerStatusSnapshot)
        ensures
            self.shown_by(at_ns, snapshot),
    {
        FuzzerStatusSnapshot {
            total_executions: self.total_executions,
            executions_per_second: self.executions_per_second,
            corpus_size: self.corpus_stats.size,
            coverage: self.coverage_stats,
            corpus_stats: self.corpus_stats,
            unique_crashes: self.unique_crashes,
            total_crashes: self.total_crashes,
            since_new_coverage_ns: at_ns.saturating_sub(self.last_new_coverage_ns),
            until_timeout_ns: match self.timeout_ns {
                Some(end) => Some(end.saturating_sub(at_ns)),
                None => None,
            },
            session_start_unix: self.session_start_unix,
            session_duration_ns: at_ns,
            current_stage: self.current_stage.clone(),
            coverage_bitmap_b64: base64_encode(self.coverage_bitmap.as_slice()),
        }
    }

    /// A snapshot of the status.
    pub fn snapshot(&self) -> (snapshot: FuzzerStatusSnapshot)
        ensures
            read_since(self.session_start, snapshot.session_duration_ns),
            self.shown_by(snapshot.session_duration_ns, snapshot),
    {
        self.snapshot_at(time_since(&self.session_start))
    }
}

/// The dashboard: the status of a session, as the fuzzer updates it.
#[derive(Debug)]
pub struct FuzzerDashboard {
    /// The status.
    pub status: FuzzerStatus,
}

impl FuzzerDashboard {
    /// The dashboard of a session that begins now.
    pub fn new(timeout_ns: Option<u64>) -> (dashboard: Self)
        ensures
            dashboard.status.fresh(timeout_ns),
    {
        FuzzerDashboard { status: FuzzerStatus::new(timeout_ns) }
    }

    /// A snapshot of the status.
    pub fn snapshot(&self) -> (snapshot: FuzzerStatusSnapshot)
        ensures
            read_since(self.status.session_start, snapshot.session_duration_ns),
            self.status.shown_by(snapshot.session_duration_ns, snapshot),
    {
        self.status.snapshot()
    }

    /// Counts an execution.
    pub fn tick(&mut self)
        requires
            old(self).status.total_executions < u64::MAX,
            old(self).status.executions_this_window < u64::MAX,
        ensures
            exists|at_ns: u64|
                {
                    &&& #[trigger] read_since(old(self).status.session_start, at_ns)
                    &&& final(self).status.ticked(old(self).status, at_ns)
                },
            final(self).status.same_rest(old(self).status),
            final(self).status.total_executions == old(self).status.total_executions + 1,
            final(self).status.executions_this_window <= old(self).status.executions_this_window
                + 1,
            old(self).status.consistent() ==> final(self).status.consistent(),
    {
        self.status.tick();
    }

    /// Sets what the fuzzer is doing.
    pub fn set_stage(&mut self, stage: &str)
        ensures
            final(self).status == (FuzzerStatus {
                current_stage: final(self).status.current_stage,
                ..old(self).status
            }),
            final(self).status.current_stage@ == stage@,
    {
        self.status.current_stage = String::from_str(stage);
    }

    /// Notes that new coverage was found: the time since the session began, as the
    /// clock tells it.
    pub fn record_new_coverage(&mut self)
        ensures
            read_since(
                old(self).status.session_start,
                final(self).status.last_new_coverage_ns,
            ),
            final(self).status == (FuzzerStatus {
                last_new_coverage_ns: final(self).status.last_new_coverage_ns,
                ..old(self).status
            }),
    {
        self.status.record_new_coverage();
    }

    /// Counts a crash.
    pub fn record_crash(&mut self, unique: bool)
        requires
            old(self).status.total_crashes < u64::MAX,
            old(self).status.unique_crashes < u64::MAX,
        ensures
            final(self).status == (FuzzerStatus {
                total_crashes: (old(self).status.total_crashes + 1) as u64,
                unique_crashes: if unique {
                    (old(self).status.unique_crashes + 1) as u64
                } else {
                    old(self).status.unique_crashes
                },
                ..old(self).status
            }),
            final(self).status.total_crashes == old(self).status.total_crashes + 1,
            final(self).status.unique_crashes == old(self).status.unique_crashes + (if unique {
                1int
            } else {
                0
            }),
            old(self).status.consistent() ==> final(self).status.consistent(),
    {
        self.status.total_crashes = self.status.total_crashes + 1;
        if unique {
            self.status.unique_crashes = self.status.unique_crashes + 1;
        }
    }

    /// Sets the figures of the coverage map and its bitmap.
    pub fn update_coverage(&mut self, coverage_stats: CoverageStats, bitmap: Vec<u8>)
        ensures
            final(self).status == (FuzzerStatus {
                coverage_stats,
                coverage_bitmap: bitmap,
                ..old(self).status
            }),
    {
        self.status.coverage_stats = coverage_stats;
        self.status.coverage_bitmap = bitmap;
    }

    /// Sets the figures of the corpus.
    pub fn update_corpus_stats(&mut self, stats: CorpusStats)
        ensures
            final(self).status == (FuzzerStatus { corpus_stats: stats, ..old(self).status }),
    {
        self.status.corpus_stats = stats;
    }
}

/// Executions are counted one by one; once a second has gone by since the window
/// began, the rate is that of the executions in it over the time that it took, and a
/// new window begins. Until then the rate stays.
pub proof fn rates_are_executions_over_time(
    before: FuzzerStatus,
    after: FuzzerStatus,
    at_ns: u64,
)
    requires
        after.ticked(before, at_ns),
        before.window_start_ns <= at_ns,
    ensures
        after.total_executions == before.total_executions + 1,
        at_ns - before.window_start_ns >= 1_000_000_000 ==> {
            &&& after.executions_per_second.numerator * (at_ns - before.window_start_ns) == (
            before.executions_this_window + 1) * 1_000_000_000
                * after.executions_per_second.denominator
            &&& after.window_start_ns == at_ns
            &&& after.executions_this_window == 0
        },
        at_ns - before.window_start_ns < 1_000_000_000 ==> {
            &&& after.executions_per_second == before.executions_per_second
            &&& after.window_start_ns == before.window_start_ns
            &&& after.executions_this_window == before.executions_this_window + 1
        },
{
}

/// A snapshot tells the time since the session began, of which the time up to the last
/// new coverage and the time since then are the parts, and the time that is left.
pub proof fn snapshots_tell_the_times(
    status: FuzzerStatus,
    at_ns: u64,
    snapshot: FuzzerStatusSnapshot,
)
    requires
        status.shown_by(at_ns, snapshot),
    ensures
        snapshot.session_duration_ns == at_ns,
        status.last_new_coverage_ns <= at_ns ==> status.last_new_coverage_ns
            + snapshot.since_new_coverage_ns == snapshot.session_duration_ns,
        snapshot.until_timeout_ns is None <==> status.timeout_ns is None,
        status.timeout_ns matches Some(end) ==> (snapshot.until_timeout_ns matches Some(left) && (
        if at_ns <= end {
            at_ns + left == end
        } else {
            left == 0
        })),
        snapshot.total_executions == status.total_executions,
        snapshot.unique_crashes == status.unique_crashes,
        snapshot.total_crashes == status.total_crashes,
        snapshot.corpus_size == status.corpus_stats.size,
{
}

}
