//! Crash triage: normalising, fingerprinting and grouping crashes, and
//! shrinking the inputs that cause them.
//!
//! Crashes are grouped by the fingerprint of their normalised error text; only
//! the first crash of a group is reported, with a minimised input.
use crate::delta_debug::{answers, askable, minimise, minimised, stage, Budget};
use crate::normalise::{normalise_error, normalised};
use crate::sums::{
    keys_total, keys_total_bound, map_total, map_total_insert, walk_is_distinct, walked_keys,
};
use crate::text::{hex16, hex_digits, hex_digits_injective, hex_digits_shape};
use std::collections::hash_map::DefaultHasher;
use std::collections::HashMap;
use std::hash::Hasher;
use vstd::prelude::*;
use vstd::slice::*;
use vstd::std_specs::hash::*;
use vstd::std_specs::iter::IteratorSpec;
use vstd::string::*;

verus! {

/// What is known when a crash is detected.
#[derive(Debug, Clone)]
pub struct CrashInfo {
    /// The input that triggered the crash.
    pub input: Vec<u8>,
    /// Error text returned by the host.
    pub error_text: String,
    /// Execution time before the crash, in nanoseconds.
    pub execution_time_ns: u64,
    /// Human-readable label, such as the function that was called.
    pub label: Option<String>,
}

/// A deduplicated, minimised crash report.
#[derive(Debug)]
pub struct CrashReport {
    /// Fingerprint of the normalised error.
    pub fingerprint: String,
    /// Minimal reproducing input.
    pub minimal_input: Vec<u8>,
    /// Input before minimisation.
    pub original_input: Vec<u8>,
    /// Normalised error text, from which the fingerprint is derived.
    pub normalised_error: String,
    /// Raw error text.
    pub raw_error: String,
    /// Number of bytes saved by minimisation.
    pub bytes_saved: usize,
    /// Optional function label.
    pub label: Option<String>,
}

/// A group of crashes with one fingerprint.
#[derive(Debug, Clone)]
pub struct CrashGroup {
    /// The shared fingerprint.
    pub fingerprint: String,
    /// The report of the first crash of the group.
    pub canonical: CrashReport,
    /// Number of inputs that triggered this crash.
    pub occurrence_count: u64,
}

/// Limits of the triage engine.
#[derive(Debug, Clone, Copy, PartialEq, Eq)]
pub struct CrashTriageConfig {
    /// Maximum number of delta-debugging trials.
    pub max_minimise_iters: usize,
    /// Input length below which minimisation stops.
    pub min_input_bytes: usize,
}

impl Default for CrashTriageConfig {
    fn default() -> (config: Self)
        ensures
            config.max_minimise_iters == 256,
            config.min_input_bytes == 1,
    {
        CrashTriageConfig { max_minimise_iters: 256, min_input_bytes: 1 }
    }
}

impl CrashTriageConfig {
    /// The trial budget that the limits stand for.
    pub open spec fn budget(self) -> Budget {
        Budget { max_trials: self.max_minimise_iters, min_bytes: self.min_input_bytes }
    }
}

/// The text of an optional label.
pub open spec fn label_view(label: Option<String>) -> Option<Seq<char>> {
    match label {
        Some(text) => Some(text@),
        None => None,
    }
}

/// A copy of an optional label.
pub fn copy_label(label: &Option<String>) -> (copy: Option<String>)
    ensures
        label_view(copy) == label_view(*label),
{
    match label {
        Some(text) => Some(text.clone()),
        None => None,
    }
}

/// A copy of some bytes.
fn copy_bytes(bytes: &Vec<u8>) -> (copy: Vec<u8>)
    ensures
        copy@ == bytes@,
{
    slice_to_vec(bytes.as_slice())
}

impl CrashReport {
    /// The two reports hold the same.
    pub open spec fn same(self, other: CrashReport) -> bool {
        &&& self.fingerprint@ == other.fingerprint@
        &&& self.minimal_input@ == other.minimal_input@
        &&& self.original_input@ == other.original_input@
        &&& self.normalised_error@ == other.normalised_error@
        &&& self.raw_error@ == other.raw_error@
        &&& self.bytes_saved == other.bytes_saved
        &&& label_view(self.label) == label_view(other.label)
    }

    /// The report says of a crash what it should, whatever minimisation made of
    /// its input.
    pub open spec fn describes(
        self,
        input: Seq<u8>,
        error: Seq<char>,
        label: Option<Seq<char>>,
    ) -> bool {
        &&& self.fingerprint@ == fingerprint(normalised(error))
        &&& self.original_input@ == input
        &&& self.normalised_error@ == normalised(error)
        &&& self.raw_error@ == error
        &&& self.minimal_input@.len() + self.bytes_saved == input.len()
        &&& label_view(self.label) == label
    }
}

impl CrashGroup {
    /// The group is that of a hash: its canonical report describes a crash whose
    /// normalised error text has that hash, its fingerprint is that of the report,
    /// and it has occurred.
    pub open spec fn stands_for(self, hash: u64) -> bool {
        &&& self.canonical.describes(
            self.canonical.original_input@,
            self.canonical.raw_error@,
            label_view(self.canonical.label),
        )
        &&& text_hash(self.canonical.normalised_error@) == hash
        &&& self.fingerprint@ == self.canonical.fingerprint@
        &&& self.occurrence_count >= 1
    }
}

/// What taking in a crash does to the groups. A crash whose fingerprint is known
/// is counted; the first one with its fingerprint is reported and makes a group.
pub open spec fn took_in(
    before: Map<u64, CrashGroup>,
    after: Map<u64, CrashGroup>,
    input: Seq<u8>,
    error: Seq<char>,
    label: Option<Seq<char>>,
    report: Option<CrashReport>,
) -> bool {
    let hash = text_hash(normalised(error));
    &&& after == before.insert(hash, after[hash])
    &&& match report {
        None => {
            &&& before.contains_key(hash)
            &&& after[hash].fingerprint == before[hash].fingerprint
            &&& after[hash].canonical == before[hash].canonical
            &&& after[hash].occurrence_count == before[hash].occurrence_count + 1
        },
        Some(r) => {
            &&& !before.contains_key(hash)
            &&& after[hash].fingerprint@ == r.fingerprint@
            &&& after[hash].canonical.same(r)
            &&& after[hash].occurrence_count == 1
            &&& r.describes(input, error, label)
        },
    }
}

impl Clone for CrashReport {
    fn clone(&self) -> (copy: Self)
        ensures
            copy.same(*self),
    {
        CrashReport {
            fingerprint: self.fingerprint.clone(),
            minimal_input: copy_bytes(&self.minimal_input),
            original_input: copy_bytes(&self.original_input),
            normalised_error: self.normalised_error.clone(),
            raw_error: self.raw_error.clone(),
            bytes_saved: self.bytes_saved,
            label: copy_label(&self.label),
        }
    }
}

/// The hash of a text: that of its bytes and the closing byte `0xff`.
pub open spec fn text_hash(text: Seq<char>) -> u64 {
    DefaultHasher::spec_finish(
        Seq::<Seq<u8>>::empty().push(vstd::utf8::encode_utf8(text)).push(seq![0xffu8]),
    )
}

/// The fingerprint of a normalised text: its hash, as sixteen hexadecimal
/// digits.
pub open spec fn fingerprint(text: Seq<char>) -> Seq<char> {
    hex_digits(text_hash(text) as nat, 16)
}

/// Hashes a normalised error text.
pub fn hash_text(normalised: &str) -> (hash: u64)
    ensures
        hash == text_hash(normalised@),
{
    let mut hasher: DefaultHasher = DefaultHasher::new();
    hasher.write(normalised.as_bytes());
    let close: Vec<u8> = vec![0xffu8];
    assert(close@ =~= seq![0xffu8]);
    hasher.write(close.as_slice());
    hasher.finish()
}

/// The fingerprint of a normalised error text.
pub fn compute_fingerprint(normalised: &str) -> (text: String)
    ensures
        text@ == fingerprint(normalised@),
{
    hex16(hash_text(normalised))
}

/// Fingerprints are equal exactly when the hashes are.
pub proof fn fingerprint_is_the_hash(a: Seq<char>, b: Seq<char>)
    ensures
        fingerprint(a) == fingerprint(b) <==> text_hash(a) == text_hash(b),
{
    if fingerprint(a) == fingerprint(b) {
        assert(vstd::arithmetic::power::pow(16, 16) == 0x1_0000_0000_0000_0000) by {
            reveal_with_fuel(vstd::arithmetic::power::pow, 17);
        }
        hex_digits_injective(text_hash(a) as nat, text_hash(b) as nat, 16);
    }
}

/// A fingerprint has sixteen characters, each a decimal digit or a letter from
/// `a` to `f`.
pub proof fn fingerprint_shape(text: Seq<char>)
    ensures
        fingerprint(text).len() == 16,
        forall|i: int|
            0 <= i < 16 ==> {
                let c = #[trigger] fingerprint(text)[i];
                '0' <= c <= '9' || 'a' <= c <= 'f'
            },
{
    hex_digits_shape(text_hash(text) as nat, 16);
}

/// The number of occurrences in a group.
pub open spec fn occurrences() -> spec_fn(CrashGroup) -> nat {
    |g: CrashGroup| g.occurrence_count as nat
}

/// The sum of the occurrences in some groups.
pub open spec fn occurrence_sum(groups: Seq<&CrashGroup>) -> nat
    decreases groups.len(),
{
    if groups.len() == 0 {
        0
    } else {
        occurrence_sum(groups.drop_last()) + groups.last().occurrence_count as nat
    }
}

proof fn groups_sum(m: Map<u64, CrashGroup>, pairs: Seq<(&u64, &CrashGroup)>, groups: Seq<&CrashGroup>)
    requires
        groups.len() <= pairs.len(),
        forall|i: int| 0 <= i < groups.len() ==> #[trigger] groups[i] == pairs[i].1,
        forall|i: int| 0 <= i < pairs.len() ==> m[*(#[trigger] pairs[i]).0] == *pairs[i].1,
    ensures
        occurrence_sum(groups) == keys_total(
            m,
            walked_keys(pairs, groups.len() as int),
            occurrences(),
        ),
    decreases groups.len(),
{
    if groups.len() > 0 {
        let n = groups.len() as int;
        let keys = walked_keys(pairs, n);
        assert(keys.drop_last() =~= walked_keys(pairs, n - 1));
        assert(keys.last() == *pairs[n - 1].0);
        groups_sum(m, pairs, groups.drop_last());
    }
}

/// The crash triage engine.
pub struct CrashTriageEngine {
    config: CrashTriageConfig,
    groups: HashMap<u64, CrashGroup>,
}

impl View for CrashTriageEngine {
    /// The groups by the hash of their normalised error text.
    type V = Map<u64, CrashGroup>;

    closed spec fn view(&self) -> Map<u64, CrashGroup> {
        self.groups@
    }
}

impl CrashTriageEngine {
    /// The limits it was made with.
    pub closed spec fn limits(self) -> CrashTriageConfig {
        self.config
    }

    /// All crashes seen.
    pub open spec fn crashes(self) -> nat {
        map_total(self@, occurrences())
    }

    /// Each group stands for its hash, and the crashes can be counted.
    pub open spec fn wf(self) -> bool {
        &&& self@.dom().finite()
        &&& forall|h: u64| #[trigger] self@.contains_key(h) ==> self@[h].stands_for(h)
        &&& self.crashes() <= u64::MAX
    }

    /// An engine without crashes.
    pub fn new(config: CrashTriageConfig) -> (engine: Self)
        ensures
            engine.wf(),
            engine.limits() == config,
            engine@ == Map::<u64, CrashGroup>::empty(),
            engine.crashes() == 0,
    {
        CrashTriageEngine { config, groups: HashMap::new() }
    }

    /// Takes in a crash. The first one with its fingerprint is reported, with
    /// its input minimised by asking `reproduces` about shorter parts of it; a
    /// later one is counted, and nothing is asked.
    pub fn process<F: FnMut(&[u8]) -> bool>(&mut self, info: CrashInfo, reproduces: F) -> (report:
        Option<CrashReport>)
        requires
            old(self).wf(),
            old(self).crashes() < u64::MAX,
            !old(self)@.contains_key(text_hash(normalised(info.error_text@))) ==> askable(
                reproduces,
                info.input@,
                old(self).limits().budget(),
            ),
        ensures
            final(self).wf(),
            final(self).limits() == old(self).limits(),
            final(self).crashes() == old(self).crashes() + 1,
            took_in(
                old(self)@,
                final(self)@,
                info.input@,
                info.error_text@,
                label_view(info.label),
                report,
            ),
            report matches Some(r) ==> stage(
                reproduces,
                info.input@,
                r.minimal_input@,
                old(self).limits().budget(),
            ),
            report matches Some(r) ==> forall|p: spec_fn(Seq<u8>) -> bool| #[trigger]
                answers(reproduces, p) ==> r.minimal_input@ == minimised(
                    info.input@,
                    p,
                    old(self).limits().budget(),
                ),
            final(self)@.dom().len() == old(self)@.dom().len() + (if report is Some {
                1int
            } else {
                0
            }),
    {
        let mut reproduces = reproduces;
        let normal: String = normalise_error(info.error_text.as_str());
        let hash: u64 = hash_text(normal.as_str());
        let ghost weight = occurrences();
        let known: Option<CrashGroup> = self.groups.remove(&hash);
        match known {
            Some(group) => {
                proof {
                    let keys = seq![hash];
                    assert(keys_total(old(self)@, keys, weight) == weight(old(self)@[hash])) by {
                        assert(keys.drop_last() =~= Seq::<u64>::empty());
                        reveal_with_fuel(keys_total, 2);
                    }
                    keys_total_bound(old(self)@, keys, weight);
                }
                let counted: CrashGroup = CrashGroup {
                    fingerprint: group.fingerprint,
                    canonical: group.canonical,
                    occurrence_count: group.occurrence_count + 1,
                };
                proof {
                    map_total_insert(old(self)@, weight, hash, counted);
                }
                self.groups.insert(hash, counted);
                assert(self@ =~= old(self)@.insert(hash, counted));
                None
            },
            None => {
                assert(self@ =~= old(self)@);
                let minimal: Vec<u8> = self.delta_debug(info.input.as_slice(), &mut reproduces);
                let report: CrashReport = CrashReport {
                    fingerprint: hex16(hash),
                    bytes_saved: info.input.len() - minimal.len(),
                    minimal_input: minimal,
                    original_input: copy_bytes(&info.input),
                    normalised_error: normal,
                    raw_error: info.error_text.clone(),
                    label: copy_label(&info.label),
                };
                let group: CrashGroup = CrashGroup {
                    fingerprint: report.fingerprint.clone(),
                    canonical: report.clone(),
                    occurrence_count: 1,
                };
                proof {
                    map_total_insert(old(self)@, weight, hash, group);
                }
                self.groups.insert(hash, group);
                assert(self@ =~= old(self)@.insert(hash, group));
                Some(report)
            },
        }
    }

    /// Shrinks a crashing input within the limits of the engine.
    pub fn delta_debug<F: FnMut(&[u8]) -> bool>(&self, input: &[u8], reproduces: &mut F) -> (result:
        Vec<u8>)
        requires
            askable(*old(reproduces), input@, self.limits().budget()),
        ensures
            *final(reproduces) == *old(reproduces),
            result@.len() <= input@.len(),
            stage(*old(reproduces), input@, result@, self.limits().budget()),
            self.limits().max_minimise_iters == 0 ==> result@ == input@,
            forall|p: spec_fn(Seq<u8>) -> bool| #[trigger]
                answers(*old(reproduces), p) ==> result@ == minimised(
                    input@,
                    p,
                    self.limits().budget(),
                ),
    {
        let budget: Budget = Budget {
            max_trials: self.config.max_minimise_iters,
            min_bytes: self.config.min_input_bytes,
        };
        minimise(input, reproduces, budget)
    }

    /// All crash groups, in no particular order. Each stands for the hash of its
    /// error text, no two share a fingerprint, and together they count all crashes.
    pub fn groups(&self) -> (all: Vec<&CrashGroup>)
        requires
            self.wf(),
        ensures
            all@.len() == self@.dom().len(),
            forall|i: int| 0 <= i < all@.len() ==> self@.values().contains(*#[trigger] all@[i]),
            forall|h: u64| #[trigger] self@.contains_key(h) ==> exists|i: int|
                0 <= i < all@.len() && *#[trigger] all@[i] == self@[h],
            forall|i: int|
                0 <= i < all@.len() ==> (#[trigger] all@[i]).stands_for(
                    text_hash(all@[i].canonical.normalised_error@),
                ),
            forall|i: int, j: int|
                0 <= i < j < all@.len() ==> (#[trigger] all@[i]).fingerprint@ != (
                #[trigger] all@[j]).fingerprint@,
            occurrence_sum(all@) == self.crashes(),
    {
        let mut all: Vec<&CrashGroup> = Vec::new();
        for pair in iter: self.groups.iter()
            invariant
                iter.seq() == spec_hash_map_iter(&self.groups).remaining(),
                all@.len() == iter.index(),
                forall|i: int| 0 <= i < all@.len() ==> #[trigger] all@[i] == iter.seq()[i].1,
        {
            all.push(pair.1);
        }
        proof {
            let pairs = spec_hash_map_iter(&self.groups).remaining();
            assert forall|i: int| 0 <= i < all@.len() implies self@.values().contains(
                *#[trigger] all@[i],
            ) by {
                assert(self@.contains_key(*pairs[i].0));
                assert(self@[*pairs[i].0] == *all@[i]);
            }
            assert forall|h: u64| #[trigger] self@.contains_key(h) implies exists|i: int|
                0 <= i < all@.len() && *#[trigger] all@[i] == self@[h] by {
                assert(self.groups@.contains_key(h));
                assert(pairs.contains((&h, &self.groups@[h])));
                let i = choose|i: int| 0 <= i < pairs.len() && pairs[i] == (&h, &self.groups@[h]);
                assert(*all@[i] == self@[h]);
            }
            let n = all@.len() as int;
            let keys = walked_keys(pairs, n);
            assert forall|i: int| 0 <= i < pairs.len() implies self@.contains_key(
                *(#[trigger] pairs[i]).0,
            ) && self@[*pairs[i].0] == *pairs[i].1 by {
                assert(self.groups@.contains_key(*pairs[i].0));
            }
            walk_is_distinct(self@, pairs, n);
            groups_sum(self@, pairs, all@);
            keys_total_bound(self@, keys, occurrences());
            assert forall|i: int, j: int| 0 <= i < j < n implies (
            #[trigger] all@[i]).fingerprint@ != (#[trigger] all@[j]).fingerprint@ by {
                assert(keys[i] != keys[j]);
                assert(all@[i].stands_for(*pairs[i].0) && all@[j].stands_for(*pairs[j].0));
                fingerprint_is_the_hash(
                    all@[i].canonical.normalised_error@,
                    all@[j].canonical.normalised_error@,
                );
            }
        }
        all
    }

    /// Number of distinct fingerprints seen.
    pub fn unique_crash_count(&self) -> (count: usize)
        ensures
            count == self@.dom().len(),
    {
        self.groups.len()
    }

    /// Number of crashes seen, duplicates included.
    pub fn total_crash_count(&self) -> (count: u64)
        requires
            self.wf(),
        ensures
            count == self.crashes(),
    {
        let mut count: u64 = 0;
        let ghost weight = occurrences();
        let ghost pairs = spec_hash_map_iter(&self.groups).remaining();
        for pair in iter: self.groups.iter()
            invariant
                self.wf(),
                weight == occurrences(),
                pairs == spec_hash_map_iter(&self.groups).remaining(),
                iter.seq() == pairs,
                pairs.no_duplicates(),
                count == keys_total(self@, walked_keys(pairs, iter.index() as int), weight),
        {
            proof {
                let n = iter.index() as int;
                assert forall|i: int| 0 <= i < pairs.len() implies self@.contains_key(
                    *(#[trigger] pairs[i]).0,
                ) && self@[*pairs[i].0] == *pairs[i].1 by {
                    assert(self.groups@.contains_key(*pairs[i].0));
                }
                walk_is_distinct(self@, pairs, n + 1);
                let keys = walked_keys(pairs, n + 1);
                assert(keys.drop_last() =~= walked_keys(pairs, n));
                assert(keys.last() == *pairs[n].0);
                keys_total_bound(self@, keys, weight);
            }
            count = count + pair.1.occurrence_count;
        }
        proof {
            assert forall|i: int| 0 <= i < pairs.len() implies self@.contains_key(
                *(#[trigger] pairs[i]).0,
            ) && self@[*pairs[i].0] == *pairs[i].1 by {
                assert(self.groups@.contains_key(*pairs[i].0));
            }
            walk_is_distinct(self@, pairs, pairs.len() as int);
            keys_total_bound(self@, walked_keys(pairs, pairs.len() as int), weight);
        }
        count
    }
}

/// A crash with the fingerprint of an earlier one is not reported again: whatever
/// was taken in before, a second crash with the same normalised error gives no
/// report and leaves the number of groups as it is.
pub proof fn duplicates_are_suppressed(
    first: Map<u64, CrashGroup>,
    second: Map<u64, CrashGroup>,
    third: Map<u64, CrashGroup>,
    input: Seq<u8>,
    error: Seq<char>,
    label: Option<Seq<char>>,
    report: Option<CrashReport>,
    other_input: Seq<u8>,
    other_error: Seq<char>,
    other_label: Option<Seq<char>>,
    other_report: Option<CrashReport>,
)
    requires
        took_in(first, second, input, error, label, report),
        took_in(second, third, other_input, other_error, other_label, other_report),
        normalised(error) == normalised(other_error),
    ensures
        other_report is None,
        third.dom() == second.dom(),
        third[text_hash(normalised(error))].canonical == second[text_hash(
            normalised(error),
        )].canonical,
{
    let hash = text_hash(normalised(error));
    assert(second.contains_key(hash));
    assert(third.dom() =~= second.dom());
}

proof fn one_each(m: Map<u64, CrashGroup>)
    requires
        m.dom().finite(),
        forall|h: u64| #[trigger] m.contains_key(h) ==> m[h].occurrence_count >= 1,
    ensures
        m.dom().len() <= map_total(m, occurrences()),
    decreases m.dom().len(),
{
    if m.dom().len() > 0 {
        let k = m.dom().choose();
        assert(m.dom().contains(k));
        assert(m.contains_key(k));
        let rest = m.remove(k);
        assert(rest.dom() =~= m.dom().remove(k));
        assert forall|h: u64| #[trigger] rest.contains_key(h) implies rest[h].occurrence_count >= 1 by {
            assert(m.contains_key(h));
        }
        one_each(rest);
    }
}

/// There are no more unique crashes than crashes.
pub proof fn unique_within_total(engine: CrashTriageEngine)
    requires
        engine.wf(),
    ensures
        engine@.dom().len() <= engine.crashes(),
{
    one_each(engine@);
}

/// A crash that was taken in, and the report that came of it.
pub struct Intake {
    /// The input.
    pub input: Seq<u8>,
    /// The error text.
    pub error: Seq<char>,
    /// The label.
    pub label: Option<Seq<char>>,
    /// The report, if the crash was the first of its kind.
    pub report: Option<CrashReport>,
}

/// The groups of an engine from its begin on, with the crashes taken in one after
/// the other.
pub open spec fn is_intake(states: Seq<Map<u64, CrashGroup>>, calls: Seq<Intake>) -> bool {
    &&& states.len() == calls.len() + 1
    &&& states[0] == Map::<u64, CrashGroup>::empty()
    &&& forall|i: int|
        0 <= i < calls.len() ==> took_in(
            states[i],
            states[i + 1],
            (#[trigger] calls[i]).input,
            calls[i].error,
            calls[i].label,
            calls[i].report,
        )
}

/// How many of the crashes were reported.
pub open spec fn report_count(calls: Seq<Intake>) -> nat
    decreases calls.len(),
{
    if calls.len() == 0 {
        0
    } else {
        report_count(calls.drop_last()) + (if calls.last().report is Some {
            1nat
        } else {
            0
        })
    }
}

/// How many of the crashes have a hash.
pub open spec fn hit_count(calls: Seq<Intake>, hash: u64) -> nat
    decreases calls.len(),
{
    if calls.len() == 0 {
        0
    } else {
        hit_count(calls.drop_last(), hash) + (if text_hash(normalised(calls.last().error))
            == hash {
            1nat
        } else {
            0
        })
    }
}

/// An engine that has taken in some crashes has counted all of them, has a group
/// for each one that it reported, and each group counts the crashes with its
/// hash.
pub proof fn intake_is_counted(states: Seq<Map<u64, CrashGroup>>, calls: Seq<Intake>)
    requires
        is_intake(states, calls),
    ensures
        states.last().dom().finite(),
        map_total(states.last(), occurrences()) == calls.len(),
        states.last().dom().len() == report_count(calls),
        forall|h: u64| #[trigger]
            states.last().contains_key(h) <==> hit_count(calls, h) > 0,
        forall|h: u64| #[trigger]
            states.last().contains_key(h) ==> states.last()[h].occurrence_count == hit_count(
                calls,
                h,
            ),
    decreases calls.len(),
{
    if calls.len() > 0 {
        let n = calls.len() - 1;
        let call = calls[n];
        let earlier = states.drop_last();
        let before = states[n];
        let after = states[n + 1];
        assert forall|i: int| 0 <= i < n implies took_in(
            earlier[i],
            earlier[i + 1],
            (#[trigger] calls.drop_last()[i]).input,
            calls.drop_last()[i].error,
            calls.drop_last()[i].label,
            calls.drop_last()[i].report,
        ) by {
            assert(calls.drop_last()[i] == calls[i]);
        }
        intake_is_counted(earlier, calls.drop_last());
        assert(earlier.last() == before);
        assert(states.last() == after);
        let hash = text_hash(normalised(call.error));
        assert(took_in(before, after, call.input, call.error, call.label, call.report));
        map_total_insert(before, occurrences(), hash, after[hash]);
        assert(after.dom() =~= before.dom().insert(hash));
        assert forall|h: u64| #[trigger]
            after.contains_key(h) <==> hit_count(calls, h) > 0 by {
            assert(before.contains_key(h) <==> hit_count(calls.drop_last(), h) > 0);
        }
        assert forall|h: u64| #[trigger] after.contains_key(h) implies after[h].occurrence_count
            == hit_count(calls, h) by {
            assert(before.contains_key(h) <==> hit_count(calls.drop_last(), h) > 0);
        }
    }
}

/// Of all crashes taken in, exactly the first with its hash is reported.
pub proof fn the_first_of_its_kind_is_reported(
    states: Seq<Map<u64, CrashGroup>>,
    calls: Seq<Intake>,
    i: int,
)
    requires
        is_intake(states, calls),
        0 <= i < calls.len(),
    ensures
        (calls[i].report is Some) <==> forall|j: int|
            0 <= j < i ==> text_hash(normalised((#[trigger] calls[j]).error)) != text_hash(
                normalised(calls[i].error),
            ),
{
    let before = calls.take(i);
    let earlier = states.take(i + 1);
    assert(is_intake(earlier, before)) by {
        assert forall|j: int| 0 <= j < before.len() implies took_in(
            earlier[j],
            earlier[j + 1],
            (#[trigger] before[j]).input,
            before[j].error,
            before[j].label,
            before[j].report,
        ) by {
            assert(before[j] == calls[j]);
        }
    }
    intake_is_counted(earlier, before);
    let hash = text_hash(normalised(calls[i].error));
    assert(earlier.last() == states[i]);
    hits_are_found(before, hash);
    assert forall|j: int| 0 <= j < i implies #[trigger] before[j] == calls[j] by {}
    assert(took_in(
        states[i],
        states[i + 1],
        calls[i].input,
        calls[i].error,
        calls[i].label,
        calls[i].report,
    ));
    if calls[i].report is None {
        assert(states[i].contains_key(hash));
        let j = choose|j: int|
            0 <= j < before.len() && text_hash(normalised((#[trigger] before[j]).error)) == hash;
        assert(calls[j] == before[j]);
    } else {
        assert(!earlier.last().contains_key(hash));
        assert forall|j: int| 0 <= j < i implies text_hash(
            normalised((#[trigger] calls[j]).error),
        ) != hash by {
            assert(before[j] == calls[j]);
        }
    }
}

proof fn hits_are_found(calls: Seq<Intake>, hash: u64)
    ensures
        hit_count(calls, hash) > 0 <==> exists|j: int|
            0 <= j < calls.len() && text_hash(normalised((#[trigger] calls[j]).error)) == hash,
    decreases calls.len(),
{
    if calls.len() > 0 {
        let less = calls.drop_last();
        hits_are_found(less, hash);
        if hit_count(calls, hash) > 0 {
            if hit_count(less, hash) > 0 {
                let j = choose|j: int|
                    0 <= j < less.len() && text_hash(normalised((#[trigger] less[j]).error))
                        == hash;
                assert(calls[j] == less[j]);
            } else {
                assert(calls[calls.len() - 1] == calls.last());
            }
        } else {
            assert forall|j: int| 0 <= j < calls.len() implies text_hash(
                normalised((#[trigger] calls[j]).error),
            ) != hash by {
                if j < less.len() {
                    assert(less[j] == calls[j]);
                }
            }
        }
    }
}

/// A report tells the crash that it is about: its input and its error as they were,
/// the normal form of the error with its fingerprint, and how many bytes the minimal
/// input saves.
pub proof fn a_report_tells_its_crash(
    before: Map<u64, CrashGroup>,
    after: Map<u64, CrashGroup>,
    input: Seq<u8>,
    error: Seq<char>,
    label: Option<Seq<char>>,
    r: CrashReport,
)
    requires
        took_in(before, after, input, error, label, Some(r)),
    ensures
        r.original_input@ == input,
        r.raw_error@ == error,
        r.normalised_error@ == normalised(error),
        r.fingerprint@ == fingerprint(r.normalised_error@),
        r.bytes_saved == input.len() - r.minimal_input@.len(),
        label_view(r.label) == label,
        ({
            let group = after[text_hash(r.normalised_error@)];
            &&& group.occurrence_count == 1
            &&& group.canonical.minimal_input@ == r.minimal_input@
            &&& group.canonical.original_input@ == input
            &&& group.fingerprint@ == r.fingerprint@
        }),
{
}

}
