//! Persistent execution: one long-lived virtual machine that is reset to a
//! snapshot between inputs.
use crate::clock::{measured, present, time_since};
use crate::ratio::Ratio;
use crate::sums::{
    keys_total, keys_total_bound, map_total, walk_is_distinct, walked_keys,
};
use crate::text::{append_chars, chars_of};
use std::collections::HashMap;
use std::time::Instant;
use vstd::prelude::*;
use vstd::slice::*;
use vstd::std_specs::hash::*;
use vstd::std_specs::iter::IteratorSpec;
use vstd::string::*;

verus! {

/// A key and a value in the storage of a contract.
#[derive(Debug, PartialEq, Eq)]
pub struct StorageEntry {
    /// The key.
    pub key: Vec<u8>,
    /// The value.
    pub value: Vec<u8>,
}

impl StorageEntry {
    /// The entry has the given key and value.
    pub open spec fn is(self, key: Seq<u8>, value: Seq<u8>) -> bool {
        &&& self.key@ == key
        &&& self.value@ == value
    }
}

impl Clone for StorageEntry {
    fn clone(&self) -> (copy: Self)
        ensures
            copy.is(self.key@, self.value@),
    {
        StorageEntry {
            key: slice_to_vec(self.key.as_slice()),
            value: slice_to_vec(self.value.as_slice()),
        }
    }
}

/// What a storage holds after entries were written in their order.
pub open spec fn stored(entries: Seq<StorageEntry>) -> Map<Seq<u8>, Seq<u8>>
    decreases entries.len(),
{
    if entries.len() == 0 {
        Map::empty()
    } else {
        stored(entries.drop_last()).insert(entries.last().key@, entries.last().value@)
    }
}

/// No two entries have one key.
pub open spec fn distinct_keys(entries: Seq<StorageEntry>) -> bool {
    forall|i: int, j: int|
        0 <= i < j < entries.len() ==> (#[trigger] entries[i]).key@ != (#[trigger] entries[j]).key@
}

/// The bytes in some entries.
pub open spec fn storage_size(entries: Seq<StorageEntry>) -> nat
    decreases entries.len(),
{
    if entries.len() == 0 {
        0
    } else {
        storage_size(entries.drop_last()) + entries.last().key@.len() + entries.last().value@.len()
    }
}

proof fn storage_size_grows(entries: Seq<StorageEntry>, count: int)
    requires
        0 <= count <= entries.len(),
    ensures
        storage_size(entries.take(count)) <= storage_size(entries),
    decreases entries.len() - count,
{
    if count < entries.len() {
        storage_size_grows(entries, count + 1);
        assert(entries.take(count + 1).drop_last() =~= entries.take(count));
    } else {
        assert(entries.take(count) =~= entries);
    }
}

/// Where each key is written once, a key holds what was written to it.
proof fn stored_pointwise(entries: Seq<StorageEntry>)
    requires
        distinct_keys(entries),
    ensures
        forall|i: int|
            0 <= i < entries.len() ==> stored(entries).contains_key((#[trigger] entries[i]).key@)
                && stored(entries)[entries[i].key@] == entries[i].value@,
        forall|k: Seq<u8>| #[trigger]
            stored(entries).contains_key(k) ==> exists|i: int|
                0 <= i < entries.len() && (#[trigger] entries[i]).key@ == k,
    decreases entries.len(),
{
    if entries.len() > 0 {
        let rest = entries.drop_last();
        stored_pointwise(rest);
        assert forall|i: int| 0 <= i < entries.len() implies stored(entries).contains_key(
            (#[trigger] entries[i]).key@,
        ) && stored(entries)[entries[i].key@] == entries[i].value@ by {
            if i < rest.len() {
                assert(rest[i] == entries[i]);
                assert(entries[i].key@ != entries[entries.len() - 1].key@);
            }
        }
        assert forall|k: Seq<u8>| #[trigger] stored(entries).contains_key(k) implies exists|i: int|
            0 <= i < entries.len() && (#[trigger] entries[i]).key@ == k by {
            if k == entries.last().key@ {
                assert(entries[entries.len() - 1].key@ == k);
            } else {
                assert(stored(rest).contains_key(k));
                let i = choose|i: int| 0 <= i < rest.len() && (#[trigger] rest[i]).key@ == k;
                assert(entries[i].key@ == k);
            }
        }
    }
}

/// The length of some bytes.
pub open spec fn lengths() -> spec_fn(Vec<u8>) -> nat {
    |bytes: Vec<u8>| bytes@.len()
}

/// The sum of the lengths of the values of a map.
fn map_size(map: &HashMap<u32, Vec<u8>>) -> (size: usize)
    requires
        map_total(map@, lengths()) <= usize::MAX,
    ensures
        size == map_total(map@, lengths()),
{
    let mut size: usize = 0;
    let ghost weight = lengths();
    let ghost pairs = spec_hash_map_iter(map).remaining();
    for pair in iter: map.iter()
        invariant
            weight == lengths(),
            map@.dom().finite(),
            map_total(map@, weight) <= usize::MAX,
            pairs == spec_hash_map_iter(map).remaining(),
            iter.seq() == pairs,
            pairs.no_duplicates(),
            size == keys_total(map@, walked_keys(pairs, iter.index() as int), weight),
    {
        proof {
            let n = iter.index() as int;
            assert forall|i: int| 0 <= i < pairs.len() implies map@.contains_key(
                *(#[trigger] pairs[i]).0,
            ) && map@[*pairs[i].0] == *pairs[i].1 by {
                assert(map@.contains_key(*pairs[i].0));
            }
            walk_is_distinct(map@, pairs, n + 1);
            let keys = walked_keys(pairs, n + 1);
            assert(keys.drop_last() =~= walked_keys(pairs, n));
            assert(keys.last() == *pairs[n].0);
            keys_total_bound(map@, keys, weight);
        }
        size = size + pair.1.len();
    }
    proof {
        assert forall|i: int| 0 <= i < pairs.len() implies map@.contains_key(
            *(#[trigger] pairs[i]).0,
        ) && map@[*pairs[i].0] == *pairs[i].1 by {
            assert(map@.contains_key(*pairs[i].0));
        }
        walk_is_distinct(map@, pairs, pairs.len() as int);
        keys_total_bound(map@, walked_keys(pairs, pairs.len() as int), weight);
    }
    size
}

/// The state of a virtual machine at a baseline.
#[derive(Debug, Clone)]
pub struct VmSnapshot {
    /// Contents of the contract storage.
    pub storage: Vec<StorageEntry>,
    /// Global variables, by their index.
    pub globals: HashMap<u32, Vec<u8>>,
    /// Pages of the linear memory, by their index.
    pub memory_pages: HashMap<u32, Vec<u8>>,
    /// The binary.
    pub wasm_bytes: Vec<u8>,
}

impl VmSnapshot {
    /// The bytes in all parts of the snapshot.
    pub open spec fn size(self) -> nat {
        storage_size(self.storage@) + map_total(self.globals@, lengths()) + map_total(
            self.memory_pages@,
            lengths(),
        ) + self.wasm_bytes@.len()
    }

    /// A snapshot that holds nothing but a binary.
    pub fn empty(wasm_bytes: Vec<u8>) -> (snapshot: Self)
        ensures
            snapshot.storage@ == Seq::<StorageEntry>::empty(),
            snapshot.globals@ == Map::<u32, Vec<u8>>::empty(),
            snapshot.memory_pages@ == Map::<u32, Vec<u8>>::empty(),
            snapshot.wasm_bytes == wasm_bytes,
            snapshot.size() == wasm_bytes@.len(),
    {
        VmSnapshot {
            storage: Vec::new(),
            globals: HashMap::new(),
            memory_pages: HashMap::new(),
            wasm_bytes,
        }
    }

    /// The bytes in all parts of the snapshot.
    pub fn size_bytes(&self) -> (size: usize)
        requires
            self.size() <= usize::MAX,
        ensures
            size == self.size(),
    {
        let mut storage: usize = 0;
        let mut i: usize = 0;
        while i < self.storage.len()
            invariant
                i <= self.storage@.len(),
                storage == storage_size(self.storage@.take(i as int)),
                storage_size(self.storage@) <= usize::MAX,
            decreases self.storage@.len() - i,
        {
            proof {
                assert(self.storage@.take(i + 1).drop_last() =~= self.storage@.take(i as int));
                storage_size_grows(self.storage@, i + 1);
            }
            storage = storage + self.storage[i].key.len() + self.storage[i].value.len();
            i = i + 1;
        }
        assert(self.storage@.take(i as int) =~= self.storage@);
        let globals: usize = map_size(&self.globals);
        let memory: usize = map_size(&self.memory_pages);
        storage + globals + memory + self.wasm_bytes.len()
    }
}

/// Why a virtual machine could not be reset.
#[derive(Debug, Clone, PartialEq, Eq)]
pub enum VmResetError {
    /// The storage could not be restored.
    StorageRestoreFailed(String),
    /// The global variables could not be restored.
    GlobalRestoreFailed(String),
    /// The memory could not be restored.
    MemoryRestoreFailed(String),
    /// There is no snapshot to reset to.
    SnapshotMissing,
}

impl VmResetError {
    /// The error in words.
    pub open spec fn message(self) -> Seq<char> {
        match self {
            VmResetError::StorageRestoreFailed(m) => "storage restore failed: "@ + m@,
            VmResetError::GlobalRestoreFailed(m) => "global restore failed: "@ + m@,
            VmResetError::MemoryRestoreFailed(m) => "memory restore failed: "@ + m@,
            VmResetError::SnapshotMissing => "no snapshot available"@,
        }
    }

    /// The error in words.
    pub fn to_text(&self) -> (text: String)
        ensures
            text@ == self.message(),
    {
        match self {
            VmResetError::StorageRestoreFailed(m) => followed("storage restore failed: ", m),
            VmResetError::GlobalRestoreFailed(m) => followed("global restore failed: ", m),
            VmResetError::MemoryRestoreFailed(m) => followed("memory restore failed: ", m),
            VmResetError::SnapshotMissing => String::from_str("no snapshot available"),
        }
    }
}

/// A text followed by another.
fn followed(head: &str, tail: &String) -> (text: String)
    ensures
        text@ == head@ + tail@,
{
    let mut text: String = String::from_str(head);
    append_chars(&mut text, chars_of(tail.as_str()).as_slice());
    text
}

/// What came of executing an input.
#[derive(Debug, Clone)]
pub struct ExecutionOutcome {
    /// Whether there was no panic, trap or timeout.
    pub success: bool,
    /// The returned value.
    pub return_value: Option<Vec<u8>>,
    /// What went wrong.
    pub error: Option<String>,
    /// Processor units used.
    pub cpu_units: u64,
    /// Execution time, in nanoseconds.
    pub execution_time_ns: u64,
    /// Entries written to the storage.
    pub storage_writes: Vec<StorageEntry>,
    /// Basic blocks that were executed.
    pub blocks_hit: Vec<u32>,
}

impl ExecutionOutcome {
    /// The outcome is a crash with an error.
    pub open spec fn is_crash(self, error: Seq<char>) -> bool {
        &&& !self.success
        &&& self.return_value is None
        &&& self.error matches Some(text) && text@ == error
        &&& self.cpu_units == 0
        &&& self.storage_writes@.len() == 0
        &&& self.blocks_hit@.len() == 0
    }

    /// The outcome of a crash.
    pub fn crashed(error: String, elapsed_ns: u64) -> (outcome: Self)
        ensures
            outcome.is_crash(error@),
            outcome.execution_time_ns == elapsed_ns,
    {
        ExecutionOutcome {
            success: false,
            return_value: None,
            error: Some(error),
            cpu_units: 0,
            execution_time_ns: elapsed_ns,
            storage_writes: Vec::new(),
            blocks_hit: Vec::new(),
        }
    }
}

/// The error of a result, if it is one.
pub open spec fn error_of(result: Result<(), VmResetError>) -> Option<VmResetError> {
    match result {
        Ok(_) => None,
        Err(error) => Some(error),
    }
}

/// A virtual machine.
pub trait VmBackend: Sized {
    /// The machine's own invariant.
    spec fn ready(&self) -> bool;

    /// The machine is in the state of the snapshot.
    spec fn holds(&self, snapshot: VmSnapshot) -> bool;

    /// Restoring the snapshot can lead from one state to another, with an error
    /// or without.
    spec fn restored(
        before: Self,
        snapshot: VmSnapshot,
        after: Self,
        error: Option<VmResetError>,
    ) -> bool;

    /// Executing an input can lead from one state to another, with an outcome.
    spec fn ran(
        before: Self,
        input: Seq<u8>,
        timeout_ns: u64,
        after: Self,
        outcome: ExecutionOutcome,
    ) -> bool;

    /// Takes a snapshot of the current state.
    fn snapshot(&self) -> (snapshot: VmSnapshot)
        requires
            self.ready(),
        ensures
            self.holds(snapshot),
    ;

    /// Restores the state of a snapshot.
    fn restore(&mut self, snapshot: &VmSnapshot) -> (result: Result<(), VmResetError>)
        requires
            old(self).ready(),
        ensures
            final(self).ready(),
            Self::restored(*old(self), *snapshot, *final(self), error_of(result)),
            result is Ok ==> final(self).holds(*snapshot),
    ;

    /// Executes an input as a function call.
    fn execute_raw(&mut self, input: &[u8], timeout_ns: u64) -> (outcome: ExecutionOutcome)
        requires
            old(self).ready(),
        ensures
            final(self).ready(),
            Self::ran(*old(self), input@, timeout_ns, *final(self), outcome),
    ;
}

/// A sum of times, as far as it can be held.
pub open spec fn sum_held(a: u64, b: u64) -> u64 {
    if a + b > u64::MAX {
        u64::MAX
    } else {
        (a + b) as u64
    }
}

/// A virtual machine with a snapshot to reset it to.
pub struct PersistentVm<B: VmBackend> {
    /// The machine.
    pub backend: B,
    /// The state to reset it to.
    pub snapshot: Option<VmSnapshot>,
    /// Number of resets.
    pub reset_count: u64,
    /// Number of executed inputs.
    pub total_executions: u64,
    /// Time spent on resets, in nanoseconds.
    pub total_reset_time_ns: u64,
    /// Time limit of an execution, in nanoseconds.
    pub timeout_ns: u64,
}

impl<B: VmBackend> PersistentVm<B> {
    /// A machine without a snapshot. Take one before the first execution.
    pub fn new(backend: B, timeout_ns: u64) -> (vm: Self)
        ensures
            vm.backend == backend,
            vm.snapshot is None,
            vm.reset_count == 0,
            vm.total_executions == 0,
            vm.total_reset_time_ns == 0,
            vm.timeout_ns == timeout_ns,
    {
        PersistentVm {
            backend,
            snapshot: None,
            reset_count: 0,
            total_executions: 0,
            total_reset_time_ns: 0,
            timeout_ns,
        }
    }

    /// Keeps the current state as the one to reset to.
    pub fn take_snapshot(&mut self)
        requires
            old(self).backend.ready(),
        ensures
            final(self).snapshot matches Some(s) && old(self).backend.holds(s),
            final(self).backend == old(self).backend,
            final(self).reset_count == old(self).reset_count,
            final(self).total_executions == old(self).total_executions,
            final(self).total_reset_time_ns == old(self).total_reset_time_ns,
            final(self).timeout_ns == old(self).timeout_ns,
    {
        self.snapshot = Some(self.backend.snapshot());
    }

    /// Counts a reset and the time it took.
    pub fn record_reset(&mut self, elapsed_ns: u64)
        requires
            old(self).reset_count < u64::MAX,
        ensures
            final(self).reset_count == old(self).reset_count + 1,
            final(self).total_reset_time_ns == sum_held(
                old(self).total_reset_time_ns,
                elapsed_ns,
            ),
            final(self).backend == old(self).backend,
            final(self).snapshot == old(self).snapshot,
            final(self).total_executions == old(self).total_executions,
            final(self).timeout_ns == old(self).timeout_ns,
    {
        self.total_reset_time_ns = self.total_reset_time_ns.saturating_add(elapsed_ns);
        self.reset_count = self.reset_count + 1;
    }

    /// Executes an input and resets the machine. An error is one of the reset:
    /// what an execution does wrong is in its outcome.
    pub fn execute_and_reset(&mut self, input: &[u8]) -> (result: Result<
        ExecutionOutcome,
        VmResetError,
    >)
        requires
            old(self).backend.ready(),
            old(self).reset_count < u64::MAX,
            old(self).total_executions < u64::MAX,
        ensures
            final(self).backend.ready(),
            final(self).snapshot == old(self).snapshot,
            final(self).timeout_ns == old(self).timeout_ns,
            final(self).total_executions == old(self).total_executions + 1,
            result is Err ==> final(self).total_reset_time_ns == old(self).total_reset_time_ns,
            result is Ok ==> exists|nanos: u64|
                {
                    &&& #[trigger] measured(nanos)
                    &&& final(self).total_reset_time_ns == sum_held(
                        old(self).total_reset_time_ns,
                        nanos,
                    )
                },
            match old(self).snapshot {
                None => {
                    &&& result matches Err(e) && e is SnapshotMissing
                    &&& final(self).reset_count == old(self).reset_count
                    &&& exists|outcome: ExecutionOutcome| #[trigger]
                        B::ran(
                            old(self).backend,
                            input@,
                            old(self).timeout_ns,
                            final(self).backend,
                            outcome,
                        )
                },
                Some(snapshot) => match result {
                    Ok(outcome) => {
                        &&& final(self).reset_count == old(self).reset_count + 1
                        &&& final(self).backend.holds(snapshot)
                        &&& exists|middle: B|
                            {
                                &&& #[trigger] B::ran(
                                    old(self).backend,
                                    input@,
                                    old(self).timeout_ns,
                                    middle,
                                    outcome,
                                )
                                &&& B::restored(middle, snapshot, final(self).backend, None)
                            }
                    },
                    Err(error) => {
                        &&& final(self).reset_count == old(self).reset_count
                        &&& exists|middle: B, outcome: ExecutionOutcome|
                            {
                                &&& #[trigger] B::ran(
                                    old(self).backend,
                                    input@,
                                    old(self).timeout_ns,
                                    middle,
                                    outcome,
                                )
                                &&& B::restored(middle, snapshot, final(self).backend, Some(error))
                            }
                    },
                },
            },
    {
        let outcome: ExecutionOutcome = self.backend.execute_raw(input, self.timeout_ns);
        self.total_executions = self.total_executions + 1;
        match self.reset() {
            Ok(_) => Ok(outcome),
            Err(error) => Err(error),
        }
    }

    /// Resets the machine to the snapshot.
    pub fn reset(&mut self) -> (result: Result<(), VmResetError>)
        requires
            old(self).backend.ready(),
            old(self).reset_count < u64::MAX,
        ensures
            final(self).backend.ready(),
            final(self).snapshot == old(self).snapshot,
            final(self).timeout_ns == old(self).timeout_ns,
            final(self).total_executions == old(self).total_executions,
            result is Ok ==> exists|nanos: u64|
                {
                    &&& #[trigger] measured(nanos)
                    &&& final(self).total_reset_time_ns == sum_held(
                        old(self).total_reset_time_ns,
                        nanos,
                    )
                },
            final(self).reset_count == old(self).reset_count + (if result is Ok {
                1int
            } else {
                0
            }),
            match old(self).snapshot {
                None => {
                    &&& result matches Err(e) && e is SnapshotMissing
                    &&& *final(self) == *old(self)
                },
                Some(snapshot) => {
                    &&& B::restored(
                        old(self).backend,
                        snapshot,
                        final(self).backend,
                        error_of(result),
                    )
                    &&& result is Ok ==> final(self).backend.holds(snapshot)
                    &&& result is Err ==> final(self).total_reset_time_ns == old(
                        self,
                    ).total_reset_time_ns
                },
            },
    {
        let start: Instant = present();
        let result: Result<(), VmResetError> = match &self.snapshot {
            None => Err(VmResetError::SnapshotMissing),
            Some(snapshot) => self.backend.restore(snapshot),
        };
        match result {
            Ok(_) => {
                let elapsed: u64 = time_since(&start);
                assert(measured(elapsed));
                self.record_reset(elapsed);
                Ok(())
            },
            Err(error) => Err(error),
        }
    }

    /// Average time of a reset, in nanoseconds; zero before the first.
    pub fn avg_reset_time(&self) -> (nanos: u64)
        ensures
            self.reset_count == 0 ==> nanos == 0,
            self.reset_count != 0 ==> nanos == self.total_reset_time_ns / self.reset_count,
    {
        if self.reset_count == 0 {
            return 0;
        }
        self.total_reset_time_ns / self.reset_count
    }

    /// Estimated executions per second, which resets dominate; zero if a reset
    /// takes no time.
    pub fn estimated_eps(&self) -> (rate: Ratio)
        ensures
            ({
                let average = if self.reset_count == 0 {
                    0
                } else {
                    self.total_reset_time_ns / self.reset_count
                };
                rate == if average == 0 {
                    (Ratio { numerator: 0, denominator: 1 })
                } else {
                    (Ratio { numerator: 1_000_000_000, denominator: average as u128 })
                }
            }),
    {
        let average: u64 = self.avg_reset_time();
        if average == 0 {
            Ratio::zero()
        } else {
            Ratio { numerator: 1_000_000_000, denominator: average as u128 }
        }
    }
}

/// A machine in memory: an execution writes its input to the storage.
pub struct StubVmBackend {
    storage: Vec<StorageEntry>,
    /// Whether every execution crashes.
    pub always_crash: bool,
    /// The time that an execution is taken to need, in nanoseconds.
    pub simulated_exec_time_ns: u64,
}

/// The first bytes of an input, all of it if it is shorter.
pub open spec fn first_bytes(input: Seq<u8>, count: int) -> Seq<u8> {
    if input.len() < count {
        input
    } else {
        input.take(count)
    }
}

/// The first bytes of an input, all of it if it is shorter.
fn copy_first(input: &[u8], count: usize) -> (bytes: Vec<u8>)
    ensures
        bytes@ == first_bytes(input@, count as int),
{
    if input.len() < count {
        slice_to_vec(input)
    } else {
        let bytes: Vec<u8> = slice_to_vec(slice_subrange(input, 0, count));
        assert(bytes@ =~= input@.take(count as int));
        bytes
    }
}

/// Whether two byte strings are the same.
fn same_bytes(a: &Vec<u8>, b: &Vec<u8>) -> (same: bool)
    ensures
        same == (a@ == b@),
{
    if a.len() != b.len() {
        return false;
    }
    let mut i: usize = 0;
    while i < a.len()
        invariant
            a@.len() == b@.len(),
            i <= a@.len(),
            forall|k: int| 0 <= k < i ==> a@[k] == b@[k],
        decreases a@.len() - i,
    {
        if a[i] != b[i] {
            return false;
        }
        i = i + 1;
    }
    assert(a@ =~= b@);
    true
}

impl StubVmBackend {
    /// What the storage holds.
    pub closed spec fn contents(self) -> Map<Seq<u8>, Seq<u8>> {
        stored(self.storage@)
    }

    /// Whether every execution crashes.
    pub closed spec fn crashes(self) -> bool {
        self.always_crash
    }

    /// The time that an execution is taken to need, in nanoseconds.
    pub closed spec fn needs_ns(self) -> u64 {
        self.simulated_exec_time_ns
    }

    /// No key is stored twice.
    closed spec fn keys_once(self) -> bool {
        distinct_keys(self.storage@)
    }

    /// A machine with an empty storage.
    pub fn new() -> (vm: Self)
        ensures
            vm.ready(),
            vm.contents() == Map::<Seq<u8>, Seq<u8>>::empty(),
            !vm.crashes(),
            vm.needs_ns() == 100_000,
    {
        StubVmBackend {
            storage: Vec::new(),
            always_crash: false,
            simulated_exec_time_ns: 100_000,
        }
    }

    /// A machine with an empty storage that behaves as told.
    pub fn with_behaviour(always_crash: bool, simulated_exec_time_ns: u64) -> (vm: Self)
        ensures
            vm.ready(),
            vm.contents() == Map::<Seq<u8>, Seq<u8>>::empty(),
            vm.crashes() == always_crash,
            vm.needs_ns() == simulated_exec_time_ns,
    {
        StubVmBackend { storage: Vec::new(), always_crash, simulated_exec_time_ns }
    }

    /// Writes a key.
    fn write(&mut self, key: Vec<u8>, value: Vec<u8>)
        requires
            old(self).ready(),
        ensures
            final(self).ready(),
            final(self).contents() == old(self).contents().insert(key@, value@),
            final(self).crashes() == old(self).crashes(),
            final(self).needs_ns() == old(self).needs_ns(),
    {
        let ghost before = self.storage@;
        let ghost pair = (key@, value@);
        let mut i: usize = 0;
        while i < self.storage.len()
            invariant
                self.storage@ == before,
                distinct_keys(before),
                self.crashes() == old(self).crashes(),
                self.needs_ns() == old(self).needs_ns(),
                old(self).storage@ == before,
                pair == (key@, value@),
                i <= before.len(),
                forall|k: int| 0 <= k < i ==> (#[trigger] before[k]).key@ != pair.0,
            decreases before.len() - i,
        {
            if same_bytes(&self.storage[i].key, &key) {
                self.storage.set(i, StorageEntry { key, value });
                proof {
                    let after = self.storage@;
                    assert(distinct_keys(after)) by {
                        assert forall|a: int, b: int| 0 <= a < b < after.len() implies (
                        #[trigger] after[a]).key@ != (#[trigger] after[b]).key@ by {
                            assert(after[a].key@ == before[a].key@);
                            assert(after[b].key@ == before[b].key@);
                        }
                    }
                    stored_pointwise(before);
                    stored_pointwise(after);
                    assert(stored(after) =~= stored(before).insert(pair.0, pair.1)) by {
                        stored_after_update(before, after, i as int, pair.0, pair.1);
                    }
                }
                return;
            }
            i = i + 1;
        }
        self.storage.push(StorageEntry { key, value });
        proof {
            let after = self.storage@;
            assert(after.drop_last() =~= before);
            assert forall|a: int, b: int| 0 <= a < b < after.len() implies (
            #[trigger] after[a]).key@ != (#[trigger] after[b]).key@ by {
                assert(after[a] == before[a]);
                if b < before.len() {
                    assert(after[b] == before[b]);
                }
            }
        }
    }
}

proof fn stored_after_update(
    before: Seq<StorageEntry>,
    after: Seq<StorageEntry>,
    at: int,
    key: Seq<u8>,
    value: Seq<u8>,
)
    requires
        distinct_keys(before),
        distinct_keys(after),
        before.len() == after.len(),
        0 <= at < before.len(),
        before[at].key@ == key,
        after[at].is(key, value),
        forall|i: int| 0 <= i < before.len() && i != at ==> #[trigger] after[i] == before[i],
    ensures
        stored(after) == stored(before).insert(key, value),
{
    stored_pointwise(before);
    stored_pointwise(after);
    let a = stored(after);
    let b = stored(before).insert(key, value);
    assert forall|k: Seq<u8>| a.contains_key(k) <==> b.contains_key(k) by {
        if a.contains_key(k) {
            let i = choose|i: int| 0 <= i < after.len() && (#[trigger] after[i]).key@ == k;
            if i != at {
                assert(after[i] == before[i]);
                assert(stored(before).contains_key(before[i].key@));
            }
        }
        if b.contains_key(k) {
            if k == key {
                assert(stored(after).contains_key(after[at].key@));
            } else {
                let i = choose|i: int| 0 <= i < before.len() && (#[trigger] before[i]).key@ == k;
                assert(i != at);
                assert(after[i] == before[i]);
                assert(stored(after).contains_key(after[i].key@));
            }
        }
    }
    assert forall|k: Seq<u8>| a.contains_key(k) implies a[k] == b[k] by {
        let i = choose|i: int| 0 <= i < after.len() && (#[trigger] after[i]).key@ == k;
        if i == at {
            assert(a[after[at].key@] == after[at].value@);
        } else {
            assert(after[i] == before[i]);
            assert(a[after[i].key@] == after[i].value@);
            assert(stored(before)[before[i].key@] == before[i].value@);
            assert(k != key) by {
                if i < at {
                    assert(before[i].key@ != before[at].key@);
                } else {
                    assert(before[at].key@ != before[i].key@);
                }
            }
        }
    }
    assert(a =~= b);
}

impl Default for StubVmBackend {
    fn default() -> (vm: Self)
        ensures
            vm.ready(),
            vm.contents() == Map::<Seq<u8>, Seq<u8>>::empty(),
            !vm.crashes(),
            vm.needs_ns() == 100_000,
    {
        Self::new()
    }
}

impl VmBackend for StubVmBackend {
    closed spec fn ready(&self) -> bool {
        self.keys_once()
    }

    /// The storage holds what the snapshot's storage holds.
    open spec fn holds(&self, snapshot: VmSnapshot) -> bool {
        self.contents() == stored(snapshot.storage@)
    }

    /// Restoring always works, and changes nothing but the storage.
    open spec fn restored(
        before: Self,
        snapshot: VmSnapshot,
        after: Self,
        error: Option<VmResetError>,
    ) -> bool {
        &&& error is None
        &&& after.contents() == stored(snapshot.storage@)
        &&& after.crashes() == before.crashes()
        &&& after.needs_ns() == before.needs_ns()
    }

    /// An execution crashes if all do, or if it needs more time than it has.
    /// Otherwise it writes the input under its first four bytes and returns its
    /// first eight.
    open spec fn ran(
        before: Self,
        input: Seq<u8>,
        timeout_ns: u64,
        after: Self,
        outcome: ExecutionOutcome,
    ) -> bool {
        &&& after.crashes() == before.crashes()
        &&& after.needs_ns() == before.needs_ns()
        &&& if before.crashes() {
            &&& outcome.is_crash("stub: forced crash"@)
            &&& measured(outcome.execution_time_ns)
            &&& after.contents() == before.contents()
        } else if before.needs_ns() > timeout_ns {
            &&& outcome.is_crash("stub: execution timeout"@)
            &&& outcome.execution_time_ns == timeout_ns
            &&& after.contents() == before.contents()
        } else {
            &&& outcome.success
            &&& outcome.return_value matches Some(v) && v@ == first_bytes(input, 8)
            &&& outcome.error is None
            &&& outcome.cpu_units == (if input.len() * 10 > u64::MAX {
                u64::MAX as nat
            } else {
                input.len() * 10
            })
            &&& outcome.storage_writes@.len() == 1
            &&& outcome.storage_writes@[0].is(first_bytes(input, 4), input)
            &&& outcome.blocks_hit@ == seq![1u32, 2, 3]
            &&& measured(outcome.execution_time_ns)
            &&& after.contents() == before.contents().insert(first_bytes(input, 4), input)
        }
    }

    fn snapshot(&self) -> (snapshot: VmSnapshot)
        ensures
            snapshot.globals@ == Map::<u32, Vec<u8>>::empty(),
            snapshot.memory_pages@ == Map::<u32, Vec<u8>>::empty(),
            snapshot.wasm_bytes@ == Seq::<u8>::empty(),
            distinct_keys(snapshot.storage@),
    {
        let mut storage: Vec<StorageEntry> = Vec::new();
        let mut i: usize = 0;
        while i < self.storage.len()
            invariant
                i <= self.storage@.len(),
                storage@.len() == i,
                forall|k: int|
                    0 <= k < i ==> (#[trigger] storage@[k]).is(
                        self.storage@[k].key@,
                        self.storage@[k].value@,
                    ),
                stored(storage@) == stored(self.storage@.take(i as int)),
            decreases self.storage@.len() - i,
        {
            let ghost before = storage@;
            storage.push(self.storage[i].clone());
            proof {
                assert(self.storage@.take(i + 1).drop_last() =~= self.storage@.take(i as int));
                assert(storage@.drop_last() =~= before);
            }
            i = i + 1;
        }
        proof {
            assert(self.storage@.take(i as int) =~= self.storage@);
            assert(distinct_keys(storage@)) by {
                assert forall|a: int, b: int| 0 <= a < b < storage@.len() implies (
                #[trigger] storage@[a]).key@ != (#[trigger] storage@[b]).key@ by {
                    assert(self.storage@[a].key@ != self.storage@[b].key@);
                }
            }
        }
        VmSnapshot {
            storage,
            globals: HashMap::new(),
            memory_pages: HashMap::new(),
            wasm_bytes: Vec::new(),
        }
    }

    fn restore(&mut self, snapshot: &VmSnapshot) -> (result: Result<(), VmResetError>) {
        self.storage = Vec::new();
        let mut i: usize = 0;
        while i < snapshot.storage.len()
            invariant
                self.ready(),
                i <= snapshot.storage@.len(),
                self.contents() == stored(snapshot.storage@.take(i as int)),
                self.crashes() == old(self).crashes(),
                self.needs_ns() == old(self).needs_ns(),
            decreases snapshot.storage@.len() - i,
        {
            let entry: StorageEntry = snapshot.storage[i].clone();
            self.write(entry.key, entry.value);
            assert(snapshot.storage@.take(i + 1).drop_last() =~= snapshot.storage@.take(i as int));
            i = i + 1;
        }
        assert(snapshot.storage@.take(i as int) =~= snapshot.storage@);
        Ok(())
    }

    fn execute_raw(&mut self, input: &[u8], timeout_ns: u64) -> (outcome: ExecutionOutcome) {
        let start: Instant = present();
        if self.always_crash {
            let error: String = String::from_str("stub: forced crash");
            let elapsed: u64 = time_since(&start);
            assert(measured(elapsed));
            return ExecutionOutcome::crashed(error, elapsed);
        }
        if self.simulated_exec_time_ns > timeout_ns {
            let error: String = String::from_str("stub: execution timeout");
            return ExecutionOutcome::crashed(error, timeout_ns);
        }
        let key: Vec<u8> = copy_first(input, 4);
        let entry: StorageEntry = StorageEntry {
            key: slice_to_vec(key.as_slice()),
            value: slice_to_vec(input),
        };
        self.write(key, slice_to_vec(input));
        let mut writes: Vec<StorageEntry> = Vec::new();
        writes.push(entry);
        let units: u128 = input.len() as u128 * 10;
        let blocks: Vec<u32> = vec![1u32, 2, 3];
        assert(blocks@ =~= seq![1u32, 2, 3]);
        let elapsed: u64 = time_since(&start);
        assert(measured(elapsed));
        ExecutionOutcome {
            success: true,
            return_value: Some(copy_first(input, 8)),
            error: None,
            cpu_units: if units > u64::MAX as u128 {
                u64::MAX
            } else {
                units as u64
            },
            execution_time_ns: elapsed,
            storage_writes: writes,
            blocks_hit: blocks,
        }
    }
}

/// Inputs do not leak into one another: on machines that hold the same snapshot
/// an input has the same outcome, whatever was executed before, but for the time
/// that it takes.
pub proof fn inputs_do_not_leak(
    a: StubVmBackend,
    b: StubVmBackend,
    snapshot: VmSnapshot,
    input: Seq<u8>,
    timeout_ns: u64,
    after_a: StubVmBackend,
    after_b: StubVmBackend,
    of_a: ExecutionOutcome,
    of_b: ExecutionOutcome,
)
    requires
        a.holds(snapshot),
        b.holds(snapshot),
        a.crashes() == b.crashes(),
        a.needs_ns() == b.needs_ns(),
        StubVmBackend::ran(a, input, timeout_ns, after_a, of_a),
        StubVmBackend::ran(b, input, timeout_ns, after_b, of_b),
    ensures
        of_a.success == of_b.success,
        of_a.error is Some == of_b.error is Some,
        of_a.error matches Some(e) ==> e@ == of_b.error->0@,
        of_a.return_value is Some == of_b.return_value is Some,
        of_a.return_value matches Some(v) ==> v@ == of_b.return_value->0@,
        of_a.cpu_units == of_b.cpu_units,
        stored(of_a.storage_writes@) == stored(of_b.storage_writes@),
        of_a.blocks_hit@ == of_b.blocks_hit@,
        after_a.contents() == after_b.contents(),
{
    reveal_with_fuel(stored, 2);
    assert(of_a.blocks_hit@ =~= of_b.blocks_hit@);
    if of_a.success {
        assert(of_a.storage_writes@.drop_last() =~= Seq::empty());
        assert(of_b.storage_writes@.drop_last() =~= Seq::empty());
    }
}

}
