//! The persistent virtual machine.
use coverage_fuzzer::persistent_vm::{
    ExecutionOutcome, PersistentVm, StorageEntry, StubVmBackend, VmBackend, VmResetError,
    VmSnapshot,
};
use coverage_fuzzer::ratio::Ratio;

const FIVE_SECONDS: u64 = 5_000_000_000;

fn vm_with_snapshot() -> PersistentVm<StubVmBackend> {
    let mut vm = PersistentVm::new(StubVmBackend::new(), FIVE_SECONDS);
    vm.take_snapshot();
    vm
}

#[test]
fn execute_succeeds() {
    let mut vm = vm_with_snapshot();
    let out = vm.execute_and_reset(b"hello world").unwrap();
    assert!(out.success);
    assert!(out.return_value.is_some());
}

#[test]
fn reset_count_increments() {
    let mut vm = vm_with_snapshot();
    for _ in 0..5 {
        vm.execute_and_reset(b"test").unwrap();
    }
    assert_eq!(vm.reset_count, 5);
    assert_eq!(vm.total_executions, 5);
}

#[test]
fn crash_propagated_correctly() {
    let mut backend = StubVmBackend::new();
    backend.always_crash = true;
    let mut vm = PersistentVm::new(backend, FIVE_SECONDS);
    vm.take_snapshot();
    let out = vm.execute_and_reset(b"input").unwrap();
    assert!(!out.success);
    assert!(out.error.is_some());
}

#[test]
fn snapshot_missing_returns_error() {
    let mut vm = PersistentVm::new(StubVmBackend::new(), FIVE_SECONDS);
    let err = vm.reset().unwrap_err();
    assert_eq!(err, VmResetError::SnapshotMissing);
}

#[test]
fn state_restored_after_reset() {
    let mut vm = vm_with_snapshot();
    vm.execute_and_reset(b"hello").unwrap();
    let snap = vm.backend.snapshot();
    assert!(snap.storage.is_empty(), "storage should be empty after reset");
}

#[test]
fn outcome_of_an_execution() {
    let mut vm = vm_with_snapshot();
    let out = vm.execute_and_reset(b"hello world").unwrap();
    assert_eq!(out.return_value, Some(b"hello wo".to_vec()));
    assert_eq!(out.error, None);
    assert_eq!(out.cpu_units, 110);
    assert_eq!(
        out.storage_writes,
        vec![StorageEntry { key: b"hell".to_vec(), value: b"hello world".to_vec() }]
    );
    assert_eq!(out.blocks_hit, vec![1, 2, 3]);
    let short = vm.execute_and_reset(b"abc").unwrap();
    assert_eq!(short.return_value, Some(b"abc".to_vec()));
    assert_eq!(short.storage_writes[0].key, b"abc".to_vec());
}

#[test]
fn crashes_and_timeouts_in_words() {
    let mut backend = StubVmBackend::default();
    backend.always_crash = true;
    let out = backend.execute_raw(b"x", FIVE_SECONDS);
    assert_eq!(out.error, Some("stub: forced crash".to_string()));
    let mut slow = StubVmBackend::new();
    slow.simulated_exec_time_ns = 2_000;
    let late = slow.execute_raw(b"x", 1_999);
    assert_eq!(late.error, Some("stub: execution timeout".to_string()));
    assert_eq!(late.execution_time_ns, 1_999);
    assert!(slow.execute_raw(b"x", 2_000).success);
}

#[test]
fn missing_snapshot_still_counts_the_execution() {
    let mut vm = PersistentVm::new(StubVmBackend::new(), FIVE_SECONDS);
    let err = vm.execute_and_reset(b"hello").unwrap_err();
    assert_eq!(err, VmResetError::SnapshotMissing);
    assert_eq!(vm.total_executions, 1);
    assert_eq!(vm.reset_count, 0);
    assert_eq!(vm.backend.snapshot().storage.len(), 1);
}

#[test]
fn reset_returns_to_a_storage_with_entries() {
    let mut vm = PersistentVm::new(StubVmBackend::new(), FIVE_SECONDS);
    vm.backend.execute_raw(b"baseline", FIVE_SECONDS);
    vm.backend.execute_raw(b"other", FIVE_SECONDS);
    vm.take_snapshot();
    vm.execute_and_reset(b"base is overwritten").unwrap();
    vm.execute_and_reset(b"new key").unwrap();
    let storage = vm.backend.snapshot().storage;
    assert_eq!(storage.len(), 2);
    assert_eq!(storage[0].value, b"baseline".to_vec());
    assert_eq!(storage[1].value, b"other".to_vec());
}

#[test]
fn a_key_is_stored_once() {
    let mut backend = StubVmBackend::new();
    backend.execute_raw(b"same1", FIVE_SECONDS);
    backend.execute_raw(b"same2", FIVE_SECONDS);
    let storage = backend.snapshot().storage;
    assert_eq!(storage, vec![StorageEntry { key: b"same".to_vec(), value: b"same2".to_vec() }]);
}

#[test]
fn later_entries_of_a_snapshot_win() {
    let entry = |k: &[u8], v: &[u8]| StorageEntry { key: k.to_vec(), value: v.to_vec() };
    let mut snapshot = VmSnapshot::empty(vec![]);
    snapshot.storage = vec![entry(b"k", b"1"), entry(b"l", b"2"), entry(b"k", b"3")];
    let mut backend = StubVmBackend::new();
    backend.restore(&snapshot).unwrap();
    assert_eq!(backend.snapshot().storage, vec![entry(b"k", b"3"), entry(b"l", b"2")]);
}

#[test]
fn size_of_a_snapshot() {
    let mut snapshot = VmSnapshot::empty(vec![1, 2, 3]);
    assert_eq!(snapshot.size_bytes(), 3);
    snapshot.storage.push(StorageEntry { key: vec![0; 4], value: vec![0; 10] });
    snapshot.globals.insert(1, vec![0; 8]);
    snapshot.globals.insert(2, vec![0; 4]);
    snapshot.memory_pages.insert(0, vec![0; 100]);
    assert_eq!(snapshot.size_bytes(), 3 + 14 + 12 + 100);
}

#[test]
fn average_reset_time() {
    let mut vm = PersistentVm::new(StubVmBackend::new(), 1);
    assert_eq!(vm.avg_reset_time(), 0);
    assert_eq!(vm.estimated_eps(), Ratio { numerator: 0, denominator: 1 });
    vm.record_reset(1000);
    vm.record_reset(2001);
    assert_eq!(vm.avg_reset_time(), 1500);
    assert_eq!(vm.estimated_eps(), Ratio { numerator: 1_000_000_000, denominator: 1500 });
    vm.record_reset(u64::MAX);
    assert_eq!(vm.total_reset_time_ns, u64::MAX);
}

#[test]
fn crash_outcome() {
    let out = ExecutionOutcome::crashed("boom".to_string(), 17);
    assert!(!out.success);
    assert_eq!(out.error, Some("boom".to_string()));
    assert_eq!(out.execution_time_ns, 17);
    assert_eq!(out.return_value, None);
    assert_eq!(out.cpu_units, 0);
    assert!(out.storage_writes.is_empty() && out.blocks_hit.is_empty());
}

#[test]
fn reset_errors_in_words() {
    let text = |e: VmResetError| e.to_text();
    assert_eq!(text(VmResetError::StorageRestoreFailed("a".to_string())), "storage restore failed: a");
    assert_eq!(text(VmResetError::GlobalRestoreFailed("b".to_string())), "global restore failed: b");
    assert_eq!(text(VmResetError::MemoryRestoreFailed("c".to_string())), "memory restore failed: c");
    assert_eq!(text(VmResetError::SnapshotMissing), "no snapshot available");
}

#[test]
fn inputs_leave_no_trace() {
    let mut used = vm_with_snapshot();
    used.execute_and_reset(b"something else").unwrap();
    let mut fresh = vm_with_snapshot();
    let a = used.execute_and_reset(b"payload").unwrap();
    let b = fresh.execute_and_reset(b"payload").unwrap();
    assert_eq!(a.return_value, b.return_value);
    assert_eq!(a.storage_writes, b.storage_writes);
    assert_eq!(a.cpu_units, b.cpu_units);
}

#[test]
fn average_of_very_many_resets() {
    let mut vm = PersistentVm::new(StubVmBackend::new(), 1);
    vm.total_reset_time_ns = 10_000_000;
    vm.reset_count = 4;
    assert_eq!(vm.avg_reset_time(), 2_500_000);
    vm.total_reset_time_ns = u64::MAX;
    vm.reset_count = 1 << 32;
    assert_eq!(vm.avg_reset_time(), 0xffff_ffff);
    assert_eq!(
        vm.estimated_eps(),
        Ratio { numerator: 1_000_000_000, denominator: 0xffff_ffff }
    );
}

#[test]
fn machines_behave_as_told() {
    let mut crashing = PersistentVm::new(StubVmBackend::with_behaviour(true, 0), FIVE_SECONDS);
    crashing.take_snapshot();
    let out = crashing.execute_and_reset(b"input").unwrap();
    assert_eq!(out.error, Some("stub: forced crash".to_string()));
    let slow = StubVmBackend::with_behaviour(false, FIVE_SECONDS + 1);
    let mut timed = PersistentVm::new(slow, FIVE_SECONDS);
    timed.take_snapshot();
    assert!(!timed.execute_and_reset(b"input").unwrap().success);
    let fast = StubVmBackend::with_behaviour(false, FIVE_SECONDS);
    let mut calm = PersistentVm::new(fast, FIVE_SECONDS);
    calm.take_snapshot();
    assert!(calm.execute_and_reset(b"input").unwrap().success);
}
