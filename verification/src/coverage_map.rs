//! The edge coverage bitmap.
//!
//! Each of the 65536 slots says whether an edge was reached. An input is
//! interesting if it reaches a slot that no earlier input has.
use crate::ratio::Ratio;
use vstd::prelude::*;
use vstd::set_lib::*;

verus! {

/// Number of slots in the coverage bitmap.
pub const COVERAGE_MAP_SIZE: usize = 65536;

/// An edge: the exclusive or of two consecutive block numbers.
pub type EdgeId = u32;

/// The slots that lie below `count`.
pub open spec fn slots_below(count: int) -> Set<int> {
    set_int_range(0, count)
}

/// The slots with a count above zero.
pub open spec fn hit_slots(counts: Seq<u16>) -> Set<int> {
    Set::new(|slot: int| 0 <= slot < counts.len() && counts[slot] > 0)
}

/// The slots that are marked in a bitmap.
pub open spec fn marked_slots(bitmap: Seq<u8>) -> Set<int> {
    Set::new(|slot: int| 0 <= slot < bitmap.len() && bitmap[slot] != 0)
}

/// The slot of an edge.
pub open spec fn slot_of(edge: EdgeId) -> int {
    edge as int % COVERAGE_MAP_SIZE as int
}

/// The counts after a hit of an edge; a count stops at its maximum.
pub open spec fn counted(counts: Seq<u16>, edge: EdgeId) -> Seq<u16> {
    let before = counts[slot_of(edge)];
    counts.update(
        slot_of(edge),
        if before == u16::MAX {
            before
        } else {
            (before + 1) as u16
        },
    )
}

/// The counts after hits of some edges, in their order.
pub open spec fn all_counted(counts: Seq<u16>, edges: Seq<EdgeId>) -> Seq<u16>
    decreases edges.len(),
{
    if edges.len() == 0 {
        counts
    } else {
        counted(all_counted(counts, edges.drop_last()), edges.last())
    }
}

/// Counts of zero in every slot.
pub open spec fn no_counts() -> Seq<u16> {
    Seq::new(COVERAGE_MAP_SIZE as nat, |i: int| 0u16)
}

/// The edges list the slots of a set, in ascending order.
pub open spec fn lists(edges: Seq<EdgeId>, slots: Set<int>) -> bool {
    &&& forall|i: int, j: int| 0 <= i < j < edges.len() ==> edges[i] < edges[j]
    &&& forall|i: int| 0 <= i < edges.len() ==> slots.contains(#[trigger] edges[i] as int)
    &&& forall|slot: int| #[trigger]
        slots.contains(slot) ==> exists|i: int|
            0 <= i < edges.len() && #[trigger] edges[i] == slot
}

/// Slots below a bound are finitely many, and no more than the bound.
pub proof fn slots_are_finite(slots: Set<int>, bound: int)
    requires
        0 <= bound,
        forall|slot: int| #[trigger] slots.contains(slot) ==> 0 <= slot < bound,
    ensures
        slots.finite(),
        slots.len() <= bound,
{
    lemma_int_range(0, bound);
    assert(slots.subset_of(set_int_range(0, bound)));
    lemma_len_subset(slots, set_int_range(0, bound));
}

/// A list of edges is as long as the set it lists.
pub proof fn list_has_length(edges: Seq<EdgeId>, slots: Set<int>)
    requires
        lists(edges, slots),
        slots.finite(),
    ensures
        edges.len() == slots.len(),
    decreases edges.len(),
{
    if edges.len() == 0 {
        assert(slots =~= Set::empty());
    } else {
        let last = edges.last() as int;
        let rest = edges.drop_last();
        assert(edges[edges.len() - 1] == last);
        assert(slots.contains(last));
        assert forall|slot: int| #[trigger] slots.remove(last).contains(slot) implies exists|
            i: int,
        |
            0 <= i < rest.len() && #[trigger] rest[i] == slot by {
            let i = choose|i: int| 0 <= i < edges.len() && #[trigger] edges[i] == slot;
            assert(rest[i] == slot);
        }
        assert forall|i: int| 0 <= i < rest.len() implies slots.remove(last).contains(
            #[trigger] rest[i] as int,
        ) by {
            assert(rest[i] == edges[i]);
            assert(edges[i] < edges[edges.len() - 1]);
        }
        list_has_length(rest, slots.remove(last));
    }
}

/// Two lists of one set are the same list.
pub proof fn list_is_unique(a: Seq<EdgeId>, b: Seq<EdgeId>, slots: Set<int>)
    requires
        lists(a, slots),
        lists(b, slots),
        slots.finite(),
    ensures
        a == b,
    decreases a.len(),
{
    list_has_length(a, slots);
    list_has_length(b, slots);
    if a.len() > 0 {
        let last = a.last() as int;
        assert(slots.contains(a[a.len() - 1] as int));
        assert(slots.contains(b[b.len() - 1] as int));
        let i = choose|i: int| 0 <= i < b.len() && #[trigger] b[i] == last;
        let j = choose|j: int| 0 <= j < a.len() && #[trigger] a[j] == b.last();
        assert(a.last() == b.last());
        let rest = slots.remove(last);
        assert(lists(a.drop_last(), rest)) by {
            dropped_list(a, slots);
        }
        assert(lists(b.drop_last(), rest)) by {
            dropped_list(b, slots);
        }
        list_is_unique(a.drop_last(), b.drop_last(), rest);
        assert(a =~= a.drop_last().push(a.last()));
        assert(b =~= b.drop_last().push(b.last()));
    }
}

proof fn dropped_list(edges: Seq<EdgeId>, slots: Set<int>)
    requires
        lists(edges, slots),
        edges.len() > 0,
    ensures
        lists(edges.drop_last(), slots.remove(edges.last() as int)),
{
    let rest = edges.drop_last();
    let last = edges.last() as int;
    assert forall|slot: int| #[trigger] slots.remove(last).contains(slot) implies exists|i: int|
        0 <= i < rest.len() && #[trigger] rest[i] == slot by {
        let i = choose|i: int| 0 <= i < edges.len() && #[trigger] edges[i] == slot;
        assert(rest[i] == slot);
    }
    assert forall|i: int| 0 <= i < rest.len() implies slots.remove(last).contains(
        #[trigger] rest[i] as int,
    ) by {
        assert(rest[i] == edges[i]);
        assert(edges[i] < edges[edges.len() - 1]);
    }
}

proof fn list_grows(edges: Seq<EdgeId>, slots: Set<int>, edge: EdgeId)
    requires
        lists(edges, slots),
        forall|slot: int| #[trigger] slots.contains(slot) ==> slot < edge,
    ensures
        lists(edges.push(edge), slots.insert(edge as int)),
{
    let more = edges.push(edge);
    assert forall|slot: int| #[trigger] slots.insert(edge as int).contains(slot) implies exists|
        i: int,
    |
        0 <= i < more.len() && #[trigger] more[i] == slot by {
        if slot == edge {
            assert(more[edges.len() as int] == slot);
        } else {
            let i = choose|i: int| 0 <= i < edges.len() && #[trigger] edges[i] == slot;
            assert(more[i] == slot);
        }
    }
    assert forall|i: int| 0 <= i < more.len() implies slots.insert(edge as int).contains(
        #[trigger] more[i] as int,
    ) by {
        if i < edges.len() {
            assert(more[i] == edges[i]);
        }
    }
    assert forall|i: int, j: int| 0 <= i < j < more.len() implies more[i] < more[j] by {
        if j == edges.len() {
            assert(more[i] == edges[i]);
            assert(slots.contains(edges[i] as int));
        }
    }
}

/// The edge counts of one execution.
#[derive(Debug)]
pub struct ExecutionCoverage {
    /// Hits per slot.
    pub edge_counts: Vec<u16>,
    /// Number of slots with at least one hit.
    pub edges_hit: usize,
}

impl ExecutionCoverage {
    /// The slots that were hit.
    pub open spec fn hits(self) -> Set<int> {
        hit_slots(self.edge_counts@)
    }

    /// One count per slot, and the number of hit slots is right.
    pub open spec fn wf(self) -> bool {
        &&& self.edge_counts@.len() == COVERAGE_MAP_SIZE
        &&& self.edges_hit == self.hits().len()
    }

    /// Coverage without any hit.
    pub fn new() -> (coverage: Self)
        ensures
            coverage.wf(),
            coverage.edge_counts@ == no_counts(),
            coverage.edges_hit == 0,
    {
        let coverage: ExecutionCoverage = ExecutionCoverage {
            edge_counts: vec![0u16; COVERAGE_MAP_SIZE],
            edges_hit: 0,
        };
        proof {
            assert(coverage.hits() =~= Set::empty());
            assert(coverage.edge_counts@ =~= no_counts());
        }
        coverage
    }

    /// Counts a hit of an edge in its slot; the count stops at its maximum.
    pub fn record_edge(&mut self, edge_id: EdgeId)
        requires
            old(self).wf(),
        ensures
            final(self).wf(),
            final(self).edge_counts@ == counted(old(self).edge_counts@, edge_id),
            final(self).hits() == old(self).hits().insert(slot_of(edge_id)),
    {
        let slot: usize = (edge_id as usize) % COVERAGE_MAP_SIZE;
        let before: u16 = self.edge_counts[slot];
        proof {
            slots_are_finite(self.hits(), COVERAGE_MAP_SIZE as int);
            slots_are_finite(self.hits().insert(slot as int), COVERAGE_MAP_SIZE as int);
        }
        if before == 0 {
            self.edges_hit = self.edges_hit + 1;
        }
        self.edge_counts.set(slot, before.saturating_add(1));
        assert(self.hits() =~= old(self).hits().insert(slot as int));
    }

    /// Sets all counts to zero.
    pub fn reset(&mut self)
        requires
            old(self).wf(),
        ensures
            final(self).wf(),
            final(self).edge_counts@ == no_counts(),
            final(self).edges_hit == 0,
    {
        let mut slot: usize = 0;
        while slot < self.edge_counts.len()
            invariant
                slot <= self.edge_counts@.len() == COVERAGE_MAP_SIZE,
                forall|i: int| 0 <= i < slot ==> self.edge_counts@[i] == 0,
            decreases self.edge_counts@.len() - slot,
        {
            self.edge_counts.set(slot, 0);
            slot = slot + 1;
        }
        self.edges_hit = 0;
        proof {
            assert(self.hits() =~= Set::empty());
            assert(self.edge_counts@ =~= no_counts());
        }
    }
}

impl Default for ExecutionCoverage {
    fn default() -> (coverage: Self)
        ensures
            coverage.wf(),
            coverage.edge_counts@ == no_counts(),
            coverage.edges_hit == 0,
    {
        Self::new()
    }
}

impl Clone for ExecutionCoverage {
    fn clone(&self) -> (copy: Self)
        ensures
            copy.edge_counts@ == self.edge_counts@,
            copy.edges_hit == self.edges_hit,
    {
        ExecutionCoverage {
            edge_counts: vstd::slice::slice_to_vec(self.edge_counts.as_slice()),
            edges_hit: self.edges_hit,
        }
    }
}

/// What a coverage map holds.
pub struct CoverageModel {
    /// The slots seen so far.
    pub seen: Set<int>,
    /// How many inputs added a slot.
    pub interesting: nat,
}

/// The coverage of all executions so far.
#[derive(Debug)]
pub struct CoverageMap {
    bitmap: Vec<u8>,
    total_edges_seen: usize,
    interesting_inputs: usize,
}

impl View for CoverageMap {
    type V = CoverageModel;

    closed spec fn view(&self) -> CoverageModel {
        CoverageModel {
            seen: marked_slots(self.bitmap@),
            interesting: self.interesting_inputs as nat,
        }
    }
}

/// The figures of a coverage map.
#[derive(Debug, Clone, Copy)]
pub struct CoverageStats {
    /// Number of slots seen.
    pub total_edges: usize,
    /// Share of the slots that were seen.
    pub density: Ratio,
    /// Number of inputs that added a slot.
    pub interesting_inputs: usize,
}

/// The share of the bitmap that a number of edges makes up.
pub open spec fn density_of(edges: nat) -> Ratio {
    Ratio { numerator: edges as u128, denominator: COVERAGE_MAP_SIZE as u128 }
}

impl CoverageMap {
    /// The bitmap has its size and holds zeros and ones, its counters are
    /// right, and no more inputs were interesting than there are edges.
    pub closed spec fn wf(self) -> bool {
        &&& self.bitmap@.len() == COVERAGE_MAP_SIZE
        &&& forall|i: int| 0 <= i < self.bitmap@.len() ==> #[trigger] self.bitmap@[i] <= 1
        &&& self.total_edges_seen == self@.seen.len()
        &&& self.interesting_inputs <= self.total_edges_seen
    }

    /// A well-formed map has seen a finite set of slots of the bitmap, and no
    /// more inputs were interesting than there are edges.
    pub proof fn wf_bounds(self)
        requires
            self.wf(),
        ensures
            self@.seen.finite(),
            self@.seen.subset_of(slots_below(COVERAGE_MAP_SIZE as int)),
            self@.seen.len() <= COVERAGE_MAP_SIZE,
            self@.interesting <= self@.seen.len(),
    {
        slots_are_finite(self@.seen, COVERAGE_MAP_SIZE as int);
    }

    /// A map that has seen nothing.
    pub fn new() -> (map: Self)
        ensures
            map.wf(),
            map@.seen == Set::<int>::empty(),
            map@.interesting == 0,
    {
        let map: CoverageMap = CoverageMap {
            bitmap: vec![0u8; COVERAGE_MAP_SIZE],
            total_edges_seen: 0,
            interesting_inputs: 0,
        };
        assert(map@.seen =~= Set::empty());
        map
    }

    /// The edges of an execution that the map has not seen.
    pub fn new_edges(&self, exec: &ExecutionCoverage) -> (new: Vec<EdgeId>)
        requires
            self.wf(),
            exec.edge_counts@.len() <= COVERAGE_MAP_SIZE,
        ensures
            lists(new@, exec.hits().difference(self@.seen)),
    {
        let mut new: Vec<EdgeId> = Vec::new();
        let mut slot: usize = 0;
        let ghost mut found: Set<int> = Set::empty();
        while slot < exec.edge_counts.len()
            invariant
                self.wf(),
                slot <= exec.edge_counts@.len() <= COVERAGE_MAP_SIZE,
                found == exec.hits().difference(self@.seen).intersect(slots_below(slot as int)),
                lists(new@, found),
            decreases exec.edge_counts@.len() - slot,
        {
            if exec.edge_counts[slot] > 0 && self.bitmap[slot] == 0 {
                proof {
                    list_grows(new@, found, slot as EdgeId);
                    found = found.insert(slot as int);
                }
                new.push(slot as EdgeId);
            }
            slot = slot + 1;
            assert(found =~= exec.hits().difference(self@.seen).intersect(
                slots_below(slot as int),
            ));
        }
        assert(found =~= exec.hits().difference(self@.seen));
        new
    }

    /// Adds the edges of an execution to the map and returns those that it had
    /// not seen.
    pub fn merge(&mut self, exec: &ExecutionCoverage) -> (new: Vec<EdgeId>)
        requires
            old(self).wf(),
            exec.edge_counts@.len() <= COVERAGE_MAP_SIZE,
        ensures
            final(self).wf(),
            lists(new@, exec.hits().difference(old(self)@.seen)),
            final(self)@.seen == old(self)@.seen.union(exec.hits()),
            final(self)@.interesting == old(self)@.interesting + (if new@.len() > 0 {
                1nat
            } else {
                0
            }),
    {
        let new: Vec<EdgeId> = self.new_edges(exec);
        let mut next: usize = 0;
        while next < new.len()
            invariant
                lists(new@, exec.hits().difference(old(self)@.seen)),
                exec.edge_counts@.len() <= COVERAGE_MAP_SIZE,
                next <= new@.len(),
                self.bitmap@.len() == COVERAGE_MAP_SIZE,
                forall|i: int| 0 <= i < self.bitmap@.len() ==> #[trigger] self.bitmap@[i] <= 1,
                self.total_edges_seen == self@.seen.len(),
                self.total_edges_seen == old(self).total_edges_seen + next,
                self.interesting_inputs == old(self).interesting_inputs,
                forall|slot: int| #[trigger]
                    self@.seen.contains(slot) <==> old(self)@.seen.contains(slot) || exists|i: int|
                        0 <= i < next && #[trigger] new@[i] == slot,
            decreases new@.len() - next,
        {
            let slot: usize = new[next] as usize;
            let ghost before = self@.seen;
            proof {
                slots_are_finite(before, COVERAGE_MAP_SIZE as int);
                assert(exec.hits().difference(old(self)@.seen).contains(
                    new@[next as int] as int,
                ));
                assert(!before.contains(slot as int)) by {
                    if exists|i: int| 0 <= i < next && #[trigger] new@[i] == slot {
                        let i = choose|i: int| 0 <= i < next && #[trigger] new@[i] == slot;
                        assert(new@[i] < new@[next as int]);
                    }
                }
                slots_are_finite(before.insert(slot as int), COVERAGE_MAP_SIZE as int);
            }
            self.bitmap.set(slot, 1);
            assert(self@.seen =~= before.insert(slot as int));
            self.total_edges_seen = self.total_edges_seen + 1;
            proof {
                assert forall|s: int| #[trigger]
                    self@.seen.contains(s) implies old(self)@.seen.contains(s) || exists|i: int|
                    0 <= i < next + 1 && #[trigger] new@[i] == s by {
                    if s == slot {
                        assert(new@[next as int] == s);
                    } else {
                        assert(before.contains(s));
                        if !old(self)@.seen.contains(s) {
                            let i = choose|i: int| 0 <= i < next && #[trigger] new@[i] == s;
                            assert(new@[i] == s);
                        }
                    }
                }
                assert forall|s: int|
                    (old(self)@.seen.contains(s) || exists|i: int|
                        0 <= i < next + 1 && #[trigger] new@[i] == s) implies #[trigger] self@
                    .seen.contains(s) by {
                    if s != slot && !old(self)@.seen.contains(s) {
                        let i = choose|i: int| 0 <= i < next + 1 && #[trigger] new@[i] == s;
                        assert(i < next);
                        assert(before.contains(s));
                    } else if s != slot {
                        assert(before.contains(s));
                    }
                }
            }
            next = next + 1;
        }
        proof {
            slots_are_finite(self@.seen, COVERAGE_MAP_SIZE as int);
            assert(self@.seen =~= old(self)@.seen.union(exec.hits())) by {
                assert forall|s: int| self@.seen.contains(s) == old(self)@.seen.union(
                    exec.hits(),
                ).contains(s) by {
                    if self@.seen.contains(s) && !old(self)@.seen.contains(s) {
                        let i = choose|i: int| 0 <= i < next && #[trigger] new@[i] == s;
                        assert(exec.hits().difference(old(self)@.seen).contains(new@[i] as int));
                    }
                    if exec.hits().contains(s) && !old(self)@.seen.contains(s) {
                        assert(exec.hits().difference(old(self)@.seen).contains(s));
                    }
                }
            }
        }
        if new.len() > 0 {
            self.interesting_inputs = self.interesting_inputs + 1;
        }
        new
    }

    /// Number of inputs that added a slot.
    pub fn interesting_input_count(&self) -> (count: usize)
        ensures
            count == self@.interesting,
    {
        self.interesting_inputs
    }

    /// The share of the slots that were seen.
    pub fn density(&self) -> (density: Ratio)
        requires
            self.wf(),
        ensures
            density == density_of(self@.seen.len()),
            density.numerator == self@.seen.len(),
            density.numerator <= density.denominator,
    {
        proof {
            self.wf_bounds();
        }
        Ratio { numerator: self.total_edges_seen as u128, denominator: COVERAGE_MAP_SIZE as u128 }
    }

    /// The bitmap: a one in each slot that was seen, a zero in the others.
    pub fn bitmap_snapshot(&self) -> (bitmap: Vec<u8>)
        requires
            self.wf(),
        ensures
            bitmap@ == Seq::new(
                COVERAGE_MAP_SIZE as nat,
                |slot: int|
                    if self@.seen.contains(slot) {
                        1u8
                    } else {
                        0u8
                    },
            ),
    {
        vstd::slice::slice_to_vec(self.bitmap.as_slice())
    }

    /// Number of slots seen.
    pub fn total_edges(&self) -> (edges: usize)
        requires
            self.wf(),
        ensures
            edges == self@.seen.len(),
    {
        self.total_edges_seen
    }

    /// Forgets all coverage.
    pub fn reset(&mut self)
        ensures
            final(self).wf(),
            final(self)@.seen == Set::<int>::empty(),
            final(self)@.interesting == 0,
    {
        self.bitmap = vec![0u8; COVERAGE_MAP_SIZE];
        self.total_edges_seen = 0;
        self.interesting_inputs = 0;
        assert(self@.seen =~= Set::empty());
    }

    /// The figures of the map.
    pub fn stats(&self) -> (stats: CoverageStats)
        requires
            self.wf(),
        ensures
            stats.total_edges == self@.seen.len(),
            stats.density == density_of(self@.seen.len()),
            stats.interesting_inputs == self@.interesting,
    {
        CoverageStats {
            total_edges: self.total_edges(),
            density: self.density(),
            interesting_inputs: self.interesting_input_count(),
        }
    }
}

impl Default for CoverageMap {
    fn default() -> (map: Self)
        ensures
            map.wf(),
            map@.seen == Set::<int>::empty(),
            map@.interesting == 0,
    {
        Self::new()
    }
}

/// Merging an execution a second time finds nothing new and changes nothing.
pub proof fn second_merge_finds_nothing(seen: Set<int>, hits: Set<int>)
    ensures
        hits.difference(seen.union(hits)) == Set::<int>::empty(),
        seen.union(hits).union(hits) == seen.union(hits),
        forall|edges: Seq<EdgeId>| #[trigger]
            lists(edges, hits.difference(seen.union(hits))) ==> edges.len() == 0,
{
    let none = hits.difference(seen.union(hits));
    assert(none =~= Set::empty());
    assert(seen.union(hits).union(hits) =~= seen.union(hits));
    assert forall|edges: Seq<EdgeId>| #[trigger] lists(edges, none) implies edges.len() == 0 by {
        if edges.len() > 0 {
            assert(none.contains(edges[0] as int));
        }
    }
}

/// What merges have seen does not depend on their order.
pub proof fn merges_commute(seen: Set<int>, a: Set<int>, b: Set<int>)
    ensures
        seen.union(a).union(b) == seen.union(b).union(a),
{
    assert(seen.union(a).union(b) =~= seen.union(b).union(a));
}

/// A merge never lowers the number of edges, and raises it by as many as it
/// returns: an input is interesting exactly when it raises it.
pub proof fn merge_counts_new_edges(seen: Set<int>, hits: Set<int>, new: Seq<EdgeId>)
    requires
        seen.finite(),
        hits.finite(),
        lists(new, hits.difference(seen)),
    ensures
        seen.union(hits).len() == seen.len() + new.len(),
{
    list_has_length(new, hits.difference(seen));
    assert(seen.union(hits) =~= seen.union(hits.difference(seen)));
    assert(seen.disjoint(hits.difference(seen)));
    lemma_set_disjoint_lens(seen, hits.difference(seen));
}

/// The slots that counting some edges hits are the slots of these edges.
pub proof fn counting_hits_the_slots(edges: Seq<EdgeId>)
    ensures
        all_counted(no_counts(), edges).len() == COVERAGE_MAP_SIZE,
        forall|slot: int| #[trigger]
            hit_slots(all_counted(no_counts(), edges)).contains(slot) <==> exists|i: int|
                0 <= i < edges.len() && slot_of(#[trigger] edges[i]) == slot,
    decreases edges.len(),
{
    if edges.len() > 0 {
        let rest = edges.drop_last();
        let last = edges.last();
        counting_hits_the_slots(rest);
        let before = hit_slots(all_counted(no_counts(), rest));
        let after = hit_slots(all_counted(no_counts(), edges));
        assert(after =~= before.insert(slot_of(last)));
        assert forall|slot: int| #[trigger] after.contains(slot) implies exists|i: int|
            0 <= i < edges.len() && slot_of(#[trigger] edges[i]) == slot by {
            if slot == slot_of(last) {
                assert(slot_of(edges[edges.len() - 1]) == slot);
            } else {
                assert(before.contains(slot));
                let i = choose|i: int| 0 <= i < rest.len() && slot_of(#[trigger] rest[i]) == slot;
                assert(slot_of(edges[i]) == slot);
            }
        }
        assert forall|slot: int|
            (exists|i: int| 0 <= i < edges.len() && slot_of(#[trigger] edges[i]) == slot) implies
            #[trigger] after.contains(slot) by {
            let i = choose|i: int| 0 <= i < edges.len() && slot_of(#[trigger] edges[i]) == slot;
            if i < rest.len() {
                assert(slot_of(rest[i]) == slot);
                assert(before.contains(slot));
            }
        }
    }
}

/// Edges below the size of the map have slots of their own, and larger ones share
/// them with their remainder.
pub proof fn small_edges_have_slots_of_their_own(a: EdgeId, b: EdgeId)
    ensures
        a < 65536 ==> slot_of(a) == a,
        0 <= slot_of(a) < 65536,
        (a - b) % 65536 == 0 <==> slot_of(a) == slot_of(b),
{
}

/// How often a slot was hit is counted, up to the most that can be held.
pub proof fn hits_are_counted(edges: Seq<EdgeId>, slot: int)
    requires
        0 <= slot < 65536,
    ensures
        all_counted(no_counts(), edges).len() == 65536,
        all_counted(no_counts(), edges)[slot] == (if hits_of(edges, slot) > u16::MAX {
            u16::MAX as nat
        } else {
            hits_of(edges, slot)
        }),
    decreases edges.len(),
{
    if edges.len() > 0 {
        hits_are_counted(edges.drop_last(), slot);
    }
}

/// How many of some edges have a slot.
pub open spec fn hits_of(edges: Seq<EdgeId>, slot: int) -> nat
    decreases edges.len(),
{
    if edges.len() == 0 {
        0
    } else {
        hits_of(edges.drop_last(), slot) + (if edges.last() % 65536 == slot {
            1nat
        } else {
            0
        })
    }
}

}
