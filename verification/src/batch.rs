//! The write batch: per-worker accumulation, two-level flushing with
//! back-pressure by capacity, blob spill, shared sequence numbers, and the
//! `finish` that emits every staged entry as key-sorted SST artifacts.

use vstd::prelude::*;

use crate::blob::{blob_frame, encode_blob};
use crate::collector::{sum_inline_bytes, sum_key_bytes, Collector};
use crate::constants::{
    GLOBAL_COLLECTOR_SIZE_SHIFT, MAX_BLOB_VALUE_SIZE, MAX_ENTRY_COST, MAX_MEDIUM_VALUE_SIZE,
    MAX_SMALL_VALUE_SIZE, THREAD_LOCAL_SIZE_SHIFT,
};
use crate::entry::{entries_sorted, evs, Entry, EntryValue, EntryView, EntryValueView};
use crate::error::BatchError;
use vstd::multiset::Multiset;
use vstd::pervasive::VecAdditionalExecFns;

verus! {

/// One SST artifact as the batch hands it to the SST builder: a family, the
/// key-sorted entries, and the byte totals the builder pre-sizes with. The
/// sequence number names the artifact's file.
pub struct SstFile {
    pub sequence_number: u32,
    pub family: u32,
    pub entries: Vec<Entry>,
    pub total_key_size: usize,
    pub total_value_size: usize,
}

/// One blob artifact: the framed bytes of one oversized value. The
/// sequence number names the artifact's file.
pub struct BlobFile {
    pub sequence_number: u32,
    pub data: Vec<u8>,
}

/// What one `finish` returns: the final sequence number and every artifact
/// the batch produced since it was created or last reset.
pub struct FinishResult {
    pub sequence_number: u32,
    pub new_sst_files: Vec<SstFile>,
    pub new_blob_files: Vec<BlobFile>,
}

/// The per-worker state: one optional collector per family.
pub struct ThreadLocalState {
    pub collectors: Vec<Option<Collector>>,
}

/// A well-formed SST: sorted by key, a valid family, and totals that match
/// its entries.
pub open spec fn sst_wf(s: SstFile, families: int) -> bool {
    &&& entries_sorted(evs(s.entries@))
    &&& (s.family as int) < families
    &&& s.total_key_size == sum_key_bytes(evs(s.entries@))
    &&& s.total_value_size == sum_inline_bytes(evs(s.entries@))
}

/// The multiset of entries one SST holds.
pub open spec fn sst_mset(s: SstFile) -> Multiset<EntryView> {
    evs(s.entries@).to_multiset()
}

/// The multiset of entries that the SSTs of one family hold together.
pub open spec fn ssts_family_mset(ssts: Seq<SstFile>, f: int) -> Multiset<EntryView>
    decreases ssts.len(),
{
    if ssts.len() == 0 {
        Multiset::empty()
    } else {
        ssts_family_mset(ssts.drop_last(), f).add(
            if ssts.last().family as int == f {
                sst_mset(ssts.last())
            } else {
                Multiset::empty()
            },
        )
    }
}

/// Appending an SST adds its entries to its own family and nothing to the
/// others.
pub proof fn lemma_ssts_family_mset_push(ssts: Seq<SstFile>, s: SstFile, f: int)
    ensures
        s.family as int == f ==> ssts_family_mset(ssts.push(s), f) == ssts_family_mset(
            ssts,
            f,
        ).add(sst_mset(s)),
        s.family as int != f ==> ssts_family_mset(ssts.push(s), f) == ssts_family_mset(ssts, f),
{
    assert(ssts.push(s).drop_last() =~= ssts);
    if s.family as int != f {
        assert(ssts_family_mset(ssts, f).add(Multiset::empty()) =~= ssts_family_mset(ssts, f));
    }
}

/// The entries a possibly absent collector holds.
pub open spec fn slot_mset(o: Option<Collector>) -> Multiset<EntryView> {
    match o {
        Some(c) => c@.to_multiset(),
        None => Multiset::empty(),
    }
}

/// The number of entries a possibly absent collector holds.
pub open spec fn slot_len(o: Option<Collector>) -> nat {
    match o {
        Some(c) => c@.len(),
        None => 0,
    }
}

/// Whether a slot holds a collector.
pub open spec fn slot_present(o: Option<Collector>) -> nat {
    match o {
        Some(_) => 1nat,
        None => 0,
    }
}

/// How many slots of one worker state hold a collector.
pub open spec fn slots_present(s: Seq<Option<Collector>>) -> nat
    decreases s.len(),
{
    if s.len() == 0 {
        0
    } else {
        slots_present(s.drop_last()) + slot_present(s.last())
    }
}

/// How many collectors all worker states hold together.
pub open spec fn tl_present(ts: Seq<ThreadLocalState>) -> nat
    decreases ts.len(),
{
    if ts.len() == 0 {
        0
    } else {
        tl_present(ts.drop_last()) + slots_present(ts.last().collectors@)
    }
}

/// Replacing one family's slot trades its old occupancy for the new.
pub proof fn lemma_slots_present_update(s: Seq<Option<Collector>>, f: int, o: Option<Collector>)
    requires
        0 <= f < s.len(),
    ensures
        slots_present(s.update(f, o)) + slot_present(s[f]) == slots_present(s) + slot_present(o),
    decreases s.len(),
{
    let s2 = s.update(f, o);
    if f == s.len() - 1 {
        assert(s2.drop_last() =~= s.drop_last());
        assert(s2.last() == o);
    } else {
        assert(s2.drop_last() =~= s.drop_last().update(f, o));
        assert(s2.last() == s.last());
        lemma_slots_present_update(s.drop_last(), f, o);
        assert(s.drop_last()[f] == s[f]);
    }
}

/// Replacing one worker's state trades its old occupancy for the new.
pub proof fn lemma_tl_present_update(ts: Seq<ThreadLocalState>, t: int, st: ThreadLocalState)
    requires
        0 <= t < ts.len(),
    ensures
        tl_present(ts.update(t, st)) + slots_present(ts[t].collectors@) == tl_present(ts)
            + slots_present(st.collectors@),
    decreases ts.len(),
{
    let ts2 = ts.update(t, st);
    if t == ts.len() - 1 {
        assert(ts2.drop_last() =~= ts.drop_last());
        assert(ts2.last() == st);
    } else {
        assert(ts2.drop_last() =~= ts.drop_last().update(t, st));
        assert(ts2.last() == ts.last());
        lemma_tl_present_update(ts.drop_last(), t, st);
        assert(ts.drop_last()[t] == ts[t]);
    }
}

/// A worker state never holds more collectors than it has slots.
pub proof fn lemma_slots_present_le(s: Seq<Option<Collector>>)
    ensures
        slots_present(s) <= s.len(),
    decreases s.len(),
{
    if s.len() > 0 {
        lemma_slots_present_le(s.drop_last());
    }
}

/// A worker state with an empty slot holds strictly fewer collectors than
/// it has slots.
pub proof fn lemma_slots_present_without(s: Seq<Option<Collector>>, f: int)
    requires
        0 <= f < s.len(),
        s[f] is None,
    ensures
        slots_present(s) + 1 <= s.len(),
    decreases s.len(),
{
    if f == s.len() - 1 {
        lemma_slots_present_le(s.drop_last());
    } else {
        lemma_slots_present_without(s.drop_last(), f);
        assert(s.drop_last()[f] == s[f]);
    }
}

/// All worker states together never hold more collectors than one per
/// worker and family.
pub proof fn lemma_tl_present_le(ts: Seq<ThreadLocalState>, families: nat)
    requires
        forall|t: int| 0 <= t < ts.len() ==> (#[trigger] ts[t]).collectors@.len() == families,
    ensures
        tl_present(ts) <= ts.len() * families,
    decreases ts.len(),
{
    if ts.len() > 0 {
        lemma_tl_present_le(ts.drop_last(), families);
        lemma_slots_present_le(ts.last().collectors@);
        assert((ts.len() - 1) * families + families == ts.len() * families) by (nonlinear_arith);
    }
}

/// With one slot known empty, all worker states together hold strictly
/// fewer collectors than one per worker and family.
pub proof fn lemma_tl_present_without_slot(
    ts: Seq<ThreadLocalState>,
    t: int,
    f: int,
    families: nat,
)
    requires
        forall|t2: int| 0 <= t2 < ts.len() ==> (#[trigger] ts[t2]).collectors@.len() == families,
        0 <= t < ts.len(),
        0 <= f < families,
        ts[t].collectors@[f] is None,
    ensures
        tl_present(ts) + 1 <= ts.len() * families,
    decreases ts.len(),
{
    if t == ts.len() - 1 {
        lemma_tl_present_le(ts.drop_last(), families);
        lemma_slots_present_without(ts.last().collectors@, f);
        assert((ts.len() - 1) * families + families == ts.len() * families) by (nonlinear_arith);
    } else {
        lemma_tl_present_without_slot(ts.drop_last(), t, f, families);
        assert(ts.drop_last()[t] == ts[t]);
        lemma_slots_present_le(ts.last().collectors@);
        assert((ts.len() - 1) * families + families == ts.len() * families) by (nonlinear_arith);
    }
}

/// The entries staged for family `f` across all worker states.
pub open spec fn tl_family_mset(ts: Seq<ThreadLocalState>, f: int) -> Multiset<EntryView>
    decreases ts.len(),
{
    if ts.len() == 0 {
        Multiset::empty()
    } else {
        tl_family_mset(ts.drop_last(), f).add(slot_mset(ts.last().collectors@[f]))
    }
}

/// The number of entries one worker state holds over all families.
pub open spec fn slots_len_total(s: Seq<Option<Collector>>) -> nat
    decreases s.len(),
{
    if s.len() == 0 {
        0
    } else {
        slots_len_total(s.drop_last()) + slot_len(s.last())
    }
}

/// The number of entries staged across all worker states and families.
pub open spec fn tl_len_total(ts: Seq<ThreadLocalState>) -> nat
    decreases ts.len(),
{
    if ts.len() == 0 {
        0
    } else {
        tl_len_total(ts.drop_last()) + slots_len_total(ts.last().collectors@)
    }
}

/// Appending a worker state adds its staged entries to the totals.
pub proof fn lemma_tl_push(ts: Seq<ThreadLocalState>, st: ThreadLocalState, f: int)
    ensures
        tl_family_mset(ts.push(st), f) == tl_family_mset(ts, f).add(slot_mset(st.collectors@[f])),
        tl_len_total(ts.push(st)) == tl_len_total(ts) + slots_len_total(st.collectors@),
        tl_present(ts.push(st)) == tl_present(ts) + slots_present(st.collectors@),
{
    assert(ts.push(st).drop_last() =~= ts);
}

/// Replacing one worker's state trades its old staged entries for the new.
pub proof fn lemma_tl_family_mset_update(
    ts: Seq<ThreadLocalState>,
    t: int,
    st: ThreadLocalState,
    f: int,
)
    requires
        0 <= t < ts.len(),
    ensures
        tl_family_mset(ts.update(t, st), f).add(slot_mset(ts[t].collectors@[f]))
            == tl_family_mset(ts, f).add(slot_mset(st.collectors@[f])),
    decreases ts.len(),
{
    let ts2 = ts.update(t, st);
    if t == ts.len() - 1 {
        assert(ts2.drop_last() =~= ts.drop_last());
        assert(ts2.last() == st);
        assert(tl_family_mset(ts.drop_last(), f).add(slot_mset(st.collectors@[f])).add(
            slot_mset(ts[t].collectors@[f]),
        ) =~= tl_family_mset(ts.drop_last(), f).add(slot_mset(ts[t].collectors@[f])).add(
            slot_mset(st.collectors@[f]),
        ));
    } else {
        assert(ts2.drop_last() =~= ts.drop_last().update(t, st));
        assert(ts2.last() == ts.last());
        lemma_tl_family_mset_update(ts.drop_last(), t, st, f);
        assert(ts.drop_last()[t] == ts[t]);
        let a = tl_family_mset(ts.drop_last().update(t, st), f);
        let b = slot_mset(ts.last().collectors@[f]);
        let c = slot_mset(ts[t].collectors@[f]);
        let d = tl_family_mset(ts.drop_last(), f);
        let e = slot_mset(st.collectors@[f]);
        assert(a.add(b).add(c) =~= a.add(c).add(b));
        assert(a.add(c) == d.add(e));
        assert(d.add(e).add(b) =~= d.add(b).add(e));
    }
}

/// Replacing one worker's state trades its old entry count for the new.
pub proof fn lemma_tl_len_total_update(ts: Seq<ThreadLocalState>, t: int, st: ThreadLocalState)
    requires
        0 <= t < ts.len(),
    ensures
        tl_len_total(ts.update(t, st)) + slots_len_total(ts[t].collectors@) == tl_len_total(ts)
            + slots_len_total(st.collectors@),
    decreases ts.len(),
{
    let ts2 = ts.update(t, st);
    if t == ts.len() - 1 {
        assert(ts2.drop_last() =~= ts.drop_last());
        assert(ts2.last() == st);
    } else {
        assert(ts2.drop_last() =~= ts.drop_last().update(t, st));
        assert(ts2.last() == ts.last());
        lemma_tl_len_total_update(ts.drop_last(), t, st);
        assert(ts.drop_last()[t] == ts[t]);
    }
}

/// Replacing one family's slot in a worker state trades its old entry count
/// for the new.
pub proof fn lemma_slots_len_update(s: Seq<Option<Collector>>, f: int, o: Option<Collector>)
    requires
        0 <= f < s.len(),
    ensures
        slots_len_total(s.update(f, o)) + slot_len(s[f]) == slots_len_total(s) + slot_len(o),
    decreases s.len(),
{
    let s2 = s.update(f, o);
    if f == s.len() - 1 {
        assert(s2.drop_last() =~= s.drop_last());
        assert(s2.last() == o);
    } else {
        assert(s2.drop_last() =~= s.drop_last().update(f, o));
        assert(s2.last() == s.last());
        lemma_slots_len_update(s.drop_last(), f, o);
        assert(s.drop_last()[f] == s[f]);
    }
}

proof fn lemma_all_none_slots(s: Seq<Option<Collector>>)
    requires
        forall|g: int| 0 <= g < s.len() ==> (#[trigger] s[g]) is None,
    ensures
        slots_len_total(s) == 0,
        slots_present(s) == 0,
    decreases s.len(),
{
    if s.len() > 0 {
        lemma_all_none_slots(s.drop_last());
    }
}

/// A shared collector at rest: well formed, of the shared capacity class,
/// and below its threshold (a full one is swapped out at once).
pub open spec fn shared_ok(c: Collector) -> bool {
    &&& c.wf()
    &&& c.size_shift == GLOBAL_COLLECTOR_SIZE_SHIFT
    &&& !c.spec_is_full()
}

/// A worker's slot at rest: absent, or a well-formed, non-empty collector
/// of the worker capacity class.
pub open spec fn tl_slot_ok(o: Option<Collector>) -> bool {
    match o {
        None => true,
        Some(c) => c.wf() && c.size_shift == THREAD_LOCAL_SIZE_SHIFT && c@.len() > 0,
    }
}

/// A worker state at rest: one slot per family, each slot sane.
pub open spec fn tl_state_ok(st: ThreadLocalState, families: int) -> bool {
    &&& st.collectors@.len() == families
    &&& forall|f: int| 0 <= f < families ==> tl_slot_ok(#[trigger] st.collectors@[f])
}

/// A pooled collector: well formed, of the given class, and empty.
pub open spec fn idle_ok(c: Collector, shift: u32) -> bool {
    c.wf() && c.size_shift == shift && c@.len() == 0
}

} // verus!

verus! {

/// An empty sequence of entries holds the empty multiset.
pub proof fn lemma_empty_seq_mset()
    ensures
        Seq::<EntryView>::empty().to_multiset() == Multiset::<EntryView>::empty(),
{
    broadcast use vstd::seq_lib::group_to_multiset_ensures;

    assert(Seq::<EntryView>::empty().to_multiset() =~= Multiset::<EntryView>::empty());
}

/// A capacity threshold is at least one byte.
pub proof fn lemma_threshold_positive(s: u32)
    requires
        s < 30,
    ensures
        (1usize << s) >= 1,
{
    assert((1usize << s) >= 1) by (bit_vector)
        requires
            s < 30,
    ;
}

/// The write batch: the orchestration layer over the per-worker collectors,
/// the per-family shared collectors, the idle pools, and the artifacts
/// emitted so far. Worker identity is an explicit index; the surrounding
/// program hands each thread its own.
pub struct WriteBatch {
    /// Number of column families; fixed at construction.
    pub families: usize,
    /// The sequence counter shared by SSTs and blobs; the next artifact gets
    /// the next value.
    pub current_sequence_number: u32,
    /// One state per worker, grown on first touch.
    pub thread_locals: Vec<ThreadLocalState>,
    /// The per-family shared collectors the worker collectors drain into.
    pub collectors: Vec<Collector>,
    /// SSTs emitted so far, in ascending sequence order.
    pub new_sst_files: Vec<SstFile>,
    /// Blobs emitted so far, in creation order.
    pub new_blob_files: Vec<BlobFile>,
    /// Cleared shared-class collectors kept for reuse.
    pub idle_collectors: Vec<Collector>,
    /// Cleared worker-class collectors kept for reuse.
    pub idle_thread_local_collectors: Vec<Collector>,
    /// The sequence number the batch started from (set by `new` and
    /// `reset`); artifacts are stamped strictly above it.
    pub initial_sequence_number: Ghost<u32>,
    /// Per family, the multiset of entries this batch has accepted and not
    /// yet handed out through `finish`.
    pub history: Ghost<Seq<Multiset<EntryView>>>,
    /// Whether the batch accepts mutations: `new` and `reset` make it
    /// active, `finish` ends it.
    pub active: Ghost<bool>,
    /// How many worker-class collectors were ever allocated.
    pub thread_local_collector_allocations: Ghost<nat>,
    /// How many shared-class collectors were ever allocated.
    pub shared_collector_allocations: Ghost<nat>,
}

impl WriteBatch {
    /// Bookkeeping of the artifacts emitted so far: SSTs are well formed and
    /// in strictly ascending sequence order, every artifact's sequence
    /// number is above the initial one and at most the counter, and no two
    /// artifacts share one.
    pub open spec fn artifacts_ok(self) -> bool {
        let ssts = self.new_sst_files@;
        let blobs = self.new_blob_files@;
        &&& (forall|i: int|
            0 <= i < ssts.len() ==> sst_wf(#[trigger] ssts[i], self.families as int))
        &&& (forall|i: int|
            0 <= i < ssts.len() ==> self.initial_sequence_number@ < (#[trigger] ssts[i]).sequence_number
                <= self.current_sequence_number)
        &&& (forall|i: int, j: int|
            #![trigger ssts[i], ssts[j]]
            0 <= i < j < ssts.len() ==> ssts[i].sequence_number < ssts[j].sequence_number)
        &&& (forall|i: int|
            0 <= i < blobs.len() ==> self.initial_sequence_number@ < (#[trigger] blobs[i]).sequence_number
                <= self.current_sequence_number)
        &&& (forall|i: int, j: int|
            #![trigger blobs[i], blobs[j]]
            0 <= i < j < blobs.len() ==> blobs[i].sequence_number != blobs[j].sequence_number)
        &&& (forall|i: int, j: int|
            #![trigger ssts[i], blobs[j]]
            0 <= i < ssts.len() && 0 <= j < blobs.len() ==> ssts[i].sequence_number
                != blobs[j].sequence_number)
        &&& self.initial_sequence_number@ <= self.current_sequence_number
    }

    /// The structural parts of the invariant: sizes, classes and capacity
    /// states of every collector and pool.
    pub open spec fn structure_ok(self) -> bool {
        &&& self.families <= u32::MAX
        &&& self.collectors@.len() == self.families as int
        &&& (forall|f: int|
            0 <= f < self.families as int ==> shared_ok(#[trigger] self.collectors@[f]))
        &&& (forall|t: int|
            0 <= t < self.thread_locals@.len() ==> tl_state_ok(
                #[trigger] self.thread_locals@[t],
                self.families as int,
            ))
        &&& (forall|i: int|
            0 <= i < self.idle_collectors@.len() ==> idle_ok(
                #[trigger] self.idle_collectors@[i],
                GLOBAL_COLLECTOR_SIZE_SHIFT,
            ))
        &&& (forall|i: int|
            0 <= i < self.idle_thread_local_collectors@.len() ==> idle_ok(
                #[trigger] self.idle_thread_local_collectors@[i],
                THREAD_LOCAL_SIZE_SHIFT,
            ))
    }

    /// Conservation: per family, the accepted entries are exactly those
    /// staged in worker collectors, staged in the shared collector, or
    /// already emitted in SSTs.
    pub open spec fn history_ok(self) -> bool {
        &&& self.history@.len() == self.families as int
        &&& (forall|f: int|
            0 <= f < self.families as int ==> #[trigger] self.history@[f] == tl_family_mset(
                self.thread_locals@,
                f,
            ).add(self.collectors@[f]@.to_multiset()).add(
                ssts_family_mset(self.new_sst_files@, f),
            ))
    }

    /// Pool reuse: no collector is ever deallocated — every one allocated
    /// is live in a worker slot, a shared seat or a pool — the worker-class
    /// allocations never exceed one collector per worker and family, and
    /// the shared idle pool never grows past two collectors, so shared
    /// allocations stay within two of the family count. Acquiring from a
    /// non-empty pool allocates nothing.
    pub open spec fn allocations_ok(self) -> bool {
        &&& self.thread_local_collector_allocations@ == tl_present(self.thread_locals@)
            + self.idle_thread_local_collectors@.len()
        &&& self.thread_local_collector_allocations@ <= self.thread_locals@.len() * self.families
        &&& self.shared_collector_allocations@ == self.families + self.idle_collectors@.len()
        &&& self.idle_collectors@.len() <= 2
    }

    /// The batch invariant.
    pub open spec fn inv(self) -> bool {
        &&& self.structure_ok()
        &&& self.artifacts_ok()
        &&& self.history_ok()
        &&& self.allocations_ok()
    }

    /// Entries currently staged in one worker's collector for one family.
    pub open spec fn tl_pending(self, thread: int, family: int) -> nat {
        if 0 <= thread < self.thread_locals@.len() && 0 <= family
            < self.thread_locals@[thread].collectors@.len() {
            slot_len(self.thread_locals@[thread].collectors@[family])
        } else {
            0
        }
    }

    /// Capacity cost (key plus inline value bytes) currently staged in one
    /// worker's collector for one family: what decides the next flush.
    pub open spec fn tl_pending_cost(self, thread: int, family: int) -> nat {
        if 0 <= thread < self.thread_locals@.len() && 0 <= family
            < self.thread_locals@[thread].collectors@.len() {
            match self.thread_locals@[thread].collectors@[family] {
                Some(c) => c.total_cost(),
                None => 0,
            }
        } else {
            0
        }
    }

    /// Entries currently staged in all worker collectors.
    pub open spec fn staged_total(self) -> nat {
        tl_len_total(self.thread_locals@)
    }

    /// Law: one worker's pending entries for one family are within the
    /// staged total, so headroom over the staged total gives headroom for
    /// any single mutation.
    pub proof fn lemma_tl_pending_le_staged(self, thread: int, family: int)
        ensures
            self.tl_pending(thread, family) <= self.staged_total(),
    {
        if 0 <= thread < self.thread_locals@.len() && 0 <= family
            < self.thread_locals@[thread].collectors@.len() {
            lemma_tl_len_total_component(self.thread_locals@, thread);
            lemma_slots_len_component(self.thread_locals@[thread].collectors@, family);
        }
    }

    /// Everything emitted and staged has been handed out: the state `reset`
    /// expects after a `finish`.
    pub open spec fn drained(self) -> bool {
        &&& self.new_sst_files@.len() == 0
        &&& self.new_blob_files@.len() == 0
        &&& (forall|f: int|
            0 <= f < self.families as int ==> #[trigger] self.history@[f] == Multiset::<
                EntryView,
            >::empty())
    }

    /// Creates a new write batch of `families` column families, counting
    /// artifacts from the caller-supplied sequence number.
    pub fn new(families: usize, current: u32) -> (r: WriteBatch)
        requires
            families <= u32::MAX,
        ensures
            r.inv(),
            r.active@,
            r.families == families,
            r.current_sequence_number == current,
            r.initial_sequence_number@ == current,
            r.drained(),
            r.staged_total() == 0,
            r.thread_locals@.len() == 0,
            r.idle_collectors@.len() == 0,
            r.idle_thread_local_collectors@.len() == 0,
            r.thread_local_collector_allocations@ == 0,
            r.shared_collector_allocations@ == families,
            r.new_sst_files@.len() == 0,
    {
        let mut collectors: Vec<Collector> = Vec::new();
        while collectors.len() < families
            invariant
                collectors@.len() <= families,
                forall|f: int| 0 <= f < collectors@.len() ==> shared_ok(#[trigger] collectors@[f]),
                forall|f: int|
                    0 <= f < collectors@.len() ==> (#[trigger] collectors@[f])@.len() == 0,
            decreases families - collectors.len(),
        {
            let c = Collector::new(GLOBAL_COLLECTOR_SIZE_SHIFT);
            proof {
                lemma_threshold_positive(GLOBAL_COLLECTOR_SIZE_SHIFT);
            }
            collectors.push(c);
        }
        let ghost history = Seq::new(families as nat, |f: int| Multiset::<EntryView>::empty());
        let r = WriteBatch {
            families,
            current_sequence_number: current,
            thread_locals: Vec::new(),
            collectors,
            new_sst_files: Vec::new(),
            new_blob_files: Vec::new(),
            idle_collectors: Vec::new(),
            idle_thread_local_collectors: Vec::new(),
            initial_sequence_number: Ghost(current),
            history: Ghost(history),
            active: Ghost(true),
            thread_local_collector_allocations: Ghost(0),
            shared_collector_allocations: Ghost(families as nat),
        };
        proof {
            assert(r.thread_local_collector_allocations@ <= r.thread_locals@.len() * r.families)
                by (nonlinear_arith)
                requires
                    r.thread_local_collector_allocations@ == 0,
            ;
            lemma_empty_seq_mset();
            assert forall|f: int| 0 <= f < families as int implies #[trigger] r.history@[f]
                == tl_family_mset(r.thread_locals@, f).add(r.collectors@[f]@.to_multiset()).add(
                ssts_family_mset(r.new_sst_files@, f),
            ) by {
                assert(r.collectors@[f]@ =~= Seq::<EntryView>::empty());
                assert(r.collectors@[f]@.to_multiset() == Multiset::<EntryView>::empty());
                assert(Multiset::<EntryView>::empty().add(Multiset::<EntryView>::empty()).add(
                    Multiset::<EntryView>::empty(),
                ) =~= Multiset::<EntryView>::empty());
            }
        }
        r
    }

    /// Brings a finished batch back to a ready state for reuse with a new
    /// starting sequence number. Collectors and pools remain as they are;
    /// `finish` left them empty.
    pub fn reset(&mut self, current: u32)
        requires
            old(self).inv(),
            !old(self).active@,
            old(self).drained(),
        ensures
            final(self).inv(),
            final(self).active@,
            final(self).drained(),
            final(self).current_sequence_number == current,
            final(self).initial_sequence_number@ == current,
            final(self).families == old(self).families,
            final(self).staged_total() == old(self).staged_total(),
    {
        self.current_sequence_number = current;
        proof {
            self.initial_sequence_number@ = current;
            self.active@ = true;
        }
    }

    /// Allocates the next sequence number.
    fn alloc_seq(&mut self) -> (r: u32)
        requires
            old(self).current_sequence_number < u32::MAX,
        ensures
            final(self).current_sequence_number == old(self).current_sequence_number + 1,
            r == final(self).current_sequence_number,
            (*final(self) == WriteBatch {
                current_sequence_number: final(self).current_sequence_number,
                ..*old(self)
            }),
    {
        self.current_sequence_number = self.current_sequence_number + 1;
        self.current_sequence_number
    }

    /// Allocates a sequence number and frames the value as the blob
    /// artifact that will carry it. The number is consumed even when the
    /// value is beyond the LZ4 limit and the compression error surfaces.
    /// Only oversized values divert, so the value is never empty.
    fn create_blob(&mut self, value: &[u8]) -> (r: Result<(u32, BlobFile), BatchError>)
        requires
            old(self).current_sequence_number < u32::MAX,
            value@.len() > 0,
        ensures
            final(self).current_sequence_number == old(self).current_sequence_number + 1,
            (*final(self) == WriteBatch {
                current_sequence_number: final(self).current_sequence_number,
                ..*old(self)
            }),
            r is Ok <==> value@.len() <= MAX_BLOB_VALUE_SIZE,
            r is Ok ==> r->Ok_0.0 == final(self).current_sequence_number
                && r->Ok_0.1.sequence_number == final(self).current_sequence_number
                && r->Ok_0.1.data@ == blob_frame(value@),
            r is Err ==> r->Err_0 == BatchError::BlobCompress,
    {
        let seq = self.alloc_seq();
        match encode_blob(value) {
            Ok(data) => Ok((seq, BlobFile { sequence_number: seq, data })),
            Err(e) => Err(e),
        }
    }

    /// Allocates a sequence number and builds the SST artifact for one
    /// family from a collector's sorted view.
    fn create_sst_file(
        &mut self,
        family: usize,
        entries: Vec<Entry>,
        total_key_size: usize,
        total_value_size: usize,
    ) -> (r: SstFile)
        requires
            old(self).current_sequence_number < u32::MAX,
            family < old(self).families,
            old(self).families <= u32::MAX,
            entries_sorted(evs(entries@)),
            total_key_size == sum_key_bytes(evs(entries@)),
            total_value_size == sum_inline_bytes(evs(entries@)),
        ensures
            final(self).current_sequence_number == old(self).current_sequence_number + 1,
            (*final(self) == WriteBatch {
                current_sequence_number: final(self).current_sequence_number,
                ..*old(self)
            }),
            r.sequence_number == final(self).current_sequence_number,
            r.family == family as u32,
            r.entries@ == entries@,
            r.total_key_size == total_key_size,
            r.total_value_size == total_value_size,
            sst_wf(r, old(self).families as int),
    {
        let seq = self.alloc_seq();
        SstFile { sequence_number: seq, family: family as u32, entries, total_key_size, total_value_size }
    }

    /// Pops a cleared shared-class collector from the idle pool, or makes a
    /// fresh one.
    fn take_idle_collector(&mut self) -> (r: Collector)
        requires
            forall|i: int|
                0 <= i < old(self).idle_collectors@.len() ==> idle_ok(
                    #[trigger] old(self).idle_collectors@[i],
                    GLOBAL_COLLECTOR_SIZE_SHIFT,
                ),
        ensures
            idle_ok(r, GLOBAL_COLLECTOR_SIZE_SHIFT),
            !r.spec_is_full(),
            final(self).idle_collectors@ == old(self).idle_collectors@
                || final(self).idle_collectors@ == old(self).idle_collectors@.drop_last(),
            forall|i: int|
                0 <= i < final(self).idle_collectors@.len() ==> idle_ok(
                    #[trigger] final(self).idle_collectors@[i],
                    GLOBAL_COLLECTOR_SIZE_SHIFT,
                ),
            final(self).shared_collector_allocations@ + old(self).idle_collectors@.len() == old(
                self,
            ).shared_collector_allocations@ + final(self).idle_collectors@.len() + 1,
            old(self).idle_collectors@.len() == 0 ==> final(self).idle_collectors@ == old(
                self,
            ).idle_collectors@,
            old(self).idle_collectors@.len() > 0 ==> final(self).idle_collectors@ == old(
                self,
            ).idle_collectors@.drop_last() && final(self).shared_collector_allocations@ == old(
                self,
            ).shared_collector_allocations@,
            (*final(self) == WriteBatch {
                idle_collectors: final(self).idle_collectors,
                shared_collector_allocations: final(self).shared_collector_allocations,
                ..*old(self)
            }),
    {
        proof {
            lemma_threshold_positive(GLOBAL_COLLECTOR_SIZE_SHIFT);
        }
        match self.idle_collectors.pop() {
            Some(c) => c,
            None => {
                proof {
                    self.shared_collector_allocations@ =
                        self.shared_collector_allocations@ + 1;
                }
                Collector::new(GLOBAL_COLLECTOR_SIZE_SHIFT)
            },
        }
    }

    /// Pops a cleared worker-class collector from the idle pool, or makes a
    /// fresh one.
    fn take_idle_thread_local_collector(&mut self) -> (r: Collector)
        requires
            forall|i: int|
                0 <= i < old(self).idle_thread_local_collectors@.len() ==> idle_ok(
                    #[trigger] old(self).idle_thread_local_collectors@[i],
                    THREAD_LOCAL_SIZE_SHIFT,
                ),
        ensures
            idle_ok(r, THREAD_LOCAL_SIZE_SHIFT),
            final(self).idle_thread_local_collectors@ == old(self).idle_thread_local_collectors@
                || final(self).idle_thread_local_collectors@ == old(
                self,
            ).idle_thread_local_collectors@.drop_last(),
            forall|i: int|
                0 <= i < final(self).idle_thread_local_collectors@.len() ==> idle_ok(
                    #[trigger] final(self).idle_thread_local_collectors@[i],
                    THREAD_LOCAL_SIZE_SHIFT,
                ),
            final(self).thread_local_collector_allocations@ + old(
                self,
            ).idle_thread_local_collectors@.len() == old(self).thread_local_collector_allocations@
                + final(self).idle_thread_local_collectors@.len() + 1,
            old(self).idle_thread_local_collectors@.len() == 0 ==> final(self).idle_thread_local_collectors@ == old(self).idle_thread_local_collectors@,
            old(self).idle_thread_local_collectors@.len() > 0 ==> final(self).idle_thread_local_collectors@ == old(self).idle_thread_local_collectors@.drop_last(),
            old(self).idle_thread_local_collectors@.len() > 0
                ==> final(self).thread_local_collector_allocations@ == old(
                self,
            ).thread_local_collector_allocations@,
            (*final(self) == WriteBatch {
                idle_thread_local_collectors: final(self).idle_thread_local_collectors,
                thread_local_collector_allocations: final(self).thread_local_collector_allocations,
                ..*old(self)
            }),
    {
        match self.idle_thread_local_collectors.pop() {
            Some(c) => c,
            None => {
                proof {
                    self.thread_local_collector_allocations@ =
                        self.thread_local_collector_allocations@ + 1;
                }
                Collector::new(THREAD_LOCAL_SIZE_SHIFT)
            },
        }
    }
}

} // verus!

verus! {

/// A worker state with one empty slot per family.
fn new_thread_state(families: usize) -> (r: ThreadLocalState)
    ensures
        r.collectors@.len() == families,
        forall|g: int| 0 <= g < families ==> (#[trigger] r.collectors@[g]) is None,
        tl_state_ok(r, families as int),
        slots_len_total(r.collectors@) == 0,
        slots_present(r.collectors@) == 0,
        forall|f: int|
            0 <= f < families ==> slot_mset(#[trigger] r.collectors@[f]) == Multiset::<
                EntryView,
            >::empty(),
{
    let mut slots: Vec<Option<Collector>> = Vec::new();
    while slots.len() < families
        invariant
            slots@.len() <= families,
            forall|g: int| 0 <= g < slots@.len() ==> (#[trigger] slots@[g]) is None,
        decreases families - slots.len(),
    {
        slots.push(None);
    }
    let r = ThreadLocalState { collectors: slots };
    proof {
        lemma_all_none_slots(r.collectors@);
        assert forall|f: int| 0 <= f < families implies slot_mset(#[trigger] r.collectors@[f])
            == Multiset::<EntryView>::empty() by {
            assert(r.collectors@[f] is None);
        }
    }
    r
}

impl WriteBatch {
    /// Lazily creates the per-worker states up to and including `thread`,
    /// mirroring first touch by a new thread.
    fn ensure_thread_state(&mut self, thread: usize)
        requires
            old(self).inv(),
            thread < usize::MAX,
        ensures
            final(self).inv(),
            final(self).thread_locals@.len() > thread,
            old(self).thread_locals@.len() <= final(self).thread_locals@.len(),
            forall|t: int|
                0 <= t < old(self).thread_locals@.len() ==> final(self).thread_locals@[t] == old(
                    self,
                ).thread_locals@[t],
            forall|t: int, g: int|
                old(self).thread_locals@.len() <= t < final(self).thread_locals@.len() && 0 <= g
                    < final(self).families
                    ==> (#[trigger] final(self).thread_locals@[t].collectors@[g]) is None,
            forall|f: int|
                0 <= f < final(self).families ==> tl_family_mset(final(self).thread_locals@, f)
                    == tl_family_mset(old(self).thread_locals@, f),
            final(self).staged_total() == old(self).staged_total(),
            (*final(self) == WriteBatch { thread_locals: final(self).thread_locals, ..*old(self) }),
    {
        let ghost orig = self.thread_locals@;
        while self.thread_locals.len() <= thread
            invariant
                self.families <= u32::MAX,
                thread < usize::MAX,
                orig.len() <= self.thread_locals@.len(),
                forall|t: int| 0 <= t < orig.len() ==> self.thread_locals@[t] == orig[t],
                forall|t: int|
                    orig.len() <= t < self.thread_locals@.len() ==> tl_state_ok(
                        #[trigger] self.thread_locals@[t],
                        self.families as int,
                    ) && (forall|g: int|
                        0 <= g < self.families ==> (#[trigger] self.thread_locals@[t].collectors@[g])
                            is None),
                forall|f: int|
                    0 <= f < self.families ==> tl_family_mset(self.thread_locals@, f)
                        == tl_family_mset(orig, f),
                tl_len_total(self.thread_locals@) == tl_len_total(orig),
                tl_present(self.thread_locals@) == tl_present(orig),
                (*self == WriteBatch { thread_locals: self.thread_locals, ..*old(self) }),
            decreases thread + 1 - self.thread_locals.len(),
        {
            let st = new_thread_state(self.families);
            let ghost before = self.thread_locals@;
            self.thread_locals.push(st);
            proof {
                assert forall|f: int|
                    0 <= f < self.families implies tl_family_mset(self.thread_locals@, f)
                    == tl_family_mset(orig, f) by {
                    lemma_tl_push(before, st, f);
                    assert(slot_mset(st.collectors@[f]) == Multiset::<EntryView>::empty());
                    assert(tl_family_mset(before, f).add(Multiset::<EntryView>::empty())
                        =~= tl_family_mset(before, f));
                }
                lemma_tl_push(before, st, 0);
            }
        }
        proof {
            assert forall|f: int|
                0 <= f < self.families as int implies #[trigger] self.history@[f] == tl_family_mset(
                self.thread_locals@,
                f,
            ).add(self.collectors@[f]@.to_multiset()).add(
                ssts_family_mset(self.new_sst_files@, f),
            ) by {
                assert(tl_family_mset(self.thread_locals@, f) == tl_family_mset(orig, f));
            }
            assert forall|t: int|
                0 <= t < self.thread_locals@.len() implies tl_state_ok(
                #[trigger] self.thread_locals@[t],
                self.families as int,
            ) by {
                if t < orig.len() {
                    assert(self.thread_locals@[t] == orig[t]);
                    assert(tl_state_ok(old(self).thread_locals@[t], old(self).families as int));
                }
            }
            assert(self.structure_ok());
            assert(self.artifacts_ok());
            assert(self.history_ok());
            let a = self.thread_local_collector_allocations@;
            let l0 = orig.len();
            let l1 = self.thread_locals@.len();
            let fam = self.families as nat;
            assert(a <= l0 * fam);
            assert(a <= l1 * fam) by (nonlinear_arith)
                requires
                    a <= l0 * fam,
                    l0 <= l1,
            ;
            assert(self.allocations_ok());
        }
    }

    /// Acquires this worker's collector for `family`: the one in the slot,
    /// or an idle or fresh one on first touch. The slot is left empty until
    /// [`WriteBatch::store_thread_local_collector`] puts it back.
    fn take_thread_local_collector(&mut self, thread: usize, family: usize) -> (r: Collector)
        requires
            old(self).inv(),
            thread < old(self).thread_locals@.len(),
            family < old(self).families,
        ensures
            r.wf(),
            r.size_shift == THREAD_LOCAL_SIZE_SHIFT,
            r@.to_multiset() == slot_mset(old(self).thread_locals@[thread as int].collectors@[family as int]),
            r@.len() == slot_len(old(self).thread_locals@[thread as int].collectors@[family as int]),
            final(self).thread_locals@.len() == old(self).thread_locals@.len(),
            final(self).thread_locals@ == old(self).thread_locals@.update(
                thread as int,
                final(self).thread_locals@[thread as int],
            ),
            final(self).thread_locals@[thread as int].collectors@ == old(
                self,
            ).thread_locals@[thread as int].collectors@.update(family as int, None),
            forall|i: int|
                0 <= i < final(self).idle_thread_local_collectors@.len() ==> idle_ok(
                    #[trigger] final(self).idle_thread_local_collectors@[i],
                    THREAD_LOCAL_SIZE_SHIFT,
                ),
            final(self).thread_local_collector_allocations@ == tl_present(
                final(self).thread_locals@,
            ) + final(self).idle_thread_local_collectors@.len() + 1,
            old(self).thread_locals@[thread as int].collectors@[family as int] matches Some(c0)
                ==> r == c0 && final(self).thread_local_collector_allocations == old(
                self,
            ).thread_local_collector_allocations && final(self).idle_thread_local_collectors
                == old(self).idle_thread_local_collectors,
            final(self).thread_local_collector_allocations@ <= final(self).thread_locals@.len()
                * final(self).families,
            (*final(self) == WriteBatch {
                thread_locals: final(self).thread_locals,
                idle_thread_local_collectors: final(self).idle_thread_local_collectors,
                thread_local_collector_allocations: final(self).thread_local_collector_allocations,
                ..*old(self)
            }),
    {
        let ghost ts_pre = self.thread_locals@;
        let ghost was_present = slot_present(
            old(self).thread_locals@[thread as int].collectors@[family as int],
        );
        let mut st = ThreadLocalState { collectors: Vec::new() };
        self.thread_locals.set_and_swap(thread, &mut st);
        let mut slot: Option<Collector> = None;
        st.collectors.set_and_swap(family, &mut slot);
        let ghost pool_was_empty = self.idle_thread_local_collectors@.len() == 0;
        let r = match slot {
            Some(c) => c,
            None => {
                proof {
                    if pool_was_empty {
                        assert forall|t2: int|
                            0 <= t2 < ts_pre.len() implies (#[trigger] ts_pre[t2]).collectors@.len()
                            == old(self).families as nat by {
                            assert(tl_state_ok(
                                old(self).thread_locals@[t2],
                                old(self).families as int,
                            ));
                        }
                        lemma_tl_present_without_slot(
                            ts_pre,
                            thread as int,
                            family as int,
                            old(self).families as nat,
                        );
                    }
                }
                let c = self.take_idle_thread_local_collector();
                proof {
                    assert(c@ =~= Seq::<EntryView>::empty());
                    lemma_empty_seq_mset();
                }
                c
            },
        };
        self.thread_locals.set_and_swap(thread, &mut st);
        proof {
            assert(final(self).thread_locals@ =~= old(self).thread_locals@.update(
                thread as int,
                final(self).thread_locals@[thread as int],
            ));
            lemma_tl_present_update(
                ts_pre,
                thread as int,
                final(self).thread_locals@[thread as int],
            );
            lemma_slots_present_update(
                ts_pre[thread as int].collectors@,
                family as int,
                None,
            );
            assert(tl_present(final(self).thread_locals@) + was_present == tl_present(ts_pre));
            if old(self).thread_locals@[thread as int].collectors@[family as int] is Some {
                assert(was_present == 1);
                assert(final(self).thread_local_collector_allocations@ == old(
                    self,
                ).thread_local_collector_allocations@);
                assert(final(self).idle_thread_local_collectors@ == old(
                    self,
                ).idle_thread_local_collectors@);
                assert(tl_present(final(self).thread_locals@) + 1 == tl_present(ts_pre));
            } else {
                assert(was_present == 0);
                assert(tl_present(final(self).thread_locals@) == tl_present(ts_pre));
                assert(final(self).thread_local_collector_allocations@ + old(
                    self,
                ).idle_thread_local_collectors@.len() == old(
                    self,
                ).thread_local_collector_allocations@ + final(self).idle_thread_local_collectors@.len() + 1);
            }
            assert(final(self).thread_local_collector_allocations@ == tl_present(
                final(self).thread_locals@,
            ) + final(self).idle_thread_local_collectors@.len() + 1);
            assert(final(self).thread_locals@.len() == ts_pre.len());
            if old(self).thread_locals@[thread as int].collectors@[family as int] is None
                && pool_was_empty {
                assert(tl_present(ts_pre) + 1 <= ts_pre.len() * (old(self).families as nat));
                assert(old(self).thread_local_collector_allocations@ == tl_present(ts_pre));
                assert(final(self).thread_local_collector_allocations@ == old(
                    self,
                ).thread_local_collector_allocations@ + 1);
            } else {
                assert(final(self).thread_local_collector_allocations@ == old(
                    self,
                ).thread_local_collector_allocations@);
            }
            assert(final(self).thread_local_collector_allocations@ <= final(self).thread_locals@.len() * final(self).families);
        }
        r
    }

    /// Puts this worker's collector back into its slot.
    fn store_thread_local_collector(&mut self, thread: usize, family: usize, c: Collector)
        requires
            thread < old(self).thread_locals@.len(),
            family < old(self).thread_locals@[thread as int].collectors@.len(),
            old(self).thread_locals@[thread as int].collectors@[family as int] is None,
            c.wf(),
            c.size_shift == THREAD_LOCAL_SIZE_SHIFT,
            c@.len() > 0,
        ensures
            final(self).thread_locals@.len() == old(self).thread_locals@.len(),
            final(self).thread_locals@ == old(self).thread_locals@.update(
                thread as int,
                final(self).thread_locals@[thread as int],
            ),
            final(self).thread_locals@[thread as int].collectors@ == old(
                self,
            ).thread_locals@[thread as int].collectors@.update(family as int, Some(c)),
            (*final(self) == WriteBatch { thread_locals: final(self).thread_locals, ..*old(self) }),
    {
        let mut st = ThreadLocalState { collectors: Vec::new() };
        self.thread_locals.set_and_swap(thread, &mut st);
        st.collectors.set(family, Some(c));
        self.thread_locals.set_and_swap(thread, &mut st);
        proof {
            assert(final(self).thread_locals@ =~= old(self).thread_locals@.update(
                thread as int,
                final(self).thread_locals@[thread as int],
            ));
        }
    }
}

} // verus!

verus! {

/// A smaller capacity class has the smaller threshold.
pub proof fn lemma_threshold_le_limit(s: u32)
    requires
        s < 30,
    ensures
        (1usize << s) <= (1usize << 30u32),
{
    assert((1usize << s) <= (1usize << 30u32)) by (bit_vector)
        requires
            s < 30,
    ;
}

impl WriteBatch {
    /// Drains one worker collector into the family's shared collector.
    /// Whenever the shared collector fills, it is replaced with an idle one
    /// and the full one is sorted, emitted as an SST, cleared, and pooled.
    /// No entry is lost: what the worker collector held is afterwards in the
    /// shared collector or in new SSTs of the same family.
    pub fn flush_thread_local_collector(
        &mut self,
        family: usize,
        collector: &mut Collector,
    ) -> (r: Result<(), BatchError>)
        requires
            old(self).structure_ok(),
            old(self).artifacts_ok(),
            family < old(self).families,
            old(collector).wf(),
            old(self).current_sequence_number + old(collector)@.len() <= u32::MAX,
            old(self).shared_collector_allocations@ == old(self).families + old(
                self,
            ).idle_collectors@.len(),
            old(self).idle_collectors@.len() <= 2,
        ensures
            r is Ok,
            final(collector).wf(),
            final(collector)@.len() == 0,
            final(collector).size_shift == old(collector).size_shift,
            final(self).structure_ok(),
            final(self).artifacts_ok(),
            final(self).families == old(self).families,
            final(self).thread_locals == old(self).thread_locals,
            final(self).new_blob_files == old(self).new_blob_files,
            final(self).history == old(self).history,
            final(self).initial_sequence_number == old(self).initial_sequence_number,
            final(self).active == old(self).active,
            final(self).idle_thread_local_collectors == old(self).idle_thread_local_collectors,
            final(self).thread_local_collector_allocations == old(
                self,
            ).thread_local_collector_allocations,
            final(self).shared_collector_allocations@ == final(self).families + final(self).idle_collectors@.len(),
            final(self).idle_collectors@.len() <= 2,
            old(self).current_sequence_number <= final(self).current_sequence_number,
            final(self).current_sequence_number <= old(self).current_sequence_number + old(
                collector,
            )@.len(),
            final(self).current_sequence_number + old(self).new_sst_files@.len() == old(
                self,
            ).current_sequence_number + final(self).new_sst_files@.len(),
            old(self).collectors@[family as int].total_cost() + old(collector).total_cost() < (
            1usize << GLOBAL_COLLECTOR_SIZE_SHIFT) ==> final(self).new_sst_files@ == old(
                self,
            ).new_sst_files@ && final(self).collectors@[family as int]@ == old(
                self,
            ).collectors@[family as int]@ + old(collector)@,
            final(self).collectors@[family as int]@.to_multiset().add(
                ssts_family_mset(final(self).new_sst_files@, family as int),
            ) == old(self).collectors@[family as int]@.to_multiset().add(
                ssts_family_mset(old(self).new_sst_files@, family as int),
            ).add(old(collector)@.to_multiset()),
            forall|g: int|
                0 <= g < old(self).families && g != family ==> final(self).collectors@[g] == old(
                    self,
                ).collectors@[g],
            forall|g: int|
                0 <= g < old(self).families && g != family ==> ssts_family_mset(
                    final(self).new_sst_files@,
                    g,
                ) == ssts_family_mset(old(self).new_sst_files@, g),
            old(self).new_sst_files@.len() <= final(self).new_sst_files@.len(),
            forall|i: int|
                0 <= i < old(self).new_sst_files@.len() ==> final(self).new_sst_files@[i] == old(
                    self,
                ).new_sst_files@[i],
            forall|i: int|
                old(self).new_sst_files@.len() <= i < final(self).new_sst_files@.len()
                    ==> (#[trigger] final(self).new_sst_files@[i]).sequence_number > old(
                    self,
                ).current_sequence_number,
    {
        proof {
            broadcast use vstd::seq_lib::group_to_multiset_ensures;
            broadcast use vstd::multiset::group_multiset_axioms;

        }
        let ghost orig_entries = collector@;
        let ghost orig_ssts = old(self).new_sst_files@;
        let ghost orig_shared = old(self).collectors@[family as int];
        let mut entries = collector.drain();
        let mut shared = self.take_idle_collector();
        self.collectors.set_and_swap(family, &mut shared);
        proof {
            assert(evs(entries@) =~= orig_entries.skip(0));
            assert(orig_entries.take(0) =~= Seq::<EntryView>::empty());
            assert(orig_shared@ + orig_entries.take(0) =~= orig_shared@);
            lemma_empty_seq_mset();
            assert(shared@.to_multiset().add(
                ssts_family_mset(self.new_sst_files@, family as int),
            ) =~= orig_shared@.to_multiset().add(
                ssts_family_mset(orig_ssts, family as int),
            ).add(orig_entries.take(0).to_multiset()));
        }
        while entries.len() > 0
            invariant
                family < self.families,
                self.families == old(self).families,
                self.families <= u32::MAX,
                entries@.len() <= orig_entries.len(),
                evs(entries@) =~= orig_entries.skip(orig_entries.len() - entries@.len()),
                crate::collector::entry_costs_bounded(orig_entries),
                shared.wf(),
                shared.size_shift == GLOBAL_COLLECTOR_SIZE_SHIFT,
                !shared.spec_is_full(),
                self.structure_ok(),
                self.artifacts_ok(),
                self.collectors@.len() == self.families as int,
                self.collectors@[family as int]@.len() == 0,
                forall|g: int|
                    0 <= g < self.families as int && g != family ==> self.collectors@[g] == old(
                        self,
                    ).collectors@[g],
                self.thread_locals == old(self).thread_locals,
                self.new_blob_files == old(self).new_blob_files,
                self.history == old(self).history,
                self.initial_sequence_number == old(self).initial_sequence_number,
                self.active == old(self).active,
                self.idle_thread_local_collectors == old(self).idle_thread_local_collectors,
                self.thread_local_collector_allocations == old(
                    self,
                ).thread_local_collector_allocations,
                self.shared_collector_allocations@ == self.families + self.idle_collectors@.len()
                    + 1,
                self.idle_collectors@.len() <= 1,
                old(self).current_sequence_number <= self.current_sequence_number,
                self.current_sequence_number + entries@.len() <= old(
                    self,
                ).current_sequence_number + orig_entries.len(),
                self.current_sequence_number + orig_ssts.len() == old(
                    self,
                ).current_sequence_number + self.new_sst_files@.len(),
                crate::collector::sum_key_bytes(orig_shared@) + crate::collector::sum_inline_bytes(
                    orig_shared@,
                ) + crate::collector::sum_key_bytes(orig_entries)
                    + crate::collector::sum_inline_bytes(orig_entries) < (1usize
                    << GLOBAL_COLLECTOR_SIZE_SHIFT) ==> self.new_sst_files@ == orig_ssts && shared@
                    == orig_shared@ + orig_entries.take(orig_entries.len() - entries@.len()),
                old(self).current_sequence_number + orig_entries.len() <= u32::MAX,
                shared@.to_multiset().add(
                    ssts_family_mset(self.new_sst_files@, family as int),
                ) == orig_shared@.to_multiset().add(
                    ssts_family_mset(orig_ssts, family as int),
                ).add(
                    orig_entries.take(orig_entries.len() - entries@.len()).to_multiset(),
                ),
                forall|g: int|
                    0 <= g < self.families as int && g != family ==> ssts_family_mset(
                        self.new_sst_files@,
                        g,
                    ) == ssts_family_mset(orig_ssts, g),
                orig_ssts.len() <= self.new_sst_files@.len(),
                forall|i: int| 0 <= i < orig_ssts.len() ==> self.new_sst_files@[i] == orig_ssts[i],
                forall|i: int|
                    orig_ssts.len() <= i < self.new_sst_files@.len()
                        ==> (#[trigger] self.new_sst_files@[i]).sequence_number > old(
                        self,
                    ).current_sequence_number,
            decreases entries@.len(),
        {
            let ghost remaining_before = entries@;
            let ghost processed = orig_entries.len() - entries@.len();
            let e = entries.remove(0);
            proof {
                assert(evs(remaining_before)[0] == orig_entries[processed as int]);
                assert(e@ == orig_entries[processed as int]);
                assert(evs(entries@) =~= evs(remaining_before).remove(0));
                assert(evs(remaining_before).remove(0) =~= orig_entries.skip(processed as int + 1));
                assert(orig_entries[processed as int].cost() <= MAX_ENTRY_COST);
                lemma_threshold_le_limit(GLOBAL_COLLECTOR_SIZE_SHIFT);
                assert(shared.total_cost() < (1usize << GLOBAL_COLLECTOR_SIZE_SHIFT));
            }
            let ghost shared_before = shared@;
            shared.add_entry(e);
            proof {
                broadcast use vstd::seq_lib::group_to_multiset_ensures;
                broadcast use vstd::multiset::group_multiset_axioms;

                assert(shared@ =~= shared_before.push(e@));
                assert(shared_before.push(e@).to_multiset() =~= shared_before.to_multiset().insert(
                    e@,
                ));
                assert(shared@.to_multiset() == shared_before.to_multiset().insert(e@));
                assert(orig_entries.take(processed as int + 1) =~= orig_entries.take(
                    processed as int,
                ).push(e@));
                assert(orig_entries.take(processed as int).push(e@).to_multiset()
                    =~= orig_entries.take(processed as int).to_multiset().insert(e@));
                assert(orig_entries.take(processed as int + 1).to_multiset() == orig_entries.take(
                    processed as int,
                ).to_multiset().insert(e@));
                let s0 = ssts_family_mset(self.new_sst_files@, family as int);
                let base = orig_shared@.to_multiset().add(
                    ssts_family_mset(orig_ssts, family as int),
                );
                assert(shared_before.to_multiset().insert(e@).add(s0)
                    =~= shared_before.to_multiset().add(s0).insert(e@));
                assert(base.add(orig_entries.take(processed as int).to_multiset()).insert(e@)
                    =~= base.add(orig_entries.take(processed as int).to_multiset().insert(e@)));
                if crate::collector::sum_key_bytes(orig_shared@)
                    + crate::collector::sum_inline_bytes(orig_shared@)
                    + crate::collector::sum_key_bytes(orig_entries)
                    + crate::collector::sum_inline_bytes(orig_entries) < (1usize
                    << GLOBAL_COLLECTOR_SIZE_SHIFT) {
                    assert(shared_before =~= orig_shared@ + orig_entries.take(processed as int));
                    assert(shared@ =~= orig_shared@ + orig_entries.take(processed as int + 1));
                }
            }
            if shared.is_full() {
                proof {
                    // while the whole family stream fits under the shared
                    // threshold, the collector can never fill
                    if crate::collector::sum_key_bytes(orig_shared@)
                        + crate::collector::sum_inline_bytes(orig_shared@)
                        + crate::collector::sum_key_bytes(orig_entries)
                        + crate::collector::sum_inline_bytes(orig_entries) < (1usize
                        << GLOBAL_COLLECTOR_SIZE_SHIFT) {
                        let p1 = processed as int + 1;
                        crate::collector::lemma_sums_add(orig_shared@, orig_entries.take(p1));
                        assert(orig_entries =~= orig_entries.take(p1) + orig_entries.skip(p1));
                        crate::collector::lemma_sums_add(
                            orig_entries.take(p1),
                            orig_entries.skip(p1),
                        );
                        assert(shared.total_cost() < (1usize << GLOBAL_COLLECTOR_SIZE_SHIFT));
                        assert(false);
                    }
                }
                let mut replacement = self.take_idle_collector();
                core::mem::swap(&mut shared, &mut replacement);
                let mut full = replacement;
                full.sorted();
                let tks = full.total_key_size;
                let tvs = full.total_value_size;
                let ghost full_view = full@;
                let es = full.drain();
                proof {
                    assert(evs(es@) == full_view);
                }
                let sst = self.create_sst_file(family, es, tks, tvs);
                let ghost pre_push = self.new_sst_files@;
                let ghost pre_batch = *self;
                self.new_sst_files.push(sst);
                self.idle_collectors.push(full);
                proof {
                    lemma_empty_seq_mset();
                    assert(shared@ =~= Seq::<EntryView>::empty());
                    assert forall|g: int|
                        0 <= g < self.families as int && g != family implies ssts_family_mset(
                        self.new_sst_files@,
                        g,
                    ) == ssts_family_mset(orig_ssts, g) by {
                        lemma_ssts_family_mset_push(pre_push, sst, g);
                    }
                    lemma_ssts_family_mset_push(pre_push, sst, family as int);
                    assert(sst_mset(sst) == full_view.to_multiset());
                    let s0 = ssts_family_mset(pre_push, family as int);
                    assert(shared@.to_multiset().add(s0.add(full_view.to_multiset()))
                        =~= full_view.to_multiset().add(s0));
                    // the artifact bookkeeping survives the push
                    assert forall|i: int|
                        0 <= i < self.new_sst_files@.len() implies sst_wf(
                        #[trigger] self.new_sst_files@[i],
                        self.families as int,
                    ) by {
                        if i < pre_push.len() {
                            assert(self.new_sst_files@[i] == pre_push[i]);
                        }
                    }
                    assert forall|i: int|
                        0 <= i < self.new_sst_files@.len() implies self.initial_sequence_number@
                        < (#[trigger] self.new_sst_files@[i]).sequence_number
                        <= self.current_sequence_number by {
                        if i < pre_push.len() {
                            assert(self.new_sst_files@[i] == pre_push[i]);
                        }
                    }
                    assert forall|i: int, j: int|
                        #![trigger self.new_sst_files@[i], self.new_sst_files@[j]]
                        0 <= i < j < self.new_sst_files@.len() implies self.new_sst_files@[i].sequence_number
                        < self.new_sst_files@[j].sequence_number by {
                        if j < pre_push.len() {
                            assert(self.new_sst_files@[i] == pre_push[i]);
                            assert(self.new_sst_files@[j] == pre_push[j]);
                        } else {
                            if i < pre_push.len() {
                                assert(self.new_sst_files@[i] == pre_push[i]);
                                assert(pre_push[i].sequence_number
                                    <= pre_batch.current_sequence_number);
                            }
                        }
                    }
                    assert forall|i: int, j: int|
                        #![trigger self.new_sst_files@[i], self.new_blob_files@[j]]
                        0 <= i < self.new_sst_files@.len() && 0 <= j < self.new_blob_files@.len()
                        implies self.new_sst_files@[i].sequence_number
                        != self.new_blob_files@[j].sequence_number by {
                        if i < pre_push.len() {
                            assert(self.new_sst_files@[i] == pre_push[i]);
                        } else {
                            assert(self.new_blob_files@[j].sequence_number
                                <= pre_batch.current_sequence_number);
                        }
                    }
                    assert(self.artifacts_ok());
                }
            }
        }
        proof {
            assert(orig_entries.take(orig_entries.len() - entries@.len()) =~= orig_entries);
        }
        self.collectors.set_and_swap(family, &mut shared);
        self.idle_collectors.push(shared);
        proof {
            assert(self.shared_collector_allocations@ == self.families
                + self.idle_collectors@.len());
            assert(final(self).collectors@[family as int]@.to_multiset().add(
                ssts_family_mset(final(self).new_sst_files@, family as int),
            ) == old(self).collectors@[family as int]@.to_multiset().add(
                ssts_family_mset(old(self).new_sst_files@, family as int),
            ).add(old(collector)@.to_multiset()));
            assert forall|f2: int|
                0 <= f2 < self.families as int implies shared_ok(
                #[trigger] self.collectors@[f2],
            ) by {
                if f2 != family {
                    assert(self.collectors@[f2] == old(self).collectors@[f2]);
                }
            }
            assert(self.structure_ok());
        }
        Ok(())
    }
}

} // verus!

verus! {

/// Adding the same multiset on both sides preserves equality of the rest.
pub proof fn lemma_multiset_cancel(
    a: Multiset<EntryView>,
    b: Multiset<EntryView>,
    x: Multiset<EntryView>,
)
    requires
        a.add(x) == b.add(x),
    ensures
        a == b,
{
    broadcast use vstd::multiset::group_multiset_axioms;

    assert forall|z: EntryView| a.count(z) == b.count(z) by {
        assert(a.add(x).count(z) == a.count(z) + x.count(z));
        assert(b.add(x).count(z) == b.count(z) + x.count(z));
    }
    assert(a =~= b);
}

/// The inline entry a `put` stages for a value that fits a collector: the
/// class hint is `Small` or `Medium` by the value's length.
pub open spec fn inline_entry(key: Seq<u8>, value: Seq<u8>) -> EntryView {
    EntryView {
        key,
        value: if value.len() <= MAX_SMALL_VALUE_SIZE {
            EntryValueView::Small { value }
        } else {
            EntryValueView::Medium { value }
        },
    }
}

impl WriteBatch {
    /// Stages one entry in the worker's collector for the family, flushing
    /// the collector into the shared collector first when it is full.
    fn stage(&mut self, thread: usize, family: usize, entry: Entry) -> (r: Result<
        (),
        BatchError,
    >)
        requires
            old(self).inv(),
            family < old(self).families,
            thread < usize::MAX,
            entry@.cost() <= MAX_ENTRY_COST,
            old(self).current_sequence_number + old(self).tl_pending(thread as int, family as int)
                <= u32::MAX,
        ensures
            r is Ok,
            final(self).inv(),
            final(self).families == old(self).families,
            final(self).initial_sequence_number == old(self).initial_sequence_number,
            final(self).active == old(self).active,
            final(self).new_blob_files == old(self).new_blob_files,
            final(self).history@ == old(self).history@.update(
                family as int,
                old(self).history@[family as int].insert(entry@),
            ),
            old(self).current_sequence_number <= final(self).current_sequence_number,
            final(self).current_sequence_number <= old(self).current_sequence_number + old(
                self,
            ).tl_pending(thread as int, family as int),
            final(self).current_sequence_number + final(self).staged_total() <= old(
                self,
            ).current_sequence_number + old(self).staged_total() + 1,
            final(self).current_sequence_number + old(self).new_sst_files@.len() == old(
                self,
            ).current_sequence_number + final(self).new_sst_files@.len(),
            old(self).tl_pending_cost(thread as int, family as int) + entry@.cost() <= usize::MAX
                && old(self).tl_pending_cost(thread as int, family as int) < (1usize
                << THREAD_LOCAL_SIZE_SHIFT) ==> final(self).new_sst_files@ == old(
                self,
            ).new_sst_files@ && final(self).current_sequence_number == old(
                self,
            ).current_sequence_number && final(self).tl_pending_cost(thread as int, family as int)
                == old(self).tl_pending_cost(thread as int, family as int) + entry@.cost(),
            old(self).collectors@[family as int].total_cost() + old(self).tl_pending_cost(
                thread as int,
                family as int,
            ) + entry@.cost() < (1usize << GLOBAL_COLLECTOR_SIZE_SHIFT) ==> final(self).new_sst_files@ == old(self).new_sst_files@ && final(self).current_sequence_number
                == old(self).current_sequence_number && final(self).collectors@[
                family as int
            ].total_cost() + final(self).tl_pending_cost(thread as int, family as int) == old(
                self,
            ).collectors@[family as int].total_cost() + old(self).tl_pending_cost(
                thread as int,
                family as int,
            ) + entry@.cost(),
            old(self).new_sst_files@.len() <= final(self).new_sst_files@.len(),
            forall|i: int|
                0 <= i < old(self).new_sst_files@.len() ==> final(self).new_sst_files@[i] == old(
                    self,
                ).new_sst_files@[i],
            forall|i: int|
                old(self).new_sst_files@.len() <= i < final(self).new_sst_files@.len()
                    ==> (#[trigger] final(self).new_sst_files@[i]).sequence_number > old(
                    self,
                ).current_sequence_number,
    {
        proof {
            broadcast use vstd::seq_lib::group_to_multiset_ensures;
            broadcast use vstd::multiset::group_multiset_axioms;

        }
        self.ensure_thread_state(thread);
        let ghost batch0 = *self;
        let ghost ts0 = self.thread_locals@;
        let mut collector = self.take_thread_local_collector(thread, family);
        let ghost taken_mset = collector@.to_multiset();
        let ghost taken_len = collector@.len();
        let ghost taken_view = collector@;
        let ghost ts_mid = self.thread_locals@;
        proof {
            lemma_tl_family_mset_update(
                ts0,
                thread as int,
                ts_mid[thread as int],
                family as int,
            );
            assert(slot_mset(ts_mid[thread as int].collectors@[family as int]) == Multiset::<
                EntryView,
            >::empty());
            assert(tl_family_mset(ts_mid, family as int).add(taken_mset) == tl_family_mset(
                ts0,
                family as int,
            )) by {
                assert(tl_family_mset(ts_mid, family as int).add(
                    slot_mset(ts0[thread as int].collectors@[family as int]),
                ) == tl_family_mset(ts0, family as int).add(
                    Multiset::<EntryView>::empty(),
                ));
                assert(tl_family_mset(ts0, family as int).add(Multiset::<EntryView>::empty())
                    =~= tl_family_mset(ts0, family as int));
            }
            assert forall|g: int|
                0 <= g < self.families as int && g != family as int implies tl_family_mset(
                ts_mid,
                g,
            ) == tl_family_mset(ts0, g) by {
                lemma_tl_family_mset_update(ts0, thread as int, ts_mid[thread as int], g);
                assert(ts_mid[thread as int].collectors@[g] == ts0[thread as int].collectors@[g]);
                lemma_multiset_cancel(
                    tl_family_mset(ts_mid, g),
                    tl_family_mset(ts0, g),
                    slot_mset(ts0[thread as int].collectors@[g]),
                );
            }
        }
        let ghost shared0 = self.collectors@;
        let ghost ssts0 = self.new_sst_files@;
        if collector.is_full() {
            let res = self.flush_thread_local_collector(family, &mut collector);
            match res {
                Ok(()) => {},
                Err(e) => {
                    self.idle_thread_local_collectors.push(collector);
                    proof {
                        assert(false);
                    }
                    return Err(e);
                },
            }
        }
        // Conservation so far: what was taken from the worker slot is now in
        // the collector, the shared collector, and the new SSTs together.
        proof {
            crate::collector::lemma_sums_add(shared0[family as int]@, taken_view);
            assert(collector@.to_multiset().add(
                self.collectors@[family as int]@.to_multiset().add(
                    ssts_family_mset(self.new_sst_files@, family as int),
                ),
            ) == taken_mset.add(
                shared0[family as int]@.to_multiset().add(ssts_family_mset(ssts0, family as int)),
            ));
        }
        let ghost before_add = collector@;
        proof {
            lemma_threshold_positive(THREAD_LOCAL_SIZE_SHIFT);
        }
        self.append_to_collector(&mut collector, entry);
        self.store_thread_local_collector(thread, family, collector);
        let ghost ts_fin = self.thread_locals@;
        proof {
            self.history@ = self.history@.update(
                family as int,
                self.history@[family as int].insert(entry@),
            );
            lemma_tl_family_mset_update(
                ts_mid,
                thread as int,
                ts_fin[thread as int],
                family as int,
            );
            assert(slot_mset(ts_fin[thread as int].collectors@[family as int])
                == before_add.push(entry@).to_multiset());
            assert(before_add.push(entry@).to_multiset() =~= before_add.to_multiset().insert(
                entry@,
            ));
            assert(tl_family_mset(ts_fin, family as int) == tl_family_mset(
                ts_mid,
                family as int,
            ).add(before_add.to_multiset().insert(entry@))) by {
                assert(tl_family_mset(ts_fin, family as int).add(Multiset::<EntryView>::empty())
                    =~= tl_family_mset(ts_fin, family as int));
            }
            assert forall|g: int|
                0 <= g < self.families as int && g != family as int implies tl_family_mset(
                ts_fin,
                g,
            ) == tl_family_mset(ts_mid, g) by {
                lemma_tl_family_mset_update(ts_mid, thread as int, ts_fin[thread as int], g);
                assert(ts_fin[thread as int].collectors@[g] == ts_mid[thread as int].collectors@[g]);
                lemma_multiset_cancel(
                    tl_family_mset(ts_fin, g),
                    tl_family_mset(ts_mid, g),
                    slot_mset(ts_mid[thread as int].collectors@[g]),
                );
            }
            assert forall|g: int|
                0 <= g < self.families as int implies #[trigger] self.history@[g]
                == tl_family_mset(self.thread_locals@, g).add(
                self.collectors@[g]@.to_multiset(),
            ).add(ssts_family_mset(self.new_sst_files@, g)) by {
                if g == family as int {
                    let tlm = tl_family_mset(ts_mid, family as int);
                    let cm = before_add.to_multiset();
                    let sm = self.collectors@[family as int]@.to_multiset();
                    let em = ssts_family_mset(self.new_sst_files@, family as int);
                    let old_sm = shared0[family as int]@.to_multiset();
                    let old_em = ssts_family_mset(ssts0, family as int);
                    assert(batch0.history@[g] == tl_family_mset(ts0, g).add(old_sm).add(old_em));
                    assert(cm.add(sm.add(em)) == taken_mset.add(old_sm.add(old_em)));
                    assert(tl_family_mset(ts_fin, g) == tlm.add(cm.insert(entry@)));
                    assert(tlm.add(cm.insert(entry@)).add(sm).add(em) =~= tlm.add(
                        cm.add(sm.add(em)),
                    ).insert(entry@));
                    assert(tlm.add(taken_mset.add(old_sm.add(old_em))).insert(entry@) =~= tlm.add(
                        taken_mset,
                    ).add(old_sm).add(old_em).insert(entry@));
                    assert(tl_family_mset(ts0, g).add(old_sm).add(old_em).insert(entry@)
                        == self.history@[g]);
                } else {
                    assert(batch0.history@[g] == tl_family_mset(ts0, g).add(
                        shared0[g]@.to_multiset(),
                    ).add(ssts_family_mset(ssts0, g)));
                    assert(tl_family_mset(ts_fin, g) == tl_family_mset(ts0, g));
                    assert(self.collectors@[g] == shared0[g]);
                    assert(ssts_family_mset(self.new_sst_files@, g) == ssts_family_mset(ssts0, g));
                }
            }
            assert(self.history_ok());
            assert forall|t: int|
                0 <= t < self.thread_locals@.len() implies tl_state_ok(
                #[trigger] self.thread_locals@[t],
                self.families as int,
            ) by {
                if t != thread as int {
                    assert(self.thread_locals@[t] == ts_mid[t]);
                }
            }
            assert(self.structure_ok());
            lemma_tl_present_update(ts_mid, thread as int, ts_fin[thread as int]);
            lemma_slots_present_update(
                ts_mid[thread as int].collectors@,
                family as int,
                ts_fin[thread as int].collectors@[family as int],
            );
            assert(slot_present(ts_mid[thread as int].collectors@[family as int]) == 0);
            assert(slot_present(ts_fin[thread as int].collectors@[family as int]) == 1);
            assert(slots_present(ts_fin[thread as int].collectors@) == slots_present(
                ts_mid[thread as int].collectors@,
            ) + 1);
            assert(tl_present(ts_fin) == tl_present(ts_mid) + 1);
            assert(self.allocations_ok());
            lemma_tl_len_total_update(ts0, thread as int, ts_mid[thread as int]);
            lemma_slots_len_update(ts0[thread as int].collectors@, family as int, None);
            assert(tl_len_total(ts_mid) + taken_len == tl_len_total(ts0));
            lemma_tl_len_total_update(ts_mid, thread as int, ts_fin[thread as int]);
            lemma_slots_len_update(
                ts_mid[thread as int].collectors@,
                family as int,
                ts_fin[thread as int].collectors@[family as int],
            );
            assert(slot_len(ts_fin[thread as int].collectors@[family as int]) == before_add.len()
                + 1);
            assert(tl_len_total(ts_fin) == tl_len_total(ts_mid) + before_add.len() + 1);
        }
        Ok(())
    }

    /// Appends the entry to a worker collector that is below its threshold.
    fn append_to_collector(&self, collector: &mut Collector, entry: Entry)
        requires
            old(collector).wf(),
            old(collector).size_shift == THREAD_LOCAL_SIZE_SHIFT,
            !old(collector).spec_is_full(),
            entry@.cost() <= MAX_ENTRY_COST,
        ensures
            final(collector).wf(),
            final(collector).size_shift == THREAD_LOCAL_SIZE_SHIFT,
            final(collector)@ == old(collector)@.push(entry@),
            final(collector)@.len() > 0,
            final(collector).total_cost() == old(collector).total_cost() + entry@.cost(),
    {
        proof {
            lemma_threshold_le_limit(THREAD_LOCAL_SIZE_SHIFT);
        }
        collector.add_entry(entry);
    }
}

} // verus!

verus! {

impl WriteBatch {
    /// Puts a key-value pair into the write batch under `family`, staged in
    /// the calling worker's collector. A value longer than
    /// `MAX_MEDIUM_VALUE_SIZE` diverts: it is framed at once as a blob
    /// artifact with a fresh sequence number, and only a blob pointer is
    /// staged. Succeeds exactly on values within the LZ4 block limit.
    pub fn put(&mut self, thread: usize, family: usize, key: Vec<u8>, value: &[u8]) -> (r: Result<
        (),
        BatchError,
    >)
        requires
            old(self).inv(),
            old(self).active@,
            family < old(self).families,
            thread < usize::MAX,
            key@.len() + value@.len() <= MAX_ENTRY_COST,
            old(self).current_sequence_number + old(self).tl_pending(
                thread as int,
                family as int,
            ) + 1 <= u32::MAX,
        ensures
            final(self).inv(),
            final(self).active@,
            final(self).families == old(self).families,
            final(self).initial_sequence_number == old(self).initial_sequence_number,
            old(self).current_sequence_number <= final(self).current_sequence_number,
            final(self).current_sequence_number + final(self).staged_total() <= old(
                self,
            ).current_sequence_number + old(self).staged_total() + 2,
            value@.len() <= MAX_MEDIUM_VALUE_SIZE ==> final(self).current_sequence_number + old(
                self,
            ).new_sst_files@.len() == old(self).current_sequence_number + final(self).new_sst_files@.len(),
            r is Ok && value@.len() > MAX_MEDIUM_VALUE_SIZE ==> final(self).current_sequence_number + old(self).new_sst_files@.len() == old(
                self,
            ).current_sequence_number + final(self).new_sst_files@.len() + 1,
            r is Err ==> final(self).current_sequence_number == old(self).current_sequence_number
                + 1 && final(self).new_sst_files@ == old(self).new_sst_files@,
            value@.len() <= MAX_MEDIUM_VALUE_SIZE && old(self).tl_pending_cost(
                thread as int,
                family as int,
            ) < (1usize << THREAD_LOCAL_SIZE_SHIFT) ==> final(self).new_sst_files@ == old(
                self,
            ).new_sst_files@ && final(self).current_sequence_number == old(
                self,
            ).current_sequence_number && final(self).tl_pending_cost(thread as int, family as int)
                == old(self).tl_pending_cost(thread as int, family as int) + key@.len()
                + value@.len(),
            r is Ok && value@.len() > MAX_MEDIUM_VALUE_SIZE && old(self).tl_pending_cost(
                thread as int,
                family as int,
            ) < (1usize << THREAD_LOCAL_SIZE_SHIFT) ==> final(self).new_sst_files@ == old(
                self,
            ).new_sst_files@ && final(self).current_sequence_number == old(
                self,
            ).current_sequence_number + 1 && final(self).tl_pending_cost(
                thread as int,
                family as int,
            ) == old(self).tl_pending_cost(thread as int, family as int) + key@.len(),
            value@.len() <= MAX_MEDIUM_VALUE_SIZE && old(self).collectors@[
                family as int
            ].total_cost() + old(self).tl_pending_cost(thread as int, family as int) + key@.len()
                + value@.len() < (1usize << GLOBAL_COLLECTOR_SIZE_SHIFT) ==> final(self).new_sst_files@ == old(self).new_sst_files@ && final(self).current_sequence_number
                == old(self).current_sequence_number && final(self).collectors@[
                family as int
            ].total_cost() + final(self).tl_pending_cost(thread as int, family as int) == old(
                self,
            ).collectors@[family as int].total_cost() + old(self).tl_pending_cost(
                thread as int,
                family as int,
            ) + key@.len() + value@.len(),
            r is Ok && value@.len() > MAX_MEDIUM_VALUE_SIZE && old(self).collectors@[
                family as int
            ].total_cost() + old(self).tl_pending_cost(thread as int, family as int) + key@.len()
                < (1usize << GLOBAL_COLLECTOR_SIZE_SHIFT) ==> final(self).new_sst_files@ == old(
                self,
            ).new_sst_files@ && final(self).current_sequence_number == old(
                self,
            ).current_sequence_number + 1 && final(self).collectors@[family as int].total_cost()
                + final(self).tl_pending_cost(thread as int, family as int) == old(
                self,
            ).collectors@[family as int].total_cost() + old(self).tl_pending_cost(
                thread as int,
                family as int,
            ) + key@.len(),
            r is Ok <==> value@.len() <= MAX_BLOB_VALUE_SIZE,
            r is Err ==> r->Err_0 == BatchError::BlobCompress && final(self).history@ == old(
                self,
            ).history@ && final(self).new_blob_files@ == old(self).new_blob_files@,
            value@.len() <= MAX_MEDIUM_VALUE_SIZE ==> final(self).history@ == old(
                self,
            ).history@.update(
                family as int,
                old(self).history@[family as int].insert(inline_entry(key@, value@)),
            ) && final(self).new_blob_files@ == old(self).new_blob_files@,
            value@.len() > MAX_MEDIUM_VALUE_SIZE && value@.len() <= MAX_BLOB_VALUE_SIZE ==> final(self).history@ == old(self).history@.update(
                family as int,
                old(self).history@[family as int].insert(
                    EntryView {
                        key: key@,
                        value: EntryValueView::Blob {
                            sequence_number: (old(self).current_sequence_number + 1) as u32,
                        },
                    },
                ),
            ) && final(self).new_blob_files@.len() == old(self).new_blob_files@.len() + 1 && (forall|
                i: int,
            |
                0 <= i < old(self).new_blob_files@.len() ==> final(self).new_blob_files@[i] == old(
                    self,
                ).new_blob_files@[i]) && final(self).new_blob_files@.last().sequence_number == (old(
                self,
            ).current_sequence_number + 1) as u32 && final(self).new_blob_files@.last().data@
                == blob_frame(value@),
    {
        proof {
            lemma_threshold_le_limit(THREAD_LOCAL_SIZE_SHIFT);
        }
        if value.len() <= MAX_MEDIUM_VALUE_SIZE {
            let v = vstd::slice::slice_to_vec(value);
            let entry = if v.len() <= MAX_SMALL_VALUE_SIZE {
                Entry { key, value: EntryValue::Small { value: v } }
            } else {
                Entry { key, value: EntryValue::Medium { value: v } }
            };
            proof {
                assert(entry@ == inline_entry(key@, value@));
            }
            self.stage(thread, family, entry)
        } else {
            let ghost batch0 = *self;
            match self.create_blob(value) {
                Err(e) => {
                    proof {
                        assert(self.inv());
                    }
                    Err(e)
                },
                Ok((bseq, bfile)) => {
                    proof {
                        assert(self.inv());
                    }
                    let ghost mid = *self;
                    let entry = Entry { key, value: EntryValue::Blob { sequence_number: bseq } };
                    let res = self.stage(thread, family, entry);
                    let ghost pre_blobs = self.new_blob_files@;
                    let ghost pre_batch = *self;
                    self.new_blob_files.push(bfile);
                    proof {
                        assert(self.new_blob_files@.last() == bfile);
                        assert forall|i: int|
                            0 <= i < self.new_blob_files@.len() implies self.initial_sequence_number@
                            < (#[trigger] self.new_blob_files@[i]).sequence_number
                            <= self.current_sequence_number by {
                            if i < pre_blobs.len() {
                                assert(self.new_blob_files@[i] == pre_blobs[i]);
                            } else {
                                assert(self.new_blob_files@[i] == bfile);
                            }
                        }
                        assert forall|i: int, j: int|
                            #![trigger self.new_blob_files@[i], self.new_blob_files@[j]]
                            0 <= i < j < self.new_blob_files@.len() implies self.new_blob_files@[i].sequence_number
                            != self.new_blob_files@[j].sequence_number by {
                            if j < pre_blobs.len() {
                                assert(self.new_blob_files@[i] == pre_blobs[i]);
                                assert(self.new_blob_files@[j] == pre_blobs[j]);
                            } else {
                                assert(self.new_blob_files@[i] == pre_blobs[i]);
                                assert(pre_blobs[i].sequence_number
                                    <= batch0.current_sequence_number);
                            }
                        }
                        assert forall|i: int, j: int|
                            #![trigger self.new_sst_files@[i], self.new_blob_files@[j]]
                            0 <= i < self.new_sst_files@.len() && 0 <= j
                            < self.new_blob_files@.len() implies self.new_sst_files@[i].sequence_number
                            != self.new_blob_files@[j].sequence_number by {
                            if j < pre_blobs.len() {
                                assert(self.new_blob_files@[j] == pre_blobs[j]);
                            } else {
                                if i < mid.new_sst_files@.len() {
                                    assert(self.new_sst_files@[i] == mid.new_sst_files@[i]);
                                    assert(mid.new_sst_files@[i] == batch0.new_sst_files@[i]);
                                    assert(batch0.new_sst_files@[i].sequence_number
                                        <= batch0.current_sequence_number);
                                } else {
                                    assert(self.new_sst_files@[i].sequence_number
                                        > mid.current_sequence_number);
                                }
                            }
                        }
                        assert(self.artifacts_ok());
                        assert(self.history_ok());
                        assert(self.inv());
                    }
                    res
                },
            }
        }
    }

    /// Puts a delete marker for the key into the write batch under
    /// `family`, staged in the calling worker's collector.
    pub fn delete(&mut self, thread: usize, family: usize, key: Vec<u8>) -> (r: Result<
        (),
        BatchError,
    >)
        requires
            old(self).inv(),
            old(self).active@,
            family < old(self).families,
            thread < usize::MAX,
            key@.len() <= MAX_ENTRY_COST,
            old(self).current_sequence_number + old(self).tl_pending(thread as int, family as int)
                <= u32::MAX,
        ensures
            final(self).inv(),
            final(self).active@,
            final(self).families == old(self).families,
            final(self).initial_sequence_number == old(self).initial_sequence_number,
            old(self).current_sequence_number <= final(self).current_sequence_number,
            final(self).current_sequence_number + final(self).staged_total() <= old(
                self,
            ).current_sequence_number + old(self).staged_total() + 1,
            final(self).current_sequence_number + old(self).new_sst_files@.len() == old(
                self,
            ).current_sequence_number + final(self).new_sst_files@.len(),
            old(self).tl_pending_cost(thread as int, family as int) < (1usize
                << THREAD_LOCAL_SIZE_SHIFT) ==> final(self).new_sst_files@ == old(
                self,
            ).new_sst_files@ && final(self).current_sequence_number == old(
                self,
            ).current_sequence_number && final(self).tl_pending_cost(thread as int, family as int)
                == old(self).tl_pending_cost(thread as int, family as int) + key@.len(),
            old(self).collectors@[family as int].total_cost() + old(self).tl_pending_cost(
                thread as int,
                family as int,
            ) + key@.len() < (1usize << GLOBAL_COLLECTOR_SIZE_SHIFT) ==> final(self).new_sst_files@ == old(self).new_sst_files@ && final(self).current_sequence_number
                == old(self).current_sequence_number && final(self).collectors@[
                family as int
            ].total_cost() + final(self).tl_pending_cost(thread as int, family as int) == old(
                self,
            ).collectors@[family as int].total_cost() + old(self).tl_pending_cost(
                thread as int,
                family as int,
            ) + key@.len(),
            r is Ok,
            final(self).new_blob_files@ == old(self).new_blob_files@,
            final(self).history@ == old(self).history@.update(
                family as int,
                old(self).history@[family as int].insert(
                    EntryView { key: key@, value: EntryValueView::Tombstone },
                ),
            ),
    {
        proof {
            lemma_threshold_le_limit(THREAD_LOCAL_SIZE_SHIFT);
        }
        self.stage(thread, family, Entry { key, value: EntryValue::Tombstone })
    }
}

} // verus!

verus! {

/// One worker's staged entries are part of the overall total.
pub proof fn lemma_tl_len_total_component(ts: Seq<ThreadLocalState>, t: int)
    requires
        0 <= t < ts.len(),
    ensures
        tl_len_total(ts) >= slots_len_total(ts[t].collectors@),
    decreases ts.len(),
{
    if t == ts.len() - 1 {
    } else {
        lemma_tl_len_total_component(ts.drop_last(), t);
        assert(ts.drop_last()[t] == ts[t]);
    }
}

/// One family's staged entries are part of a worker's total.
pub proof fn lemma_slots_len_component(s: Seq<Option<Collector>>, f: int)
    requires
        0 <= f < s.len(),
    ensures
        slots_len_total(s) >= slot_len(s[f]),
    decreases s.len(),
{
    if f == s.len() - 1 {
    } else {
        lemma_slots_len_component(s.drop_last(), f);
        assert(s.drop_last()[f] == s[f]);
    }
}

/// Worker states whose slots are all empty stage nothing at all.
pub proof fn lemma_tl_len_total_all_none(ts: Seq<ThreadLocalState>)
    requires
        forall|t: int, g: int|
            0 <= t < ts.len() && 0 <= g < (#[trigger] ts[t]).collectors@.len()
                ==> (#[trigger] ts[t].collectors@[g]) is None,
    ensures
        tl_len_total(ts) == 0,
    decreases ts.len(),
{
    if ts.len() > 0 {
        lemma_tl_len_total_all_none(ts.drop_last());
        lemma_all_none_slots(ts.last().collectors@);
    }
}

/// Workers whose slots for a family are all empty stage nothing for it.
pub proof fn lemma_tl_family_mset_all_none(ts: Seq<ThreadLocalState>, f: int)
    requires
        forall|t: int|
            0 <= t < ts.len() ==> 0 <= f < (#[trigger] ts[t]).collectors@.len()
                && ts[t].collectors@[f] is None,
    ensures
        tl_family_mset(ts, f) == Multiset::<EntryView>::empty(),
    decreases ts.len(),
{
    broadcast use vstd::multiset::group_multiset_axioms;

    if ts.len() > 0 {
        lemma_tl_family_mset_all_none(ts.drop_last(), f);
        assert(ts.last().collectors@[f] is None);
        assert(Multiset::<EntryView>::empty().add(Multiset::<EntryView>::empty()) =~= Multiset::<
            EntryView,
        >::empty());
    }
}

} // verus!

verus! {

impl WriteBatch {
    /// Finishes the write batch: drains every worker collector into its
    /// family's shared collector, emits every non-empty shared collector as
    /// one key-sorted SST, and returns all artifacts produced since the
    /// batch was created or last reset, the SSTs in ascending sequence
    /// order, together with the final sequence number. Afterwards the batch
    /// is inactive until `reset`.
    pub fn finish(&mut self) -> (r: Result<FinishResult, BatchError>)
        requires
            old(self).inv(),
            old(self).active@,
            old(self).current_sequence_number + old(self).staged_total() + old(self).families
                <= u32::MAX,
        ensures
            r is Ok,
            final(self).inv(),
            !final(self).active@,
            final(self).drained(),
            final(self).staged_total() == 0,
            final(self).families == old(self).families,
            final(self).initial_sequence_number == old(self).initial_sequence_number,
            old(self).current_sequence_number <= final(self).current_sequence_number,
            final(self).current_sequence_number <= old(self).current_sequence_number + old(
                self,
            ).staged_total() + old(self).families,
            final(self).current_sequence_number + old(self).new_sst_files@.len() == old(
                self,
            ).current_sequence_number + r->Ok_0.new_sst_files@.len(),
            old(self).drained() && old(self).staged_total() == 0 ==> final(self).current_sequence_number == old(self).current_sequence_number,
            (forall|g: int|
                0 <= g < old(self).families ==> (#[trigger] old(self).collectors@[g]).total_cost()
                    + tl_cost_total(old(self).thread_locals@) < (1usize
                << GLOBAL_COLLECTOR_SIZE_SHIFT)) && old(self).new_sst_files@.len() == 0
                ==> r->Ok_0.new_sst_files@.len() == families_with_entries(
                old(self).history@,
                old(self).families as int,
            ),
            final(self).thread_local_collector_allocations == old(
                self,
            ).thread_local_collector_allocations,
            r->Ok_0.sequence_number == final(self).current_sequence_number,
            forall|f: int|
                0 <= f < old(self).families ==> ssts_family_mset(r->Ok_0.new_sst_files@, f) == old(
                    self,
                ).history@[f],
            forall|i: int|
                0 <= i < r->Ok_0.new_sst_files@.len() ==> sst_wf(
                    #[trigger] r->Ok_0.new_sst_files@[i],
                    old(self).families as int,
                ),
            forall|i: int|
                0 <= i < r->Ok_0.new_sst_files@.len() ==> old(self).initial_sequence_number@
                    < (#[trigger] r->Ok_0.new_sst_files@[i]).sequence_number
                    <= r->Ok_0.sequence_number,
            forall|i: int, j: int|
                #![trigger r->Ok_0.new_sst_files@[i], r->Ok_0.new_sst_files@[j]]
                0 <= i < j < r->Ok_0.new_sst_files@.len()
                    ==> r->Ok_0.new_sst_files@[i].sequence_number
                    < r->Ok_0.new_sst_files@[j].sequence_number,
            r->Ok_0.new_blob_files@ == old(self).new_blob_files@,
            forall|i: int|
                0 <= i < r->Ok_0.new_blob_files@.len() ==> old(self).initial_sequence_number@
                    < (#[trigger] r->Ok_0.new_blob_files@[i]).sequence_number
                    <= r->Ok_0.sequence_number,
            forall|i: int, j: int|
                #![trigger r->Ok_0.new_blob_files@[i], r->Ok_0.new_blob_files@[j]]
                0 <= i < j < r->Ok_0.new_blob_files@.len()
                    ==> r->Ok_0.new_blob_files@[i].sequence_number
                    != r->Ok_0.new_blob_files@[j].sequence_number,
            forall|i: int, j: int|
                #![trigger r->Ok_0.new_sst_files@[i], r->Ok_0.new_blob_files@[j]]
                0 <= i < r->Ok_0.new_sst_files@.len() && 0 <= j < r->Ok_0.new_blob_files@.len()
                    ==> r->Ok_0.new_sst_files@[i].sequence_number
                    != r->Ok_0.new_blob_files@[j].sequence_number,
    {
        proof {
            broadcast use vstd::seq_lib::group_to_multiset_ensures;
            broadcast use vstd::multiset::group_multiset_axioms;

        }
        let ghost batch0 = *self;
        // Under this hypothesis no shared collector can fill while the
        // workers are harvested: every family stays in one SST.
        let ghost calm = (forall|g: int|
            0 <= g < batch0.families ==> (#[trigger] batch0.collectors@[g]).total_cost()
                + tl_cost_total(batch0.thread_locals@) < (1usize << GLOBAL_COLLECTOR_SIZE_SHIFT))
            && batch0.new_sst_files@.len() == 0;
        // Drain every worker collector into its family's shared collector,
        // clearing every slot.
        let mut t: usize = 0;
        while t < self.thread_locals.len()
            invariant
                self.inv(),
                t <= self.thread_locals@.len(),
                self.thread_locals@.len() == batch0.thread_locals@.len(),
                self.families == batch0.families,
                self.history == batch0.history,
                self.new_blob_files == batch0.new_blob_files,
                self.initial_sequence_number == batch0.initial_sequence_number,
                self.active == batch0.active,
                batch0.current_sequence_number <= self.current_sequence_number,
                self.current_sequence_number + tl_len_total(self.thread_locals@) + self.families
                    <= u32::MAX,
                self.current_sequence_number + tl_len_total(self.thread_locals@)
                    <= batch0.current_sequence_number + tl_len_total(batch0.thread_locals@),
                tl_len_total(self.thread_locals@) <= tl_len_total(batch0.thread_locals@),
                self.current_sequence_number + batch0.new_sst_files@.len()
                    == batch0.current_sequence_number + self.new_sst_files@.len(),
                self.thread_local_collector_allocations
                    == batch0.thread_local_collector_allocations,
                calm == ((forall|g: int|
                    0 <= g < batch0.families ==> (#[trigger] batch0.collectors@[g]).total_cost()
                        + tl_cost_total(batch0.thread_locals@) < (1usize
                    << GLOBAL_COLLECTOR_SIZE_SHIFT)) && batch0.new_sst_files@.len() == 0),
                calm ==> self.new_sst_files@ == batch0.new_sst_files@ && (forall|g: int|
                    0 <= g < self.families ==> (#[trigger] self.collectors@[g]).total_cost()
                        + tl_cost_total(self.thread_locals@)
                        <= batch0.collectors@[g].total_cost() + tl_cost_total(
                        batch0.thread_locals@,
                    )),
                forall|t2: int, g: int|
                    0 <= t2 < t && 0 <= g < self.families
                        ==> (#[trigger] self.thread_locals@[t2].collectors@[g]) is None,
            decreases self.thread_locals@.len() - t,
        {
            let mut f: usize = 0;
            while f < self.families
                invariant
                    self.inv(),
                    t < self.thread_locals@.len(),
                    self.thread_locals@.len() == batch0.thread_locals@.len(),
                    f <= self.families,
                    self.families == batch0.families,
                    self.history == batch0.history,
                    self.new_blob_files == batch0.new_blob_files,
                    self.initial_sequence_number == batch0.initial_sequence_number,
                    self.active == batch0.active,
                    batch0.current_sequence_number <= self.current_sequence_number,
                    self.current_sequence_number + tl_len_total(self.thread_locals@)
                        + self.families <= u32::MAX,
                    self.current_sequence_number + tl_len_total(self.thread_locals@)
                        <= batch0.current_sequence_number + tl_len_total(batch0.thread_locals@),
                    tl_len_total(self.thread_locals@) <= tl_len_total(batch0.thread_locals@),
                    self.current_sequence_number + batch0.new_sst_files@.len()
                        == batch0.current_sequence_number + self.new_sst_files@.len(),
                    self.thread_local_collector_allocations
                        == batch0.thread_local_collector_allocations,
                    calm == ((forall|g: int|
                        0 <= g < batch0.families ==> (#[trigger] batch0.collectors@[g]).total_cost()
                            + tl_cost_total(batch0.thread_locals@) < (1usize
                        << GLOBAL_COLLECTOR_SIZE_SHIFT)) && batch0.new_sst_files@.len() == 0),
                    calm ==> self.new_sst_files@ == batch0.new_sst_files@ && (forall|g: int|
                        0 <= g < self.families ==> (#[trigger] self.collectors@[g]).total_cost()
                            + tl_cost_total(self.thread_locals@)
                            <= batch0.collectors@[g].total_cost() + tl_cost_total(
                            batch0.thread_locals@,
                        )),
                    forall|t2: int, g: int|
                        0 <= t2 < t && 0 <= g < self.families
                            ==> (#[trigger] self.thread_locals@[t2].collectors@[g]) is None,
                    forall|g: int|
                        0 <= g < f ==> (#[trigger] self.thread_locals@[t as int].collectors@[g])
                            is None,
                decreases self.families - f,
            {
                let ghost pre = *self;
                let ghost ts_pre = self.thread_locals@;
                let occupied = self.thread_locals[t].collectors[f].is_some();
                if !occupied {
                    f += 1;
                    continue ;
                }
                proof {
                    // an occupied slot holds at least one staged entry
                    lemma_tl_len_total_component(ts_pre, t as int);
                    lemma_slots_len_component(ts_pre[t as int].collectors@, f as int);
                }
                let mut c = self.take_thread_local_collector(t, f);
                let ghost taken_mset = c@.to_multiset();
                let ghost taken_view = c@;
                let ghost taken_cost = c.total_cost();
                let ghost ts_mid = self.thread_locals@;
                proof {
                    lemma_tl_family_mset_update(ts_pre, t as int, ts_mid[t as int], f as int);
                    assert(slot_mset(ts_mid[t as int].collectors@[f as int]) == Multiset::<
                        EntryView,
                    >::empty());
                    assert(tl_family_mset(ts_mid, f as int).add(taken_mset) == tl_family_mset(
                        ts_pre,
                        f as int,
                    )) by {
                        assert(tl_family_mset(ts_pre, f as int).add(Multiset::<EntryView>::empty())
                            =~= tl_family_mset(ts_pre, f as int));
                    }
                    assert forall|g: int|
                        0 <= g < self.families as int && g != f as int implies tl_family_mset(
                        ts_mid,
                        g,
                    ) == tl_family_mset(ts_pre, g) by {
                        lemma_tl_family_mset_update(ts_pre, t as int, ts_mid[t as int], g);
                        assert(ts_mid[t as int].collectors@[g] == ts_pre[t as int].collectors@[g]);
                        lemma_multiset_cancel(
                            tl_family_mset(ts_mid, g),
                            tl_family_mset(ts_pre, g),
                            slot_mset(ts_pre[t as int].collectors@[g]),
                        );
                    }
                    // the taken collector is within the staged total
                    lemma_tl_len_total_component(ts_pre, t as int);
                    lemma_slots_len_component(ts_pre[t as int].collectors@, f as int);
                    lemma_tl_len_total_update(ts_pre, t as int, ts_mid[t as int]);
                    lemma_slots_len_update(ts_pre[t as int].collectors@, f as int, None);
                    assert(tl_len_total(ts_mid) + c@.len() == tl_len_total(ts_pre));
                }
                let ghost shared0 = self.collectors@;
                let ghost ssts0 = self.new_sst_files@;
                if !c.is_empty() {
                    let res = self.flush_thread_local_collector(f, &mut c);
                    match res {
                        Ok(()) => {},
                        Err(e) => {
                            proof {
                                assert(false);
                            }
                            return Err(e);
                        },
                    }
                } else {
                    proof {
                        assert(c@ =~= Seq::<EntryView>::empty());
                        lemma_empty_seq_mset();
                        assert(taken_mset == Multiset::<EntryView>::empty());
                    }
                }
                self.idle_thread_local_collectors.push(c);
                proof {
                    assert(self.collectors@[f as int]@.to_multiset().add(
                        ssts_family_mset(self.new_sst_files@, f as int),
                    ) == shared0[f as int]@.to_multiset().add(
                        ssts_family_mset(ssts0, f as int),
                    ).add(taken_mset)) by {
                        if taken_mset == Multiset::<EntryView>::empty() && self.collectors@
                            == shared0 && self.new_sst_files@ == ssts0 {
                            assert(shared0[f as int]@.to_multiset().add(
                                ssts_family_mset(ssts0, f as int),
                            ).add(Multiset::<EntryView>::empty()) =~= shared0[f as int]@.to_multiset().add(
                                ssts_family_mset(ssts0, f as int),
                            ));
                        }
                    }
                    assert forall|g: int|
                        0 <= g < self.families as int implies #[trigger] self.history@[g]
                        == tl_family_mset(self.thread_locals@, g).add(
                        self.collectors@[g]@.to_multiset(),
                    ).add(ssts_family_mset(self.new_sst_files@, g)) by {
                        if g == f as int {
                            let tlm = tl_family_mset(ts_mid, g);
                            let sm = self.collectors@[g]@.to_multiset();
                            let em = ssts_family_mset(self.new_sst_files@, g);
                            let old_sm = shared0[g]@.to_multiset();
                            let old_em = ssts_family_mset(ssts0, g);
                            assert(pre.history@[g] == tl_family_mset(ts_pre, g).add(old_sm).add(
                                old_em,
                            ));
                            assert(sm.add(em) == old_sm.add(old_em).add(taken_mset));
                            assert(tlm.add(sm).add(em) =~= tlm.add(sm.add(em)));
                            assert(tlm.add(old_sm.add(old_em).add(taken_mset)) =~= tlm.add(
                                taken_mset,
                            ).add(old_sm).add(old_em));
                        } else {
                            assert(self.collectors@[g] == shared0[g]);
                            assert(ssts_family_mset(self.new_sst_files@, g) == ssts_family_mset(
                                ssts0,
                                g,
                            ));
                        }
                    }
                    assert(self.history_ok());
                    assert(self.structure_ok());
                    assert(tl_len_total(self.thread_locals@) == tl_len_total(ts_mid));
                    lemma_tl_cost_update(ts_pre, t as int, ts_mid[t as int]);
                    lemma_slots_cost_update(ts_pre[t as int].collectors@, f as int, None);
                    assert(tl_cost_total(ts_mid) + taken_cost == tl_cost_total(ts_pre));
                    if calm {
                        lemma_tl_cost_component(ts_pre, t as int);
                        lemma_slots_cost_component(ts_pre[t as int].collectors@, f as int);
                        assert(taken_cost <= tl_cost_total(ts_pre));
                        assert(shared0 == pre.collectors@);
                        assert(ts_pre == pre.thread_locals@);
                        assert(pre.collectors@[f as int].total_cost() + tl_cost_total(
                            pre.thread_locals@,
                        ) <= batch0.collectors@[f as int].total_cost() + tl_cost_total(
                            batch0.thread_locals@,
                        ));
                        assert(shared0[f as int].total_cost() + tl_cost_total(ts_pre)
                            <= batch0.collectors@[f as int].total_cost() + tl_cost_total(
                            batch0.thread_locals@,
                        ));
                        assert(forall|g: int|
                            0 <= g < batch0.families ==> (#[trigger] batch0.collectors@[g]).total_cost()
                                + tl_cost_total(batch0.thread_locals@) < (1usize
                            << GLOBAL_COLLECTOR_SIZE_SHIFT));
                        assert(batch0.collectors@[f as int].total_cost() + tl_cost_total(
                            batch0.thread_locals@,
                        ) < (1usize << GLOBAL_COLLECTOR_SIZE_SHIFT));
                        assert(shared0[f as int].total_cost() + taken_cost < (1usize
                            << GLOBAL_COLLECTOR_SIZE_SHIFT));
                        crate::collector::lemma_sums_add(shared0[f as int]@, taken_view);
                        if taken_view.len() == 0 {
                            assert(shared0[f as int]@ + taken_view =~= shared0[f as int]@);
                        }
                        assert forall|g: int|
                            0 <= g < self.families implies (#[trigger] self.collectors@[g]).total_cost()
                            + tl_cost_total(self.thread_locals@)
                            <= batch0.collectors@[g].total_cost() + tl_cost_total(
                            batch0.thread_locals@,
                        ) by {
                            if g == f as int {
                                assert(self.collectors@[g]@ == shared0[g]@ + taken_view);
                            } else {
                                assert(self.collectors@[g] == shared0[g]);
                            }
                        }
                    }
                }
                f += 1;
            }
            t += 1;
        }
        // Emit every non-empty shared collector as one SST for its family.
        let ghost harvested = *self;
        let mut f: usize = 0;
        while f < self.families
            invariant
                self.inv(),
                f <= self.families,
                self.families == batch0.families,
                self.history == batch0.history,
                self.new_blob_files == batch0.new_blob_files,
                self.initial_sequence_number == batch0.initial_sequence_number,
                self.active == batch0.active,
                self.thread_locals@.len() == batch0.thread_locals@.len(),
                batch0.current_sequence_number <= self.current_sequence_number,
                self.current_sequence_number + self.families - f <= u32::MAX,
                self.current_sequence_number <= harvested.current_sequence_number + f,
                harvested.current_sequence_number + tl_len_total(harvested.thread_locals@)
                    <= batch0.current_sequence_number + tl_len_total(batch0.thread_locals@),
                harvested.current_sequence_number + batch0.new_sst_files@.len()
                    == batch0.current_sequence_number + harvested.new_sst_files@.len(),
                self.current_sequence_number + harvested.new_sst_files@.len()
                    == harvested.current_sequence_number + self.new_sst_files@.len(),
                self.thread_local_collector_allocations
                    == batch0.thread_local_collector_allocations,
                batch0.drained() && batch0.staged_total() == 0
                    ==> self.current_sequence_number == batch0.current_sequence_number,
                calm ==> self.new_sst_files@.len() == families_with_entries(
                    batch0.history@,
                    f as int,
                ),
                calm ==> (forall|g: int|
                    f <= g < self.families ==> ssts_family_mset(self.new_sst_files@, g)
                        == Multiset::<EntryView>::empty()),
                forall|t2: int, g: int|
                    0 <= t2 < self.thread_locals@.len() && 0 <= g < self.families
                        ==> (#[trigger] self.thread_locals@[t2].collectors@[g]) is None,
                forall|g: int| 0 <= g < f ==> (#[trigger] self.collectors@[g])@.len() == 0,
            decreases self.families - f,
        {
            let ghost pre = *self;
            let mut c = self.take_idle_collector();
            self.collectors.set_and_swap(f, &mut c);
            let ghost shared_mset = c@.to_multiset();
            proof {
                lemma_empty_seq_mset();
                assert(self.collectors@[f as int]@ =~= Seq::<EntryView>::empty());
                assert(self.collectors@[f as int]@.to_multiset() == Multiset::<
                    EntryView,
                >::empty());
            }
            if !c.is_empty() {
                proof {
                    // on a drained batch every shared collector is empty,
                    // so this branch cannot run and the counter stays put
                    broadcast use vstd::seq_lib::group_to_multiset_ensures;
                    broadcast use vstd::multiset::group_multiset_axioms;

                    if batch0.drained() && batch0.staged_total() == 0 {
                        assert(pre.history@[f as int] == Multiset::<EntryView>::empty());
                        assert(pre.history@[f as int] == tl_family_mset(
                            pre.thread_locals@,
                            f as int,
                        ).add(pre.collectors@[f as int]@.to_multiset()).add(
                            ssts_family_mset(pre.new_sst_files@, f as int),
                        ));
                        let tlm = tl_family_mset(pre.thread_locals@, f as int);
                        let shm = pre.collectors@[f as int]@.to_multiset();
                        let em = ssts_family_mset(pre.new_sst_files@, f as int);
                        assert(tlm.add(shm).add(em).len() == 0);
                        assert(tlm.add(shm).len() + em.len() == 0);
                        assert(tlm.len() + shm.len() == tlm.add(shm).len());
                        assert(pre.collectors@[f as int]@.to_multiset().len() == 0);
                        assert(c@.to_multiset().len() == c@.len());
                        assert(false);
                    }
                }
                c.sorted();
                let tks = c.total_key_size;
                let tvs = c.total_value_size;
                let ghost full_view = c@;
                let es = c.drain();
                proof {
                    assert(evs(es@) == full_view);
                }
                let sst = self.create_sst_file(f, es, tks, tvs);
                let ghost pre_push = self.new_sst_files@;
                let ghost pre_batch = *self;
                self.new_sst_files.push(sst);
                self.idle_collectors.push(c);
                proof {
                    lemma_ssts_family_mset_push(pre_push, sst, f as int);
                    assert(sst_mset(sst) == shared_mset) by {
                        assert(full_view.to_multiset() == pre.collectors@[f as int]@.to_multiset());
                    }
                    assert forall|i: int|
                        0 <= i < self.new_sst_files@.len() implies sst_wf(
                        #[trigger] self.new_sst_files@[i],
                        self.families as int,
                    ) by {
                        if i < pre_push.len() {
                            assert(self.new_sst_files@[i] == pre_push[i]);
                        }
                    }
                    assert forall|i: int|
                        0 <= i < self.new_sst_files@.len() implies self.initial_sequence_number@
                        < (#[trigger] self.new_sst_files@[i]).sequence_number
                        <= self.current_sequence_number by {
                        if i < pre_push.len() {
                            assert(self.new_sst_files@[i] == pre_push[i]);
                        }
                    }
                    assert forall|i: int, j: int|
                        #![trigger self.new_sst_files@[i], self.new_sst_files@[j]]
                        0 <= i < j < self.new_sst_files@.len()
                        implies self.new_sst_files@[i].sequence_number
                        < self.new_sst_files@[j].sequence_number by {
                        if j < pre_push.len() {
                            assert(self.new_sst_files@[i] == pre_push[i]);
                            assert(self.new_sst_files@[j] == pre_push[j]);
                        } else {
                            if i < pre_push.len() {
                                assert(self.new_sst_files@[i] == pre_push[i]);
                                assert(pre_push[i].sequence_number
                                    <= pre_batch.current_sequence_number);
                            }
                        }
                    }
                    assert forall|i: int, j: int|
                        #![trigger self.new_sst_files@[i], self.new_blob_files@[j]]
                        0 <= i < self.new_sst_files@.len() && 0 <= j < self.new_blob_files@.len()
                        implies self.new_sst_files@[i].sequence_number
                        != self.new_blob_files@[j].sequence_number by {
                        if i < pre_push.len() {
                            assert(self.new_sst_files@[i] == pre_push[i]);
                        } else {
                            assert(self.new_blob_files@[j].sequence_number
                                <= pre_batch.current_sequence_number);
                        }
                    }
                    assert(self.artifacts_ok());
                    assert forall|g: int|
                        0 <= g < self.families as int implies #[trigger] self.history@[g]
                        == tl_family_mset(self.thread_locals@, g).add(
                        self.collectors@[g]@.to_multiset(),
                    ).add(ssts_family_mset(self.new_sst_files@, g)) by {
                        let tlm = tl_family_mset(self.thread_locals@, g);
                        if g == f as int {
                            let em = ssts_family_mset(pre_push, g);
                            assert(pre.history@[g] == tlm.add(shared_mset).add(em));
                            assert(ssts_family_mset(self.new_sst_files@, g) == em.add(
                                shared_mset,
                            ));
                            assert(tlm.add(Multiset::<EntryView>::empty()).add(
                                em.add(shared_mset),
                            ) =~= tlm.add(shared_mset).add(em));
                        } else {
                            lemma_ssts_family_mset_push(pre_push, sst, g);
                            assert(self.collectors@[g] == pre.collectors@[g]);
                        }
                    }
                    assert(self.history_ok());
                    assert(self.structure_ok());
                    if calm {
                        assert forall|t2: int|
                            0 <= t2 < pre.thread_locals@.len() implies 0 <= (f as int)
                            && (f as int) < (#[trigger] pre.thread_locals@[t2]).collectors@.len()
                            && pre.thread_locals@[t2].collectors@[f as int] is None by {
                            assert(tl_state_ok(pre.thread_locals@[t2], pre.families as int));
                        }
                        lemma_tl_family_mset_all_none(pre.thread_locals@, f as int);
                        assert(ssts_family_mset(pre.new_sst_files@, f as int) == Multiset::<
                            EntryView,
                        >::empty());
                        assert(pre.history@[f as int] == Multiset::<EntryView>::empty().add(
                            shared_mset,
                        ).add(Multiset::<EntryView>::empty()));
                        assert(Multiset::<EntryView>::empty().add(shared_mset).add(Multiset::<
                            EntryView,
                        >::empty()) =~= shared_mset);
                        assert(batch0.history@[f as int] == shared_mset);
                        assert(shared_mset.len() == full_view.len());
                        assert(batch0.history@[f as int].len() > 0);
                        assert(self.new_sst_files@.len() == families_with_entries(
                            batch0.history@,
                            f as int + 1,
                        ));
                        assert forall|g: int|
                            f as int + 1 <= g < self.families implies ssts_family_mset(
                            self.new_sst_files@,
                            g,
                        ) == Multiset::<EntryView>::empty() by {
                            lemma_ssts_family_mset_push(pre_push, sst, g);
                        }
                    }
                }
            } else {
                self.idle_collectors.push(c);
                proof {
                    assert(self.shared_collector_allocations@ == self.families
                        + self.idle_collectors@.len());
                    assert(c@ =~= Seq::<EntryView>::empty());
                    assert(shared_mset == Multiset::<EntryView>::empty());
                    assert forall|g: int|
                        0 <= g < self.families as int implies #[trigger] self.history@[g]
                        == tl_family_mset(self.thread_locals@, g).add(
                        self.collectors@[g]@.to_multiset(),
                    ).add(ssts_family_mset(self.new_sst_files@, g)) by {
                        let tlm = tl_family_mset(self.thread_locals@, g);
                        if g == f as int {
                            assert(pre.history@[g] == tlm.add(Multiset::<EntryView>::empty()).add(
                                ssts_family_mset(self.new_sst_files@, g),
                            ));
                        } else {
                            assert(self.collectors@[g] == pre.collectors@[g]);
                        }
                    }
                    assert(self.history_ok());
                    assert(self.structure_ok());
                    if calm {
                        assert forall|t2: int|
                            0 <= t2 < pre.thread_locals@.len() implies 0 <= (f as int)
                            && (f as int) < (#[trigger] pre.thread_locals@[t2]).collectors@.len()
                            && pre.thread_locals@[t2].collectors@[f as int] is None by {
                            assert(tl_state_ok(pre.thread_locals@[t2], pre.families as int));
                        }
                        lemma_tl_family_mset_all_none(pre.thread_locals@, f as int);
                        assert(ssts_family_mset(pre.new_sst_files@, f as int) == Multiset::<
                            EntryView,
                        >::empty());
                        assert(pre.history@[f as int] == Multiset::<EntryView>::empty().add(
                            shared_mset,
                        ).add(Multiset::<EntryView>::empty()));
                        assert(Multiset::<EntryView>::empty().add(shared_mset).add(Multiset::<
                            EntryView,
                        >::empty()) =~= shared_mset);
                        assert(batch0.history@[f as int] == shared_mset);
                        assert(c@.to_multiset().len() == c@.len());
                        assert(batch0.history@[f as int].len() == 0);
                        assert(self.new_sst_files@.len() == families_with_entries(
                            batch0.history@,
                            f as int + 1,
                        ));
                    }
                }
            }
            f += 1;
        }
        // Hand out everything: the SSTs (already in ascending sequence
        // order), the blobs, and the final counter value.
        let mut out_ssts: Vec<SstFile> = Vec::new();
        core::mem::swap(&mut self.new_sst_files, &mut out_ssts);
        let mut out_blobs: Vec<BlobFile> = Vec::new();
        core::mem::swap(&mut self.new_blob_files, &mut out_blobs);
        let seq = self.current_sequence_number;
        proof {
            assert forall|g: int|
                0 <= g < self.families as int implies ssts_family_mset(out_ssts@, g)
                == batch0.history@[g] by {
                lemma_tl_family_mset_all_none(self.thread_locals@, g);
                assert(self.collectors@[g]@.len() == 0);
                assert(self.collectors@[g]@ =~= Seq::<EntryView>::empty());
                lemma_empty_seq_mset();
                assert(Multiset::<EntryView>::empty().add(Multiset::<EntryView>::empty()).add(
                    ssts_family_mset(out_ssts@, g),
                ) =~= ssts_family_mset(out_ssts@, g));
            }
            self.history@ = Seq::new(batch0.families as nat, |g: int| Multiset::<EntryView>::empty());
            self.active@ = false;
            assert forall|g: int|
                0 <= g < self.families as int implies #[trigger] self.history@[g]
                == tl_family_mset(self.thread_locals@, g).add(
                self.collectors@[g]@.to_multiset(),
            ).add(ssts_family_mset(self.new_sst_files@, g)) by {
                lemma_tl_family_mset_all_none(self.thread_locals@, g);
                assert(self.collectors@[g]@ =~= Seq::<EntryView>::empty());
                lemma_empty_seq_mset();
                assert(Multiset::<EntryView>::empty().add(Multiset::<EntryView>::empty()).add(
                    Multiset::<EntryView>::empty(),
                ) =~= Multiset::<EntryView>::empty());
            }
            assert(self.history_ok());
            assert(self.structure_ok());
            assert(self.artifacts_ok());
            assert forall|t2: int, g: int|
                0 <= t2 < self.thread_locals@.len() && 0 <= g
                    < (#[trigger] self.thread_locals@[t2]).collectors@.len() implies (#[trigger] self.thread_locals@[t2].collectors@[g]) is None by {
                assert(tl_state_ok(self.thread_locals@[t2], self.families as int));
            }
            lemma_tl_len_total_all_none(self.thread_locals@);
        }
        Ok(FinishResult { sequence_number: seq, new_sst_files: out_ssts, new_blob_files: out_blobs })
    }
}

} // verus!

verus! {

/// Law: family isolation. An entry found in an SST is counted in the
/// accepted multiset of that SST's own family, and of no other through that
/// occurrence; with the conservation equation of `finish`, an SST of family
/// `F` can only hold entries accepted under `F`.
pub proof fn lemma_family_isolation(ssts: Seq<SstFile>, i: int, j: int)
    requires
        0 <= i < ssts.len(),
        0 <= j < evs(ssts[i].entries@).len(),
    ensures
        ssts_family_mset(ssts, ssts[i].family as int).count(evs(ssts[i].entries@)[j]) > 0,
    decreases ssts.len(),
{
    broadcast use vstd::seq_lib::group_to_multiset_ensures;
    broadcast use vstd::multiset::group_multiset_axioms;

    let f = ssts[i].family as int;
    let e = evs(ssts[i].entries@)[j];
    if i == ssts.len() - 1 {
        assert(ssts.last() == ssts[i]);
        assert(evs(ssts[i].entries@).contains(e));
        assert(sst_mset(ssts[i]).count(e) > 0);
    } else {
        lemma_family_isolation(ssts.drop_last(), i, j);
        assert(ssts.drop_last()[i] == ssts[i]);
    }
}

} // verus!

verus! {

/// Capacity cost staged across one worker state's slots.
pub open spec fn slots_cost_total(s: Seq<Option<Collector>>) -> nat
    decreases s.len(),
{
    if s.len() == 0 {
        0
    } else {
        slots_cost_total(s.drop_last()) + (match s.last() {
            Some(c) => c.total_cost(),
            None => 0,
        })
    }
}

/// Capacity cost staged across all worker states.
pub open spec fn tl_cost_total(ts: Seq<ThreadLocalState>) -> nat
    decreases ts.len(),
{
    if ts.len() == 0 {
        0
    } else {
        tl_cost_total(ts.drop_last()) + slots_cost_total(ts.last().collectors@)
    }
}

/// Replacing one family's slot trades its old staged cost for the new.
pub proof fn lemma_slots_cost_update(s: Seq<Option<Collector>>, f: int, o: Option<Collector>)
    requires
        0 <= f < s.len(),
    ensures
        slots_cost_total(s.update(f, o)) + (match s[f] {
            Some(c) => c.total_cost(),
            None => 0,
        }) == slots_cost_total(s) + (match o {
            Some(c) => c.total_cost(),
            None => 0,
        }),
    decreases s.len(),
{
    let s2 = s.update(f, o);
    if f == s.len() - 1 {
        assert(s2.drop_last() =~= s.drop_last());
        assert(s2.last() == o);
    } else {
        assert(s2.drop_last() =~= s.drop_last().update(f, o));
        assert(s2.last() == s.last());
        lemma_slots_cost_update(s.drop_last(), f, o);
        assert(s.drop_last()[f] == s[f]);
    }
}

/// Replacing one worker's state trades its old staged cost for the new.
pub proof fn lemma_tl_cost_update(ts: Seq<ThreadLocalState>, t: int, st: ThreadLocalState)
    requires
        0 <= t < ts.len(),
    ensures
        tl_cost_total(ts.update(t, st)) + slots_cost_total(ts[t].collectors@) == tl_cost_total(ts)
            + slots_cost_total(st.collectors@),
    decreases ts.len(),
{
    let ts2 = ts.update(t, st);
    if t == ts.len() - 1 {
        assert(ts2.drop_last() =~= ts.drop_last());
        assert(ts2.last() == st);
    } else {
        assert(ts2.drop_last() =~= ts.drop_last().update(t, st));
        assert(ts2.last() == ts.last());
        lemma_tl_cost_update(ts.drop_last(), t, st);
        assert(ts.drop_last()[t] == ts[t]);
    }
}

/// One slot's staged cost is within one worker's total, which is within
/// the total over all workers.
pub proof fn lemma_tl_cost_component(ts: Seq<ThreadLocalState>, t: int)
    requires
        0 <= t < ts.len(),
    ensures
        tl_cost_total(ts) >= slots_cost_total(ts[t].collectors@),
    decreases ts.len(),
{
    if t == ts.len() - 1 {
    } else {
        lemma_tl_cost_component(ts.drop_last(), t);
        assert(ts.drop_last()[t] == ts[t]);
    }
}

/// One family's staged cost is within a worker's total.
pub proof fn lemma_slots_cost_component(s: Seq<Option<Collector>>, f: int)
    requires
        0 <= f < s.len(),
    ensures
        slots_cost_total(s) >= (match s[f] {
            Some(c) => c.total_cost(),
            None => 0,
        }),
    decreases s.len(),
{
    if f == s.len() - 1 {
    } else {
        lemma_slots_cost_component(s.drop_last(), f);
        assert(s.drop_last()[f] == s[f]);
    }
}

/// How many of the first `n` families have accepted entries outstanding.
pub open spec fn families_with_entries(h: Seq<Multiset<EntryView>>, n: int) -> nat
    decreases n,
{
    if n <= 0 {
        0
    } else {
        families_with_entries(h, n - 1) + (if h[n - 1].len() > 0 {
            1nat
        } else {
            0
        })
    }
}

} // verus!

verus! {

impl WriteBatch {
    /// Law: with a single worker and a single family, the staged cost is
    /// exactly that worker's pending cost, so the cost a caller tracks
    /// through `put` and `delete` is the whole staged cost.
    pub proof fn lemma_single_slot_cost(self)
        requires
            self.thread_locals@.len() <= 1,
            forall|t: int|
                0 <= t < self.thread_locals@.len() ==> (#[trigger] self.thread_locals@[t]).collectors@.len() == 1,
        ensures
            tl_cost_total(self.thread_locals@) == self.tl_pending_cost(0, 0),
    {
        let ts = self.thread_locals@;
        if ts.len() == 1 {
            assert(ts.drop_last().len() == 0);
            assert(tl_cost_total(ts.drop_last()) == 0);
            assert(ts.last() == ts[0]);
            assert(tl_cost_total(ts) == slots_cost_total(ts[0].collectors@));
            let s = ts[0].collectors@;
            assert(s.len() == 1);
            assert(s.drop_last().len() == 0);
            assert(slots_cost_total(s.drop_last()) == 0);
            assert(slots_cost_total(s) == (match s.last() {
                Some(c) => c.total_cost(),
                None => 0,
            }));
            assert(s.last() == s[0]);
            assert(self.tl_pending_cost(0, 0) == (match s[0] {
                Some(c) => c.total_cost(),
                None => 0,
            }));
        } else {
            assert(ts.len() == 0);
            assert(tl_cost_total(ts) == 0);
        }
    }
}

} // verus!
