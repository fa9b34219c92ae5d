//! A bounded, append-only buffer of entries for one family, with running
//! totals of key and inline value bytes and a capacity class.

use vstd::prelude::*;

use crate::constants::{
    COLLECTOR_SIZE_SHIFT_LIMIT, MAX_ENTRY_COST, MAX_MEDIUM_VALUE_SIZE, MAX_SMALL_VALUE_SIZE,
};
use crate::entry::{entries_sorted, evs, filter_by_key, Entry, EntryValue, EntryView};
use crate::sort::sort_entries_by_key;

verus! {

/// Total key bytes of a sequence of entries.
pub open spec fn sum_key_bytes(s: Seq<EntryView>) -> nat
    decreases s.len(),
{
    if s.len() == 0 {
        0
    } else {
        sum_key_bytes(s.drop_last()) + s.last().key.len()
    }
}

/// Total inline value bytes of a sequence of entries.
pub open spec fn sum_inline_bytes(s: Seq<EntryView>) -> nat
    decreases s.len(),
{
    if s.len() == 0 {
        0
    } else {
        sum_inline_bytes(s.drop_last()) + s.last().value.inline_len()
    }
}

/// Removing an entry takes exactly its key bytes out of the total.
pub proof fn lemma_sum_key_bytes_remove(s: Seq<EntryView>, i: int)
    requires
        0 <= i < s.len(),
    ensures
        sum_key_bytes(s.remove(i)) + s[i].key.len() == sum_key_bytes(s),
    decreases s.len(),
{
    if i == s.len() - 1 {
        assert(s.remove(i) =~= s.drop_last());
    } else {
        assert(s.remove(i).drop_last() =~= s.drop_last().remove(i));
        assert(s.remove(i).last() == s.last());
        lemma_sum_key_bytes_remove(s.drop_last(), i);
        assert(s.drop_last()[i] == s[i]);
    }
}

/// Removing an entry takes exactly its inline bytes out of the total.
pub proof fn lemma_sum_inline_bytes_remove(s: Seq<EntryView>, i: int)
    requires
        0 <= i < s.len(),
    ensures
        sum_inline_bytes(s.remove(i)) + s[i].value.inline_len() == sum_inline_bytes(s),
    decreases s.len(),
{
    if i == s.len() - 1 {
        assert(s.remove(i) =~= s.drop_last());
    } else {
        assert(s.remove(i).drop_last() =~= s.drop_last().remove(i));
        assert(s.remove(i).last() == s.last());
        lemma_sum_inline_bytes_remove(s.drop_last(), i);
        assert(s.drop_last()[i] == s[i]);
    }
}

/// Byte totals distribute over concatenation.
pub proof fn lemma_sums_add(a: Seq<EntryView>, b: Seq<EntryView>)
    ensures
        sum_key_bytes(a + b) == sum_key_bytes(a) + sum_key_bytes(b),
        sum_inline_bytes(a + b) == sum_inline_bytes(a) + sum_inline_bytes(b),
    decreases b.len(),
{
    if b.len() == 0 {
        assert(a + b =~= a);
    } else {
        assert((a + b).drop_last() =~= a + b.drop_last());
        assert((a + b).last() == b.last());
        lemma_sums_add(a, b.drop_last());
    }
}

/// Reordering entries changes neither byte total.
pub proof fn lemma_sums_permutation(a: Seq<EntryView>, b: Seq<EntryView>)
    requires
        a.to_multiset() == b.to_multiset(),
    ensures
        sum_key_bytes(a) == sum_key_bytes(b),
        sum_inline_bytes(a) == sum_inline_bytes(b),
    decreases a.len(),
{
    broadcast use vstd::seq_lib::group_to_multiset_ensures;

    if a.len() > 0 {
        let x = a.last();
        assert(a.contains(x));
        assert(b.to_multiset().count(x) > 0);
        assert(b.contains(x));
        let i = choose|i: int| 0 <= i < b.len() && b[i] == x;
        assert(a.remove(a.len() - 1) =~= a.drop_last());
        assert(a.drop_last().to_multiset() =~= a.to_multiset().remove(x));
        assert(b.remove(i).to_multiset() =~= b.to_multiset().remove(x));
        lemma_sums_permutation(a.drop_last(), b.remove(i));
        lemma_sum_key_bytes_remove(b, i);
        lemma_sum_inline_bytes_remove(b, i);
    } else {
        if b.len() > 0 {
            assert(b.to_multiset().len() == b.len());
            assert(a.to_multiset().len() == 0);
        }
    }
}

/// Every entry of a sequence stays within the per-entry cost bound.
pub open spec fn entry_costs_bounded(s: Seq<EntryView>) -> bool {
    forall|i: int| 0 <= i < s.len() ==> (#[trigger] s[i]).cost() <= MAX_ENTRY_COST
}

/// A bounded, append-only buffer of entries, parameterised by a capacity
/// class: a power-of-two byte threshold expressed as a size shift.
pub struct Collector {
    /// The buffered entries, in insertion order until [`Collector::sorted`].
    pub entries: Vec<Entry>,
    /// Running total of key bytes over `entries`.
    pub total_key_size: usize,
    /// Running total of inline value bytes over `entries`.
    pub total_value_size: usize,
    /// Capacity exponent: the collector is full once the cumulative cost
    /// reaches `1 << size_shift`.
    pub size_shift: u32,
}

impl View for Collector {
    type V = Seq<EntryView>;

    open spec fn view(&self) -> Seq<EntryView> {
        evs(self.entries@)
    }
}

impl Collector {
    /// The running totals match the entries, every entry cost is bounded,
    /// and the capacity class is sane.
    pub open spec fn wf(self) -> bool {
        &&& self.size_shift < COLLECTOR_SIZE_SHIFT_LIMIT
        &&& self.total_key_size == sum_key_bytes(self@)
        &&& self.total_value_size == sum_inline_bytes(self@)
        &&& sum_key_bytes(self@) + sum_inline_bytes(self@) <= usize::MAX
        &&& entry_costs_bounded(self@)
    }

    /// The byte threshold of this collector's capacity class.
    pub open spec fn threshold(self) -> nat {
        (1usize << self.size_shift) as nat
    }

    /// Cumulative capacity cost of the buffered entries.
    pub open spec fn total_cost(self) -> nat {
        sum_key_bytes(self@) + sum_inline_bytes(self@)
    }

    /// Whether the cumulative cost has crossed the class threshold.
    pub open spec fn spec_is_full(self) -> bool {
        self.total_cost() >= self.threshold()
    }

    /// Creates an empty collector of the given capacity class.
    pub fn new(size_shift: u32) -> (r: Self)
        requires
            size_shift < COLLECTOR_SIZE_SHIFT_LIMIT,
        ensures
            r.wf(),
            r@ =~= Seq::<EntryView>::empty(),
            r.size_shift == size_shift,
    {
        Collector { entries: Vec::new(), total_key_size: 0, total_value_size: 0, size_shift }
    }

    /// Appends an inline entry; the class hint is `Small` or `Medium` by the
    /// value's length. Adds the key bytes and the value bytes to the totals.
    pub fn put(&mut self, key: Vec<u8>, value: Vec<u8>)
        requires
            old(self).wf(),
            key@.len() + value@.len() <= MAX_ENTRY_COST,
            old(self).total_cost() + key@.len() + value@.len() <= usize::MAX,
            value@.len() <= MAX_MEDIUM_VALUE_SIZE,
        ensures
            final(self).wf(),
            final(self)@ == old(self)@.push(
                EntryView {
                    key: key@,
                    value: if value@.len() <= MAX_SMALL_VALUE_SIZE {
                        crate::entry::EntryValueView::Small { value: value@ }
                    } else {
                        crate::entry::EntryValueView::Medium { value: value@ }
                    },
                },
            ),
            final(self).size_shift == old(self).size_shift,
            final(self).total_cost() == old(self).total_cost() + key@.len() + value@.len(),
    {
        let entry = if value.len() <= MAX_SMALL_VALUE_SIZE {
            Entry { key, value: EntryValue::Small { value } }
        } else {
            Entry { key, value: EntryValue::Medium { value } }
        };
        self.push_entry(entry);
    }

    /// Appends a blob pointer; only the key bytes count towards the totals.
    pub fn put_blob(&mut self, key: Vec<u8>, sequence_number: u32)
        requires
            old(self).wf(),
            key@.len() <= MAX_ENTRY_COST,
            old(self).total_cost() + key@.len() <= usize::MAX,
        ensures
            final(self).wf(),
            final(self)@ == old(self)@.push(
                EntryView {
                    key: key@,
                    value: crate::entry::EntryValueView::Blob { sequence_number },
                },
            ),
            final(self).size_shift == old(self).size_shift,
            final(self).total_cost() == old(self).total_cost() + key@.len(),
    {
        self.push_entry(Entry { key, value: EntryValue::Blob { sequence_number } });
    }

    /// Appends a tombstone; only the key bytes count towards the totals.
    pub fn delete(&mut self, key: Vec<u8>)
        requires
            old(self).wf(),
            key@.len() <= MAX_ENTRY_COST,
            old(self).total_cost() + key@.len() <= usize::MAX,
        ensures
            final(self).wf(),
            final(self)@ == old(self)@.push(
                EntryView { key: key@, value: crate::entry::EntryValueView::Tombstone },
            ),
            final(self).size_shift == old(self).size_shift,
            final(self).total_cost() == old(self).total_cost() + key@.len(),
    {
        self.push_entry(Entry { key, value: EntryValue::Tombstone });
    }

    /// Appends one already-built entry, keeping the totals in step.
    pub fn add_entry(&mut self, entry: Entry)
        requires
            old(self).wf(),
            entry@.cost() <= MAX_ENTRY_COST,
            old(self).total_cost() + entry@.cost() <= usize::MAX,
        ensures
            final(self).wf(),
            final(self)@ == old(self)@.push(entry@),
            final(self).size_shift == old(self).size_shift,
            final(self).total_cost() == old(self).total_cost() + entry@.cost(),
    {
        self.push_entry(entry);
    }

    /// Shared body of the appending operations.
    fn push_entry(&mut self, entry: Entry)
        requires
            old(self).wf(),
            entry@.cost() <= MAX_ENTRY_COST,
            old(self).total_cost() + entry@.cost() <= usize::MAX,
        ensures
            final(self).wf(),
            final(self)@ == old(self)@.push(entry@),
            final(self).size_shift == old(self).size_shift,
            final(self).total_cost() == old(self).total_cost() + entry@.cost(),
    {
        let key_len = entry.key.len();
        let inline_len = match &entry.value {
            EntryValue::Small { value } => value.len(),
            EntryValue::Medium { value } => value.len(),
            EntryValue::Blob { .. } => 0,
            EntryValue::Tombstone => 0,
        };
        let ghost old_view = self@;
        self.entries.push(entry);
        proof {
            assert(self@ =~= old_view.push(entry@));
            assert(self@.drop_last() =~= old_view);
            assert(entry_costs_bounded(self@));
        }
        self.total_key_size = self.total_key_size + key_len;
        self.total_value_size = self.total_value_size + inline_len;
    }

    /// Whether the cumulative cost has crossed the class threshold.
    pub fn is_full(&self) -> (r: bool)
        requires
            self.wf(),
        ensures
            r == self.spec_is_full(),
    {
        self.total_key_size + self.total_value_size >= (1usize << self.size_shift)
    }

    /// Whether the collector holds no entries.
    pub fn is_empty(&self) -> (r: bool)
        requires
            self.wf(),
        ensures
            r == (self@.len() == 0),
    {
        self.entries.len() == 0
    }

    /// Yields all entries in their current order and clears the counts.
    pub fn drain(&mut self) -> (r: Vec<Entry>)
        requires
            old(self).wf(),
        ensures
            final(self).wf(),
            evs(r@) == old(self)@,
            final(self)@ =~= Seq::<EntryView>::empty(),
            final(self).size_shift == old(self).size_shift,
    {
        let mut out: Vec<Entry> = Vec::new();
        core::mem::swap(&mut self.entries, &mut out);
        self.total_key_size = 0;
        self.total_value_size = 0;
        proof {
            assert(self@ =~= Seq::<EntryView>::empty());
        }
        out
    }

    /// Empties the buffer; the counters return to zero.
    pub fn clear(&mut self)
        requires
            old(self).wf(),
        ensures
            final(self).wf(),
            final(self)@ =~= Seq::<EntryView>::empty(),
            final(self).size_shift == old(self).size_shift,
    {
        self.entries.clear();
        self.total_key_size = 0;
        self.total_value_size = 0;
        proof {
            assert(self@ =~= Seq::<EntryView>::empty());
        }
    }

    /// Stably sorts the buffered entries by key, ascending, in place. The
    /// totals are untouched; for every key the entries keep their insertion
    /// order, so the view stays usable without a second pass.
    pub fn sorted(&mut self)
        requires
            old(self).wf(),
        ensures
            final(self).wf(),
            entries_sorted(final(self)@),
            forall|k: Seq<u8>| #[trigger] filter_by_key(final(self)@, k) == filter_by_key(
                old(self)@,
                k,
            ),
            final(self)@.to_multiset() == old(self)@.to_multiset(),
            final(self).size_shift == old(self).size_shift,
            final(self).total_key_size == old(self).total_key_size,
            final(self).total_value_size == old(self).total_value_size,
            final(self).total_cost() == old(self).total_cost(),
    {
        sort_entries_by_key(&mut self.entries);
        proof {
            lemma_sums_permutation(self@, old(self)@);
            assert forall|i: int| 0 <= i < self@.len() implies (#[trigger] self@[i]).cost()
                <= MAX_ENTRY_COST by {
                broadcast use vstd::seq_lib::group_to_multiset_ensures;

                assert(self@.contains(self@[i]));
                assert(old(self)@.to_multiset().count(self@[i]) > 0);
                assert(old(self)@.contains(self@[i]));
                let m = choose|m: int| 0 <= m < old(self)@.len() && old(self)@[m] == self@[i];
                assert(old(self)@[m].cost() <= MAX_ENTRY_COST);
            }
        }
    }
}

} // verus!
