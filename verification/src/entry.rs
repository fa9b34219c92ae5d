//! The unit a collector holds: a key together with an inline value, a blob
//! pointer, or a tombstone, plus the lexicographic order on keys.

use vstd::prelude::*;

verus! {

/// Payload of an entry. `Small` and `Medium` share one storage shape; the
/// class is a hint for the SST builder. `Blob` points at a blob artifact by
/// sequence number. `Tombstone` marks a delete.
pub enum EntryValue {
    Small { value: Vec<u8> },
    Medium { value: Vec<u8> },
    Blob { sequence_number: u32 },
    Tombstone,
}

/// Mathematical model of an [`EntryValue`].
pub enum EntryValueView {
    Small { value: Seq<u8> },
    Medium { value: Seq<u8> },
    Blob { sequence_number: u32 },
    Tombstone,
}

impl View for EntryValue {
    type V = EntryValueView;

    open spec fn view(&self) -> EntryValueView {
        match self {
            EntryValue::Small { value } => EntryValueView::Small { value: value@ },
            EntryValue::Medium { value } => EntryValueView::Medium { value: value@ },
            EntryValue::Blob { sequence_number } => EntryValueView::Blob {
                sequence_number: *sequence_number,
            },
            EntryValue::Tombstone => EntryValueView::Tombstone,
        }
    }
}

/// One mutation as a collector stores it.
pub struct Entry {
    pub key: Vec<u8>,
    pub value: EntryValue,
}

/// Mathematical model of an [`Entry`].
pub struct EntryView {
    pub key: Seq<u8>,
    pub value: EntryValueView,
}

impl View for Entry {
    type V = EntryView;

    open spec fn view(&self) -> EntryView {
        EntryView { key: self.key@, value: self.value@ }
    }
}

impl EntryValueView {
    /// Number of value bytes the entry stores inline.
    pub open spec fn inline_len(self) -> nat {
        match self {
            EntryValueView::Small { value } => value.len(),
            EntryValueView::Medium { value } => value.len(),
            EntryValueView::Blob { .. } => 0,
            EntryValueView::Tombstone => 0,
        }
    }
}

impl EntryView {
    /// The capacity cost an entry contributes to a collector.
    pub open spec fn cost(self) -> nat {
        self.key.len() + self.value.inline_len()
    }
}

/// Lexicographic order on byte strings; a proper prefix comes first.
pub open spec fn lex_le(a: Seq<u8>, b: Seq<u8>) -> bool
    decreases a.len(),
{
    if a.len() == 0 {
        true
    } else if b.len() == 0 {
        false
    } else if a[0] < b[0] {
        true
    } else if a[0] > b[0] {
        false
    } else {
        lex_le(a.drop_first(), b.drop_first())
    }
}

/// The models of a sequence of entries.
pub open spec fn evs(s: Seq<Entry>) -> Seq<EntryView> {
    s.map_values(|e: Entry| e@)
}

/// The subsequence of entries carrying the key `k`, in order.
pub open spec fn filter_by_key(s: Seq<EntryView>, k: Seq<u8>) -> Seq<EntryView>
    decreases s.len(),
{
    if s.len() == 0 {
        Seq::empty()
    } else {
        let rest = filter_by_key(s.drop_last(), k);
        if s.last().key == k {
            rest.push(s.last())
        } else {
            rest
        }
    }
}

/// Entries in non-decreasing key order.
pub open spec fn entries_sorted(s: Seq<EntryView>) -> bool {
    forall|i: int, j: int|
        #![trigger s[i], s[j]]
        0 <= i < j < s.len() ==> lex_le(s[i].key, s[j].key)
}

/// The lexicographic order relates every byte string to itself.
pub proof fn lemma_lex_le_reflexive(a: Seq<u8>)
    ensures
        lex_le(a, a),
    decreases a.len(),
{
    if a.len() != 0 {
        lemma_lex_le_reflexive(a.drop_first());
    }
}

/// The lexicographic order relates every pair of byte strings.
pub proof fn lemma_lex_le_total(a: Seq<u8>, b: Seq<u8>)
    ensures
        lex_le(a, b) || lex_le(b, a),
    decreases a.len(),
{
    if a.len() != 0 && b.len() != 0 && a[0] == b[0] {
        lemma_lex_le_total(a.drop_first(), b.drop_first());
    }
}

/// The lexicographic order is transitive.
pub proof fn lemma_lex_le_transitive(a: Seq<u8>, b: Seq<u8>, c: Seq<u8>)
    requires
        lex_le(a, b),
        lex_le(b, c),
    ensures
        lex_le(a, c),
    decreases a.len(),
{
    if a.len() != 0 && b.len() != 0 && c.len() != 0 && a[0] == b[0] && b[0] == c[0] {
        lemma_lex_le_transitive(a.drop_first(), b.drop_first(), c.drop_first());
    }
}

/// Compares two keys in the lexicographic order.
pub fn key_le(a: &Vec<u8>, b: &Vec<u8>) -> (r: bool)
    ensures
        r == lex_le(a@, b@),
{
    let mut i: usize = 0;
    proof {
        assert(a@.skip(0) =~= a@);
        assert(b@.skip(0) =~= b@);
    }
    loop
        invariant
            i <= a.len(),
            i <= b.len(),
            a@.subrange(0, i as int) =~= b@.subrange(0, i as int),
            lex_le(a@, b@) == lex_le(a@.skip(i as int), b@.skip(i as int)),
        decreases a.len() - i,
    {
        if i >= a.len() {
            assert(a@.skip(i as int).len() == 0);
            return true;
        }
        if i >= b.len() {
            assert(b@.skip(i as int).len() == 0);
            return false;
        }
        let av = a[i];
        let bv = b[i];
        if av < bv {
            return true;
        }
        if av > bv {
            return false;
        }
        proof {
            assert(a@.skip(i as int).drop_first() =~= a@.skip(i + 1));
            assert(b@.skip(i as int).drop_first() =~= b@.skip(i + 1));
            assert(a@.subrange(0, i + 1) =~= b@.subrange(0, i + 1));
        }
        i = i + 1;
    }
}

} // verus!
