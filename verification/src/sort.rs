//! Stable in-place sort of collector entries by key.
//!
//! The sort is what makes an SST: entries come out in non-decreasing key
//! order, and entries with equal keys keep their insertion order, so the
//! last write of a key within one collector is emitted last.

use vstd::prelude::*;

use crate::entry::{
    entries_sorted, evs, filter_by_key, key_le, lemma_lex_le_total, lemma_lex_le_transitive,
    lex_le, Entry, EntryView,
};

verus! {

/// Filtering by key distributes over concatenation.
pub proof fn lemma_filter_by_key_add(a: Seq<EntryView>, b: Seq<EntryView>, k: Seq<u8>)
    ensures
        filter_by_key(a + b, k) == filter_by_key(a, k) + filter_by_key(b, k),
    decreases b.len(),
{
    if b.len() == 0 {
        assert(a + b =~= a);
        assert(filter_by_key(a, k) + filter_by_key(b, k) =~= filter_by_key(a, k));
    } else {
        assert((a + b).drop_last() =~= a + b.drop_last());
        lemma_filter_by_key_add(a, b.drop_last(), k);
        if b.last().key == k {
            assert((filter_by_key(a, k) + filter_by_key(b.drop_last(), k)).push(b.last())
                =~= filter_by_key(a, k) + filter_by_key(b.drop_last(), k).push(b.last()));
        }
    }
}

/// A sequence without the key has an empty filtered subsequence.
pub proof fn lemma_filter_by_key_absent(s: Seq<EntryView>, k: Seq<u8>)
    requires
        forall|m: int| 0 <= m < s.len() ==> (#[trigger] s[m]).key != k,
    ensures
        filter_by_key(s, k) =~= Seq::<EntryView>::empty(),
    decreases s.len(),
{
    if s.len() > 0 {
        lemma_filter_by_key_absent(s.drop_last(), k);
    }
}

/// Filtering a singleton keeps or drops its one entry.
pub proof fn lemma_filter_by_key_singleton(x: EntryView, k: Seq<u8>)
    ensures
        x.key == k ==> filter_by_key(seq![x], k) =~= seq![x],
        x.key != k ==> filter_by_key(seq![x], k) =~= Seq::<EntryView>::empty(),
{
    let s = seq![x];
    assert(s.last() == x);
    assert(s.drop_last() =~= Seq::<EntryView>::empty());
    assert(filter_by_key(s.drop_last(), k) =~= Seq::<EntryView>::empty());
    if x.key == k {
        assert(filter_by_key(s, k) =~= filter_by_key(s.drop_last(), k).push(x));
    }
}

/// Inserting an element turns the multiset view of a sequence into an insert.
pub proof fn lemma_to_multiset_insert(s: Seq<EntryView>, j: int, x: EntryView)
    requires
        0 <= j <= s.len(),
    ensures
        s.insert(j, x).to_multiset() =~= s.to_multiset().insert(x),
{
    broadcast use vstd::seq_lib::group_to_multiset_ensures;

    let a = s.subrange(0, j);
    let b = s.subrange(j, s.len() as int);
    assert(s =~= a + b);
    vstd::seq_lib::lemma_multiset_commutative(a.push(x), b);
    vstd::seq_lib::lemma_multiset_commutative(a, b);
}

/// Inserting an entry between the keys not above its own and the rest keeps
/// the sequence sorted by key.
pub proof fn lemma_sorted_insert(p: Seq<EntryView>, x: EntryView, j: int)
    requires
        0 <= j <= p.len(),
        entries_sorted(p),
        forall|m: int| 0 <= m < j ==> lex_le((#[trigger] p[m]).key, x.key),
        forall|m: int| j <= m < p.len() ==> !lex_le((#[trigger] p[m]).key, x.key),
    ensures
        entries_sorted(p.insert(j, x)),
{
    let s = p.insert(j, x);
    p.insert_ensures(j, x);
    assert forall|i1: int, i2: int| #![trigger s[i1], s[i2]] 0 <= i1 < i2 < s.len() implies lex_le(
        s[i1].key,
        s[i2].key,
    ) by {
        if i1 < j && i2 > j {
            assert(s[i1] == p[i1] && s[i2] == p[i2 - 1]);
        }
        if i1 == j {
            lemma_lex_le_total(x.key, s[i2].key);
        }
        if i2 == j && i1 < j {
            assert(lex_le(p[i1].key, x.key));
        }
    }
}

/// Inserting an entry after every entry whose key is not above its own acts
/// on the filtered subsequences exactly as appending it would: stability.
#[verifier::rlimit(30)]
pub proof fn lemma_stable_insert(p: Seq<EntryView>, x: EntryView, j: int, k: Seq<u8>)
    requires
        0 <= j <= p.len(),
        forall|m: int| j <= m < p.len() ==> !lex_le((#[trigger] p[m]).key, x.key),
    ensures
        filter_by_key(p.insert(j, x), k) == filter_by_key(p.push(x), k),
{
    let s = p.insert(j, x);
    let a = p.subrange(0, j);
    let b = p.subrange(j, p.len() as int);
    assert(s =~= (a + seq![x]) + b);
    assert(p.push(x) =~= (a + b) + seq![x]);
    lemma_filter_by_key_add(a + seq![x], b, k);
    lemma_filter_by_key_add(a, seq![x], k);
    lemma_filter_by_key_add(a + b, seq![x], k);
    lemma_filter_by_key_add(a, b, k);
    lemma_filter_by_key_singleton(x, k);
    if x.key == k {
        assert forall|m: int| 0 <= m < b.len() implies (#[trigger] b[m]).key != k by {
            assert(b[m] == p[j + m]);
            crate::entry::lemma_lex_le_reflexive(k);
        }
        lemma_filter_by_key_absent(b, k);
        assert(filter_by_key(s, k) =~= filter_by_key(a, k) + seq![x]);
        assert(filter_by_key(p.push(x), k) =~= filter_by_key(a, k) + seq![x]);
    } else {
        assert(filter_by_key(s, k) =~= filter_by_key(a, k) + filter_by_key(b, k));
        assert(filter_by_key(p.push(x), k) =~= filter_by_key(a, k) + filter_by_key(b, k));
    }
}

/// Stably sorts the entries by key, ascending.
///
/// Entries with equal keys keep their relative order: for every key, the
/// filtered subsequence is unchanged.
pub fn sort_entries_by_key(v: &mut Vec<Entry>)
    ensures
        final(v)@.len() == old(v)@.len(),
        entries_sorted(evs(final(v)@)),
        forall|k: Seq<u8>| #[trigger] filter_by_key(evs(final(v)@), k) == filter_by_key(
            evs(old(v)@),
            k,
        ),
        evs(final(v)@).to_multiset() == evs(old(v)@).to_multiset(),
{
    let ghost orig: Seq<EntryView> = evs(v@);
    if v.len() < 2 {
        return;
    }
    let mut i: usize = 1;
    while i < v.len()
        invariant
            1 <= i <= v@.len(),
            v@.len() == orig.len(),
            entries_sorted(evs(v@).take(i as int)),
            evs(v@).skip(i as int) =~= orig.skip(i as int),
            forall|k: Seq<u8>| #[trigger] filter_by_key(evs(v@).take(i as int), k)
                == filter_by_key(orig.take(i as int), k),
            evs(v@).take(i as int).to_multiset() == orig.take(i as int).to_multiset(),
        decreases v@.len() - i,
    {
        let ghost pre = evs(v@);
        let e = v.remove(i);
        let ghost x = e@;
        let ghost p = evs(v@).take(i as int);
        proof {
            assert(evs(v@) =~= pre.remove(i as int));
            assert(p =~= pre.take(i as int));
            assert(pre.skip(i as int)[0] == orig.skip(i as int)[0]);
            assert(x == orig[i as int]);
        }
        let mut j: usize = 0;
        while j < i && key_le(&v[j].key, &e.key)
            invariant
                0 <= j <= i,
                i <= v@.len(),
                evs(v@).take(i as int) == p,
                forall|m: int| 0 <= m < j ==> lex_le((#[trigger] p[m]).key, x.key),
                e@ == x,
            decreases i - j,
        {
            j += 1;
        }
        proof {
            assert forall|m: int| j <= m < p.len() implies !lex_le(
                (#[trigger] p[m]).key,
                x.key,
            ) by {
                if lex_le(p[m].key, x.key) {
                    assert(!lex_le(p[j as int].key, x.key));
                    if m > j {
                        assert(lex_le(p[j as int].key, p[m].key));
                        lemma_lex_le_transitive(p[j as int].key, p[m].key, x.key);
                    }
                }
            }
        }
        let ghost before_insert = evs(v@);
        v.insert(j, e);
        proof {
            assert(evs(v@) =~= before_insert.insert(j as int, x));
            assert(before_insert =~= p + before_insert.skip(i as int));
            assert(evs(v@) =~= p.insert(j as int, x) + before_insert.skip(i as int));
            lemma_sorted_insert(p, x, j as int);
            assert(evs(v@).take(i + 1) =~= p.insert(j as int, x));
            assert(evs(v@).skip(i + 1) =~= before_insert.skip(i as int));
            assert(before_insert.skip(i as int) =~= pre.skip(i as int).drop_first());
            assert(pre.skip(i as int).drop_first() =~= pre.skip(i + 1));
            assert(evs(v@).skip(i + 1) =~= orig.skip(i + 1));
            // The new prefix filters like the old one with `x` appended,
            // which is the unsorted prefix grown by one.
            assert(orig.take(i + 1) =~= orig.take(i as int) + seq![x]);
            assert(p.push(x) =~= p + seq![x]);
            assert forall|k: Seq<u8>| #[trigger] filter_by_key(evs(v@).take(i + 1), k)
                == filter_by_key(orig.take(i + 1), k) by {
                lemma_stable_insert(p, x, j as int, k);
                lemma_filter_by_key_add(p, seq![x], k);
                lemma_filter_by_key_add(orig.take(i as int), seq![x], k);
                assert(filter_by_key(evs(v@).take(i + 1), k) == filter_by_key(p.push(x), k));
                assert(filter_by_key(p.push(x), k) =~= filter_by_key(p, k) + filter_by_key(
                    seq![x],
                    k,
                ));
                assert(filter_by_key(orig.take(i + 1), k) =~= filter_by_key(orig.take(i as int), k)
                    + filter_by_key(seq![x], k));
                assert(filter_by_key(p, k) == filter_by_key(pre.take(i as int), k));
            }
            lemma_to_multiset_insert(p, j as int, x);
            broadcast use vstd::seq_lib::group_to_multiset_ensures;

            assert(evs(v@).take(i + 1).to_multiset() =~= p.to_multiset().insert(x));
            assert(orig.take(i + 1) =~= orig.take(i as int).push(x));
            assert(orig.take(i + 1).to_multiset() =~= orig.take(i as int).to_multiset().insert(x));
        }
        i += 1;
    }
    proof {
        assert(evs(v@).take(i as int) =~= evs(v@));
        assert(orig.take(i as int) =~= orig);
    }
}

} // verus!
