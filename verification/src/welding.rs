//! Welding: the deduplication of corner keys in first-occurrence order, and
//! the facts about it that the indexer's contract and callers rely on.

use vstd::prelude::*;

use crate::mesh::AttributeIndexKey;

verus! {

/// One welding step: a key joins the table only if it is not there yet.
pub open spec fn weld_insert(w: Seq<AttributeIndexKey>, k: AttributeIndexKey) -> Seq<
    AttributeIndexKey,
> {
    if w.contains(k) {
        w
    } else {
        w.push(k)
    }
}

/// Welds a whole corner sequence onto a table, key by key, left to right.
pub open spec fn weld_append(w: Seq<AttributeIndexKey>, ks: Seq<AttributeIndexKey>) -> Seq<
    AttributeIndexKey,
>
    decreases ks.len(),
{
    if ks.len() == 0 {
        w
    } else {
        weld_insert(weld_append(w, ks.drop_last()), ks.last())
    }
}

/// The distinct keys of a corner sequence, in first-occurrence order: the
/// vertex table that welding the sequence produces.
pub open spec fn weld_keys(ks: Seq<AttributeIndexKey>) -> Seq<AttributeIndexKey> {
    weld_append(Seq::empty(), ks)
}

/// Welding two sequences in turn welds their concatenation.
pub proof fn lemma_weld_append_concat(
    w: Seq<AttributeIndexKey>,
    s: Seq<AttributeIndexKey>,
    t: Seq<AttributeIndexKey>,
)
    ensures
        weld_append(weld_append(w, s), t) == weld_append(w, s + t),
    decreases t.len(),
{
    if t.len() == 0 {
        assert(s + t =~= s);
    } else {
        lemma_weld_append_concat(w, s, t.drop_last());
        assert((s + t).drop_last() =~= s + t.drop_last());
        assert((s + t).last() == t.last());
    }
}

/// A welded table holds a key exactly when the keys welded onto it held it.
pub proof fn lemma_weld_append_contains(
    w: Seq<AttributeIndexKey>,
    ks: Seq<AttributeIndexKey>,
    k: AttributeIndexKey,
)
    ensures
        weld_append(w, ks).contains(k) <==> w.contains(k) || ks.contains(k),
    decreases ks.len(),
{
    if ks.len() == 0 {
    } else {
        lemma_weld_append_contains(w, ks.drop_last(), k);
        let prev = weld_append(w, ks.drop_last());
        if ks.contains(k) {
            let i = choose|i: int| 0 <= i < ks.len() && ks[i] == k;
            if i < ks.len() - 1 {
                assert(ks.drop_last()[i] == k);
            }
        }
        if prev.contains(k) || ks.last() == k {
            assert(weld_insert(prev, ks.last()).contains(k)) by {
                if prev.contains(k) {
                    let i = choose|i: int| 0 <= i < prev.len() && prev[i] == k;
                    assert(weld_insert(prev, ks.last())[i] == k);
                } else {
                    assert(weld_insert(prev, ks.last()).last() == k);
                }
            }
        }
        if ks.drop_last().contains(k) {
            assert(ks[choose|i: int| 0 <= i < ks.len() - 1 && ks.drop_last()[i] == k] == k);
        }
    }
}

/// Welding never duplicates a key.
pub proof fn lemma_weld_append_no_duplicates(w: Seq<AttributeIndexKey>, ks: Seq<AttributeIndexKey>)
    requires
        w.no_duplicates(),
    ensures
        weld_append(w, ks).no_duplicates(),
    decreases ks.len(),
{
    if ks.len() > 0 {
        lemma_weld_append_no_duplicates(w, ks.drop_last());
    }
}

/// Welding only ever appends: the table before is a prefix of the table after.
pub proof fn lemma_weld_append_prefix(w: Seq<AttributeIndexKey>, ks: Seq<AttributeIndexKey>)
    ensures
        w.is_prefix_of(weld_append(w, ks)),
    decreases ks.len(),
{
    if ks.len() > 0 {
        lemma_weld_append_prefix(w, ks.drop_last());
        let prev = weld_append(w, ks.drop_last());
        assert(prev.is_prefix_of(weld_insert(prev, ks.last())));
    }
}

/// In a table without duplicates, a key sits at exactly one index, and
/// `index_of` names it.
pub proof fn lemma_index_of_unique(s: Seq<AttributeIndexKey>, i: int, k: AttributeIndexKey)
    requires
        s.no_duplicates(),
        0 <= i < s.len(),
        s[i] == k,
    ensures
        s.index_of(k) == i,
{
    assert(s.contains(k));
    let j = s.index_of(k);
    assert(0 <= j < s.len() && s[j] == k);
}

/// Extending a duplicate-free table moves no key: every id already assigned
/// keeps its value.
pub proof fn lemma_index_stable(
    w: Seq<AttributeIndexKey>,
    w2: Seq<AttributeIndexKey>,
    k: AttributeIndexKey,
)
    requires
        w.is_prefix_of(w2),
        w2.no_duplicates(),
        w.contains(k),
    ensures
        w2.contains(k),
        w2.index_of(k) == w.index_of(k),
        0 <= w.index_of(k) < w.len(),
{
    assert(w.no_duplicates());
    let i = w.index_of(k);
    assert(0 <= i < w.len() && w[i] == k);
    assert(w2[i] == k);
    lemma_index_of_unique(w2, i, k);
}

/// Being a prefix is transitive.
pub proof fn lemma_prefix_transitive(
    a: Seq<AttributeIndexKey>,
    b: Seq<AttributeIndexKey>,
    c: Seq<AttributeIndexKey>,
)
    requires
        a.is_prefix_of(b),
        b.is_prefix_of(c),
    ensures
        a.is_prefix_of(c),
{
    assert(c.take(a.len() as int) =~= a);
}

/// A key whose first occurrence stands at position `i` of the corner sequence
/// receives the id that the table had reached just before: the number of
/// distinct keys among the corners before it.
pub proof fn lemma_weld_first_occurrence(ks: Seq<AttributeIndexKey>, i: int)
    requires
        0 <= i < ks.len(),
        !ks.take(i).contains(ks[i]),
    ensures
        weld_keys(ks).contains(ks[i]),
        weld_keys(ks).index_of(ks[i]) == weld_keys(ks.take(i)).len(),
{
    let k = ks[i];
    let before = weld_keys(ks.take(i));
    assert(ks.take(i + 1).drop_last() =~= ks.take(i));
    assert(ks.take(i + 1).last() == k);
    assert(!before.contains(k)) by {
        lemma_weld_append_contains(Seq::empty(), ks.take(i), k);
    }
    let wpre = weld_keys(ks.take(i + 1));
    assert(wpre == before.push(k));
    assert(ks.take(i + 1) + ks.skip(i + 1) =~= ks);
    lemma_weld_append_concat(Seq::empty(), ks.take(i + 1), ks.skip(i + 1));
    lemma_weld_append_prefix(wpre, ks.skip(i + 1));
    lemma_weld_append_no_duplicates(Seq::empty(), ks);
    let wfull = weld_keys(ks);
    assert(wfull == weld_append(wpre, ks.skip(i + 1)));
    assert(wfull.take(wpre.len() as int) == wpre);
    assert(wfull[before.len() as int] == wfull.take(wpre.len() as int)[before.len() as int]);
    lemma_index_of_unique(wfull, before.len() as int, k);
}

/// Welding a longer prefix of the corner sequence never shrinks the table.
pub proof fn lemma_weld_len_monotonic(ks: Seq<AttributeIndexKey>, i: int, j: int)
    requires
        0 <= i <= j <= ks.len(),
    ensures
        weld_keys(ks.take(i)).len() <= weld_keys(ks.take(j)).len(),
{
    assert(ks.take(i) + ks.take(j).skip(i) =~= ks.take(j));
    lemma_weld_append_concat(Seq::empty(), ks.take(i), ks.take(j).skip(i));
    lemma_weld_append_prefix(weld_keys(ks.take(i)), ks.take(j).skip(i));
}

/// Ids follow first-occurrence order: a key first seen earlier in the
/// traversal receives a strictly smaller id than one first seen later.
pub proof fn lemma_first_occurrence_order(ks: Seq<AttributeIndexKey>, i: int, j: int)
    requires
        0 <= i < j < ks.len(),
        !ks.take(i).contains(ks[i]),
        !ks.take(j).contains(ks[j]),
        ks[i] != ks[j],
    ensures
        weld_keys(ks).contains(ks[i]),
        weld_keys(ks).contains(ks[j]),
        weld_keys(ks).index_of(ks[i]) < weld_keys(ks).index_of(ks[j]),
{
    lemma_weld_first_occurrence(ks, i);
    lemma_weld_first_occurrence(ks, j);
    let before_i = weld_keys(ks.take(i));
    assert(ks.take(i + 1).drop_last() =~= ks.take(i));
    assert(!before_i.contains(ks[i])) by {
        lemma_weld_append_contains(Seq::empty(), ks.take(i), ks[i]);
    }
    assert(weld_keys(ks.take(i + 1)).len() == before_i.len() + 1);
    lemma_weld_len_monotonic(ks, i + 1, j);
}

} // verus!
