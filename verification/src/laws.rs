//! Proof functions about the slot-sequence model: how the occupied count,
//! the first-empty-slot scan, the key scan and the traversal order relate.

use vstd::prelude::*;

use crate::{
    is_first_match, occupied_count, occupied_entries, occupied_prefix, scan_for_empty,
    scan_for_key, slot_matches, spec_first_empty, spec_get, visited_at,
};

verus! {

/// A key scan from `from` on, on a sequence whose slots before `from` have
/// no matching key, returns the value of the overall first matching slot, or
/// `None` when no slot matches at all.
proof fn lemma_scan_finds_first_match<K: PartialEq, V>(s: Seq<Option<(K, V)>>, key: K, from: int)
    requires
        0 <= from <= s.len(),
        forall|j: int| 0 <= j < from ==> !slot_matches(#[trigger] s[j], key),
    ensures
        match scan_for_key(s, key, from) {
            Some(v) => exists|i: int| #[trigger] is_first_match(s, key, i) && s[i]->Some_0.1 == v,
            None => forall|i: int| 0 <= i < s.len() ==> !slot_matches(#[trigger] s[i], key),
        },
    decreases s.len() - from,
{
    if from < s.len() {
        if slot_matches(s[from], key) {
            assert(is_first_match(s, key, from));
        } else {
            lemma_scan_finds_first_match(s, key, from + 1);
        }
    }
}

/// A lookup returns the value of the first (lowest-index) matching slot:
/// a slot with the same key behind another matching slot is unreachable by
/// key. When it returns nothing, no slot matches.
pub proof fn lemma_get_finds_first_match<K: PartialEq, V>(s: Seq<Option<(K, V)>>, key: K)
    ensures
        match spec_get(s, key) {
            Some(v) => exists|i: int| #[trigger] is_first_match(s, key, i) && s[i]->Some_0.1 == v,
            None => forall|i: int| 0 <= i < s.len() ==> !slot_matches(#[trigger] s[i], key),
        },
{
    lemma_scan_finds_first_match(s, key, 0);
}

/// There is at most one first matching slot.
pub proof fn lemma_first_match_unique<K: PartialEq, V>(
    s: Seq<Option<(K, V)>>,
    key: K,
    i1: int,
    i2: int,
)
    requires
        is_first_match(s, key, i1),
        is_first_match(s, key, i2),
    ensures
        i1 == i2,
{
}

/// Successive insertions fill strictly increasing slot indices: after an
/// insertion into the first empty slot, the next insertion, if any slot is
/// left, goes to a strictly higher index.
pub proof fn lemma_put_indices_increase<K, V>(s: Seq<Option<(K, V)>>, i: int, p: (K, V))
    requires
        spec_first_empty(s) == Some(i),
    ensures
        0 <= i < s.len(),
        s[i] is None,
        match spec_first_empty(s.update(i, Some(p))) {
            Some(i2) => i < i2,
            None => true,
        },
{
    lemma_scan_for_empty_props(s, 0);
    lemma_scan_for_empty_props(s.update(i, Some(p)), 0);
}

/// Slots from `i` on being empty, the occupied count of `s` is the occupied
/// count of the prefix before `i`.
proof fn lemma_count_of_empty_tail<K, V>(s: Seq<Option<(K, V)>>, i: int)
    requires
        0 <= i <= s.len(),
        forall|j: int| i <= j < s.len() ==> s[j] is None,
    ensures
        occupied_count(s) == occupied_count(s.take(i)),
    decreases s.len() - i,
{
    if i < s.len() {
        assert(s[s.len() - 1] is None);
        assert(forall|j: int| i <= j < s.len() - 1 ==> s.drop_last()[j] == s[j]);
        lemma_count_of_empty_tail(s.drop_last(), i);
        assert(s.drop_last().take(i) =~= s.take(i));
    } else {
        assert(s.take(i) =~= s);
    }
}

/// While the occupied slots form a contiguous prefix, the first empty slot
/// is at the occupied count itself. So on a map never mutated except by
/// insertion, the k-th successful insertion reports slot k - 1: the reported
/// indices run 0, 1, 2, ... in call order.
pub proof fn lemma_prefix_first_empty<K, V>(s: Seq<Option<(K, V)>>)
    requires
        occupied_prefix(s),
    ensures
        spec_first_empty(s) == if occupied_count(s) < s.len() {
            Some(occupied_count(s) as int)
        } else {
            None::<int>
        },
{
    lemma_scan_for_empty_props(s, 0);
    lemma_occupied_count_le_len(s);
    lemma_count_full_iff_all_occupied(s);
    match spec_first_empty(s) {
        Some(i) => {
            assert(forall|j: int| i <= j < s.len() ==> s[j] is None);
            lemma_count_of_empty_tail(s, i);
            lemma_count_full_iff_all_occupied(s.take(i));
            assert(forall|j: int| 0 <= j < i ==> s.take(i)[j] == s[j]);
        },
        None => {},
    }
}

/// Inserting into the first empty slot keeps the occupied slots a
/// contiguous prefix.
pub proof fn lemma_put_preserves_occupied_prefix<K, V>(s: Seq<Option<(K, V)>>, i: int, p: (K, V))
    requires
        occupied_prefix(s),
        spec_first_empty(s) == Some(i),
    ensures
        occupied_prefix(s.update(i, Some(p))),
{
    lemma_scan_for_empty_props(s, 0);
}

/// No more slots are occupied than exist.
pub proof fn lemma_occupied_count_le_len<K, V>(s: Seq<Option<(K, V)>>)
    ensures
        occupied_count(s) <= s.len(),
    decreases s.len(),
{
    if s.len() > 0 {
        lemma_occupied_count_le_len(s.drop_last());
    }
}

/// A sequence with only empty slots has occupied count zero.
pub proof fn lemma_all_empty_count_zero<K, V>(s: Seq<Option<(K, V)>>)
    requires
        forall|i: int| 0 <= i < s.len() ==> s[i] is None,
    ensures
        occupied_count(s) == 0,
    decreases s.len(),
{
    if s.len() > 0 {
        assert(forall|i: int| 0 <= i < s.len() - 1 ==> s.drop_last()[i] == s[i]);
        lemma_all_empty_count_zero(s.drop_last());
    }
}

/// Filling one empty slot raises the occupied count by exactly one.
pub proof fn lemma_occupied_count_fill<K, V>(s: Seq<Option<(K, V)>>, i: int, p: (K, V))
    requires
        0 <= i < s.len(),
        s[i] is None,
    ensures
        occupied_count(s.update(i, Some(p))) == occupied_count(s) + 1,
    decreases s.len(),
{
    let t = s.update(i, Some(p));
    if i == s.len() - 1 {
        assert(t.drop_last() =~= s.drop_last());
    } else {
        lemma_occupied_count_fill(s.drop_last(), i, p);
        assert(t.drop_last() =~= s.drop_last().update(i, Some(p)));
    }
}

/// The occupied count reaches the slot count exactly when every slot is
/// occupied.
pub proof fn lemma_count_full_iff_all_occupied<K, V>(s: Seq<Option<(K, V)>>)
    ensures
        occupied_count(s) == s.len() <==> (forall|i: int| 0 <= i < s.len() ==> s[i] is Some),
    decreases s.len(),
{
    if s.len() > 0 {
        lemma_count_full_iff_all_occupied(s.drop_last());
        lemma_occupied_count_le_len(s.drop_last());
        assert(forall|i: int| 0 <= i < s.len() - 1 ==> s.drop_last()[i] == s[i]);
    }
}

/// What the first-empty-slot scan starting at `from` returns: the index of
/// the first empty slot at or after `from`, every slot before it being
/// occupied, or `None` when no slot at or after `from` is empty.
pub proof fn lemma_scan_for_empty_props<K, V>(s: Seq<Option<(K, V)>>, from: int)
    requires
        0 <= from <= s.len(),
    ensures
        match scan_for_empty(s, from) {
            Some(i) => from <= i < s.len() && s[i] is None && (forall|j: int|
                from <= j < i ==> s[j] is Some),
            None => forall|j: int| from <= j < s.len() ==> s[j] is Some,
        },
    decreases s.len() - from,
{
    if from < s.len() && !(s[from] is None) {
        lemma_scan_for_empty_props(s, from + 1);
    }
}

/// An empty slot exists exactly when the container is not full.
pub proof fn lemma_first_empty_iff_not_full<K, V>(s: Seq<Option<(K, V)>>)
    ensures
        spec_first_empty(s) is Some <==> occupied_count(s) < s.len(),
{
    lemma_scan_for_empty_props(s, 0);
    lemma_occupied_count_le_len(s);
    lemma_count_full_iff_all_occupied(s);
}

/// Counting occupied slots over a one-longer prefix adds the slot at the
/// boundary, and nothing else.
pub proof fn lemma_count_take_step<K, V>(s: Seq<Option<(K, V)>>, i: int)
    requires
        0 <= i < s.len(),
    ensures
        occupied_count(s.take(i + 1)) == occupied_count(s.take(i)) + (if s[i] is Some {
            1nat
        } else {
            0nat
        }),
{
    assert(s.take(i + 1).drop_last() =~= s.take(i));
}

/// A traversal makes exactly one visit per occupied slot.
pub proof fn lemma_occupied_entries_len<K, V>(s: Seq<Option<(K, V)>>)
    ensures
        occupied_entries(s).len() == occupied_count(s),
    decreases s.len(),
{
    if s.len() > 0 {
        lemma_occupied_entries_len(s.drop_last());
    }
}

/// An occupied slot `i` is visited at the traversal position that counts the
/// occupied slots before it, and the visit carries slot `i`'s pair.
pub proof fn lemma_visit_position<K, V>(s: Seq<Option<(K, V)>>, i: int)
    requires
        0 <= i < s.len(),
        s[i] is Some,
    ensures
        visited_at(s, i, occupied_count(s.take(i)) as int),
    decreases s.len(),
{
    lemma_occupied_entries_len(s);
    if i == s.len() - 1 {
        assert(s.take(i) =~= s.drop_last());
        lemma_occupied_entries_len(s.drop_last());
    } else {
        lemma_visit_position(s.drop_last(), i);
        assert(s.drop_last().take(i) =~= s.take(i));
        lemma_occupied_entries_len(s.drop_last());
    }
}

/// Visits happen in ascending slot order: of two slots the lower-indexed
/// occupied one is visited at the strictly earlier position.
pub proof fn lemma_visit_positions_ascending<K, V>(s: Seq<Option<(K, V)>>, i1: int, i2: int)
    requires
        0 <= i1 < i2 <= s.len(),
        s[i1] is Some,
    ensures
        occupied_count(s.take(i1)) < occupied_count(s.take(i2)),
    decreases i2 - i1,
{
    if i2 == i1 + 1 {
        lemma_count_take_step(s, i1);
    } else {
        lemma_visit_positions_ascending(s, i1, i2 - 1);
        lemma_count_take_step(s, i2 - 1);
    }
}

/// Every traversal position visits some occupied slot: nothing besides the
/// occupied slots is ever visited.
pub proof fn lemma_visited_from_slot<K, V>(s: Seq<Option<(K, V)>>, j: int)
    requires
        0 <= j < occupied_entries(s).len(),
    ensures
        exists|i: int| visited_at(s, i, j),
    decreases s.len(),
{
    lemma_occupied_entries_len(s);
    if s.len() > 0 {
        let t = s.drop_last();
        lemma_occupied_entries_len(t);
        if j < occupied_entries(t).len() {
            lemma_visited_from_slot(t, j);
            let i = choose|i: int| visited_at(t, i, j);
            assert(s.take(i) =~= t.take(i));
            assert(visited_at(s, i, j));
        } else {
            assert(s.take(s.len() - 1) =~= t);
            assert(visited_at(s, s.len() - 1, j));
        }
    }
}

} // verus!
