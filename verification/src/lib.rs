//! A fixed-capacity key/value map with no heap allocation.
//!
//! Storage is a compile-time-sized array of optional key/value slots.
//! Insertion fills the lowest-indexed empty slot; lookup is a linear
//! scan that returns the first matching key in slot order.

use vstd::prelude::*;
use vstd::std_specs::cmp::PartialEqSpec;

pub mod laws;

use crate::laws::{
    lemma_all_empty_count_zero, lemma_count_full_iff_all_occupied, lemma_count_take_step,
    lemma_occupied_count_fill, lemma_occupied_entries_len, lemma_visit_position,
};

verus! {

/// Whether `slot` is occupied and its key equals `key` under `K`'s
/// equality contract.
pub open spec fn slot_matches<K: PartialEq, V>(slot: Option<(K, V)>, key: K) -> bool {
    match slot {
        Some(p) => key.eq_spec(&p.0),
        None => false,
    }
}

/// The value that a scan of `s` starting at slot `from` returns for `key`:
/// the value of the first occupied slot at or after `from` whose key
/// matches, or `None` if no such slot exists.
pub open spec fn scan_for_key<K: PartialEq, V>(s: Seq<Option<(K, V)>>, key: K, from: int) -> Option<
    V,
>
    decreases s.len() - from,
{
    if from < 0 || from >= s.len() {
        None
    } else if slot_matches(s[from], key) {
        Some(s[from]->Some_0.1)
    } else {
        scan_for_key(s, key, from + 1)
    }
}

/// The value a full scan of `s` returns for `key`.
pub open spec fn spec_get<K: PartialEq, V>(s: Seq<Option<(K, V)>>, key: K) -> Option<V> {
    scan_for_key(s, key, 0)
}

/// Whether slot `i` is the first (lowest-index) slot of `s` whose key
/// matches `key`.
pub open spec fn is_first_match<K: PartialEq, V>(s: Seq<Option<(K, V)>>, key: K, i: int) -> bool {
    &&& 0 <= i < s.len()
    &&& slot_matches(s[i], key)
    &&& forall|j: int| 0 <= j < i ==> !slot_matches(#[trigger] s[j], key)
}

/// The index of the first empty slot of `s` at or after `from`, if any.
pub open spec fn scan_for_empty<K, V>(s: Seq<Option<(K, V)>>, from: int) -> Option<int>
    decreases s.len() - from,
{
    if from < 0 || from >= s.len() {
        None
    } else if s[from] is None {
        Some(from)
    } else {
        scan_for_empty(s, from + 1)
    }
}

/// The index of the first empty slot of `s`, if any.
pub open spec fn spec_first_empty<K, V>(s: Seq<Option<(K, V)>>) -> Option<int> {
    scan_for_empty(s, 0)
}

/// How many slots of `s` are occupied.
pub open spec fn occupied_count<K, V>(s: Seq<Option<(K, V)>>) -> nat
    decreases s.len(),
{
    if s.len() == 0 {
        0
    } else {
        occupied_count(s.drop_last()) + (if s.last() is Some {
            1nat
        } else {
            0nat
        })
    }
}

/// The key/value pairs of the occupied slots of `s`, in ascending slot order.
pub open spec fn occupied_entries<K, V>(s: Seq<Option<(K, V)>>) -> Seq<(K, V)>
    decreases s.len(),
{
    if s.len() == 0 {
        Seq::empty()
    } else {
        occupied_entries(s.drop_last()) + (match s.last() {
            Some(p) => seq![p],
            None => seq![],
        })
    }
}

/// Whether the occupied slots of `s` form a contiguous prefix. A map that is
/// only ever mutated by insertion keeps this shape, but callers must not
/// rely on it: it is a consequence of the no-removal design, not an enforced
/// invariant.
pub open spec fn occupied_prefix<K, V>(s: Seq<Option<(K, V)>>) -> bool {
    forall|i: int, j: int|
        #![trigger s[i], s[j]]
        0 <= i < j < s.len() && s[j] is Some ==> s[i] is Some
}

/// Whether a traversal of `s` visits the pair of slot `i` at position `j` of
/// the visit sequence.
pub open spec fn visited_at<K, V>(s: Seq<Option<(K, V)>>, i: int, j: int) -> bool {
    &&& 0 <= i < s.len()
    &&& s[i] is Some
    &&& occupied_count(s.take(i)) == j
    &&& 0 <= j < occupied_entries(s).len()
    &&& occupied_entries(s)[j] == s[i]->Some_0
}

/// The value held by `slot`, if it is occupied.
pub open spec fn slot_value<K, V>(slot: Option<(K, V)>) -> Option<V> {
    match slot {
        Some(p) => Some(p.1),
        None => None,
    }
}

/// A map holding at most `MAX_ENTRIES` key/value pairs in an in-place array.
#[derive(Copy, Clone, Debug)]
pub struct BareMetalMap<K: Copy, V: Copy, const MAX_ENTRIES: usize> {
    slots: [Option<(K, V)>; MAX_ENTRIES],
}

impl<Key: Copy, Value: Copy, const MAX_ENTRIES: usize> View for BareMetalMap<
    Key,
    Value,
    MAX_ENTRIES,
> {
    type V = Seq<Option<(Key, Value)>>;

    closed spec fn view(&self) -> Seq<Option<(Key, Value)>> {
        self.slots@
    }
}

impl<K: Copy + Clone + Default + Eq + PartialEq, V: Copy + Clone + Default, const MAX_ENTRIES: usize> Default for BareMetalMap<
    K,
    V,
    MAX_ENTRIES,
> {
    /// Returns a map with all slots empty.
    fn default() -> (result: Self)
        ensures
            result@.len() == MAX_ENTRIES,
            forall|i: int| 0 <= i < MAX_ENTRIES ==> result@[i] is None,
            occupied_count(result@) == 0,
    {
        let result = BareMetalMap { slots: [None; MAX_ENTRIES] };
        proof {
            lemma_all_empty_count_zero(result@);
        }
        result
    }
}

impl<K: Copy + Clone + Default + Eq + PartialEq, V: Copy + Clone + Default, const MAX_ENTRIES: usize> BareMetalMap<
    K,
    V,
    MAX_ENTRIES,
> {
    /// Returns a map with all slots empty.
    pub fn new() -> (result: Self)
        ensures
            result@.len() == MAX_ENTRIES,
            forall|i: int| 0 <= i < MAX_ENTRIES ==> result@[i] is None,
            occupied_count(result@) == 0,
    {
        Self::default()
    }

    /// Returns the value of the first (lowest-index) occupied slot whose key
    /// equals `key`, or `None` if no slot matches. Later slots with the same
    /// key are never reached by this scan.
    ///
    /// The result is pinned exactly whenever `K`'s `==` obeys its
    /// specification (`K::obeys_eq_spec()`); for any other key type, a
    /// returned value is still one stored in some occupied slot.
    pub fn get(&self, key: K) -> (r: Option<V>)
        ensures
            K::obeys_eq_spec() ==> r == spec_get(self@, key),
            r matches Some(v) ==> exists|i: int|
                0 <= i < MAX_ENTRIES && ((#[trigger] self@[i]) matches Some(p) && v == p.1),
    {
        let mut i: usize = 0;
        while i < MAX_ENTRIES
            invariant
                0 <= i <= MAX_ENTRIES,
                self@.len() == MAX_ENTRIES,
                K::obeys_eq_spec() ==> spec_get(self@, key) == scan_for_key(
                    self@,
                    key,
                    i as int,
                ),
            decreases MAX_ENTRIES - i,
        {
            if let Some((k, v)) = self.slots[i] {
                if key == k {
                    return Some(v);
                }
            }
            i = i + 1;
        }
        None
    }

    /// Returns the value stored at slot `i`, or `None` if that slot is
    /// unoccupied.
    ///
    /// An index at or beyond the capacity is a contract violation: this
    /// accessor chooses the fatal path, so an unverified caller that passes
    /// one halts on the array bounds check rather than getting a wrong or
    /// default value back.
    pub fn get_at(&self, i: usize) -> (r: Option<V>)
        requires
            i < MAX_ENTRIES,
        ensures
            r == slot_value(self@[i as int]),
    {
        match self.slots[i] {
            Some((_, v)) => Some(v),
            None => None,
        }
    }

    /// Stores `key`/`value` in the lowest-indexed empty slot and returns that
    /// slot's index, or returns `None` and changes nothing when every slot is
    /// occupied.
    ///
    /// No slot is ever overwritten: a key already present gets a second slot,
    /// and `get` keeps returning the value of the first. The later entry stays
    /// reachable through `get_at` only.
    pub fn put(&mut self, key: K, value: V) -> (r: Option<usize>)
        ensures
            final(self)@.len() == MAX_ENTRIES,
            r is Some <==> spec_first_empty(old(self)@) is Some,
            r matches Some(i) ==> i < MAX_ENTRIES && spec_first_empty(old(self)@) == Some(
                i as int,
            ),
            r matches Some(i) ==> old(self)@[i as int] is None && (forall|j: int|
                0 <= j < i ==> old(self)@[j] is Some),
            r matches Some(i) ==> final(self)@ == old(self)@.update(i as int, Some((key, value))),
            r matches Some(i) ==> occupied_count(final(self)@) == occupied_count(old(self)@) + 1,
            r is None ==> final(self)@ == old(self)@ && occupied_count(old(self)@) == MAX_ENTRIES,
    {
        let mut i: usize = 0;
        while i < MAX_ENTRIES
            invariant
                0 <= i <= MAX_ENTRIES,
                self@.len() == MAX_ENTRIES,
                self@ == old(self)@,
                spec_first_empty(self@) == scan_for_empty(self@, i as int),
                forall|j: int| 0 <= j < i ==> self@[j] is Some,
            decreases MAX_ENTRIES - i,
        {
            if self.slots[i].is_none() {
                proof {
                    lemma_occupied_count_fill(self@, i as int, (key, value));
                }
                self.slots[i] = Some((key, value));
                return Some(i);
            }
            i = i + 1;
        }
        proof {
            lemma_count_full_iff_all_occupied(self@);
        }
        None
    }

    /// Calls `func` once per occupied slot, in ascending slot index order,
    /// passing a copy of the slot's key and value. The map itself is never
    /// changed by a traversal.
    pub fn for_each<F: Fn(K, V)>(&self, func: F)
        requires
            forall|j: int|
                0 <= j < occupied_entries(self@).len() ==> call_requires(
                    func,
                    #[trigger] occupied_entries(self@)[j],
                ),
        ensures
            forall|j: int|
                0 <= j < occupied_entries(self@).len() ==> call_ensures(
                    func,
                    #[trigger] occupied_entries(self@)[j],
                    (),
                ),
    {
        let mut i: usize = 0;
        while i < MAX_ENTRIES
            invariant
                0 <= i <= MAX_ENTRIES,
                self@.len() == MAX_ENTRIES,
                forall|j: int|
                    0 <= j < occupied_entries(self@).len() ==> call_requires(
                        func,
                        #[trigger] occupied_entries(self@)[j],
                    ),
                forall|j: int|
                    0 <= j < occupied_count(self@.take(i as int)) ==> call_ensures(
                        func,
                        #[trigger] occupied_entries(self@)[j],
                        (),
                    ),
            decreases MAX_ENTRIES - i,
        {
            proof {
                lemma_count_take_step(self@, i as int);
            }
            if let Some((k, v)) = self.slots[i] {
                proof {
                    lemma_visit_position(self@, i as int);
                }
                func(k, v);
            }
            i = i + 1;
        }
        proof {
            assert(self@.take(MAX_ENTRIES as int) =~= self@);
            lemma_occupied_entries_len(self@);
        }
    }

    /// The same traversal as `for_each`, for a visitor that mutates its own
    /// captured state (an accumulator, say) across calls. The stored entries
    /// are still passed as copies: despite the name, nothing in the map can
    /// be changed through this call either.
    pub fn for_each_mut<F: FnMut(K, V)>(&self, mut func: F)
        requires
            forall|j: int|
                0 <= j < occupied_entries(self@).len() ==> call_requires(
                    func,
                    #[trigger] occupied_entries(self@)[j],
                ),
        ensures
            forall|j: int|
                0 <= j < occupied_entries(self@).len() ==> call_ensures(
                    func,
                    #[trigger] occupied_entries(self@)[j],
                    (),
                ),
    {
        let ghost func0 = func;
        let mut i: usize = 0;
        while i < MAX_ENTRIES
            invariant
                0 <= i <= MAX_ENTRIES,
                self@.len() == MAX_ENTRIES,
                func == func0,
                forall|j: int|
                    0 <= j < occupied_entries(self@).len() ==> call_requires(
                        func0,
                        #[trigger] occupied_entries(self@)[j],
                    ),
                forall|j: int|
                    0 <= j < occupied_count(self@.take(i as int)) ==> call_ensures(
                        func0,
                        #[trigger] occupied_entries(self@)[j],
                        (),
                    ),
            decreases MAX_ENTRIES - i,
        {
            proof {
                lemma_count_take_step(self@, i as int);
            }
            if let Some((k, v)) = self.slots[i] {
                proof {
                    lemma_visit_position(self@, i as int);
                }
                func(k, v);
            }
            i = i + 1;
        }
        proof {
            assert(self@.take(MAX_ENTRIES as int) =~= self@);
            lemma_occupied_entries_len(self@);
        }
    }

    /// Returns how many slots are occupied, by rescanning all of them.
    pub fn len(&self) -> (n: usize)
        ensures
            n == occupied_count(self@),
    {
        let mut n: usize = 0;
        let mut i: usize = 0;
        while i < MAX_ENTRIES
            invariant
                0 <= i <= MAX_ENTRIES,
                self@.len() == MAX_ENTRIES,
                n <= i,
                n as nat == occupied_count(self@.take(i as int)),
            decreases MAX_ENTRIES - i,
        {
            proof {
                lemma_count_take_step(self@, i as int);
            }
            if self.slots[i].is_some() {
                n = n + 1;
            }
            i = i + 1;
        }
        proof {
            assert(self@.take(MAX_ENTRIES as int) =~= self@);
        }
        n
    }
}

} // verus!
