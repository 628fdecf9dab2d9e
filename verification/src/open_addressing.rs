//! A fixed-capacity hash table of `usize` keys using division hashing and
//! open addressing with linear probing. Collisions are resolved by probing
//! the next slot (wrapping at the capacity); insertion into a full table is
//! reported as a `TableFull` error.

use vstd::prelude::*;
use vstd::arithmetic::div_mod::{
    lemma_add_mod_noop,
    lemma_mod_add_multiples_vanish,
    lemma_mod_bound,
    lemma_small_mod,
};

verus! {

/// The probe sequence: attempt 0 is the home slot `key % cap`, and each
/// further attempt advances one slot, wrapping at the capacity.
pub open spec fn probe(key: usize, attempt: int, cap: int) -> int
    recommends
        cap >= 1,
{
    ((key as int % cap) + attempt) % cap
}

/// The unique attempt in `[0, cap)` whose probe for `key` lands on `idx`.
pub open spec fn attempt_of(key: usize, idx: int, cap: int) -> int
    recommends
        cap >= 1,
{
    (idx - (key as int % cap) + cap) % cap
}

/// Error returned when an insertion cannot find an empty slot.
#[derive(Debug, Clone, Copy, PartialEq, Eq, Structural)]
pub struct TableFull;

/// A fixed-capacity table of optional keys. `size` is the capacity; it is
/// fixed at construction.
pub struct OpenAddressingHashTable {
    pub table: Vec<Option<usize>>,
    pub size: usize,
}

impl OpenAddressingHashTable {
    /// Well-formedness: the backing vector matches the capacity, the
    /// capacity is positive (division hashing needs it) and small enough
    /// that probe arithmetic cannot overflow, and every occupied slot is
    /// reachable along its key's probe sequence.
    pub open spec fn wf(self) -> bool {
        &&& self.table@.len() == self.size
        &&& self.size >= 1
        &&& self.size <= usize::MAX / 2
        &&& probe_inv(self.table@)
    }

    /// Creates a table with `size` empty slots.
    pub fn new(size: usize) -> (r: Self)
        requires
            1 <= size <= usize::MAX / 2,
        ensures
            r.wf(),
            r.size == size,
            forall|i: int| 0 <= i < size ==> r.table@[i] is None,
    {
        let mut table: Vec<Option<usize>> = Vec::new();
        let mut i: usize = 0;
        while i < size
            invariant
                i <= size,
                table@.len() == i,
                forall|j: int| 0 <= j < i ==> table@[j] is None,
            decreases size - i,
        {
            table.push(None);
            i = i + 1;
        }
        OpenAddressingHashTable { table, size }
    }

    /// Inserts `key` at the first empty slot along its probe sequence and
    /// returns that slot's index. Succeeds exactly when the table is not
    /// yet full; a full table is left unchanged and reported as `TableFull`.
    pub fn insert(&mut self, key: usize) -> (r: Result<usize, TableFull>)
        requires
            old(self).wf(),
        ensures
            final(self).wf(),
            final(self).size == old(self).size,
            final(self).table@ == insert_spec(old(self).table@, key),
            r is Ok <==> occupied_count(old(self).table@) < old(self).size,
            match r {
                Ok(idx) => idx < old(self).size && old(self).table@[idx as int] is None
                    && free_attempt_from(old(self).table@, key, 0) == Some(
                    attempt_of(key, idx as int, old(self).size as int),
                ) && final(self).table@ == old(self).table@.update(idx as int, Some(key))
                    && occupied_count(final(self).table@) == occupied_count(old(self).table@)
                    + 1,
                Err(e) => e == TableFull && final(self).table@ == old(self).table@
                    && free_attempt_from(old(self).table@, key, 0) is None,
            },
    {
        let ghost t0 = self.table@;
        let ghost cap = self.size as int;
        let mut i: usize = 0;
        let mut index: usize = Self::hash_division(key, 0, self.size);
        loop
            invariant
                self.table@ == t0,
                t0 == old(self).table@,
                self.size == old(self).size,
                old(self).wf(),
                i < self.size,
                index as int == probe(key, i as int, cap),
                cap == self.size as int,
                forall|j: int| 0 <= j < i ==> t0[#[trigger] probe(key, j, cap)] is Some,
            decreases self.size - i,
        {
            if self.table[index].is_some() {
                i = i + 1;
                if i >= self.size {
                    proof {
                        lemma_free_attempt_none(t0, key, 0);
                        lemma_no_free_slot_iff_full(t0, key);
                    }
                    return Err(TableFull);
                }
                index = Self::hash_division(key, i, self.size);
            } else {
                proof {
                    lemma_free_attempt_at(t0, key, 0, i as int);
                    lemma_attempt_of_probe(key, i as int, cap);
                    lemma_insert_preserves_inv(t0, key, i as int);
                    lemma_occupied_count_update(t0, index as int, key);
                    lemma_no_free_slot_iff_full(t0, key);
                }
                self.table[index] = Some(key);
                return Ok(index);
            }
        }
    }

    /// Probes for `key`: returns the index of the slot where it is stored,
    /// or `None` once an empty slot (or the attempt bound) is reached.
    pub fn search(&self, key: usize) -> (r: Option<usize>)
        requires
            self.wf(),
        ensures
            match r {
                Some(idx) => probe_search_from(self.table@, key, 0) == Some(idx as int) && idx
                    < self.size && self.table@[idx as int] == Some(key),
                None => probe_search_from(self.table@, key, 0) is None,
            },
    {
        let ghost t = self.table@;
        let ghost cap = self.size as int;
        let mut i: usize = 0;
        let mut index: usize = Self::hash_division(key, 0, self.size);
        loop
            invariant
                self.wf(),
                t == self.table@,
                cap == self.size as int,
                i < self.size,
                index as int == probe(key, i as int, cap),
                probe_search_from(t, key, 0) == probe_search_from(t, key, i as int),
            decreases self.size - i,
        {
            match self.table[index] {
                Some(item) => {
                    if item == key {
                        proof {
                            lemma_search_props(t, key, i as int);
                        }
                        return Some(index);
                    }
                    i = i + 1;
                    if i >= self.size {
                        return None;
                    }
                    index = Self::hash_division(key, i, self.size);
                },
                None => {
                    return None;
                },
            }
        }
    }

    /// The division hash with linear probing: `(key % size + attempt) % size`.
    pub fn hash_division(key: usize, attempt: usize, size: usize) -> (r: usize)
        requires
            size >= 1,
            key % size + attempt <= usize::MAX,
        ensures
            r as int == probe(key, attempt as int, size as int),
            r < size,
    {
        (key % size + attempt) % size
    }
}

/// Every occupied slot is reachable by probing: all slots that come earlier
/// in the stored key's probe sequence are themselves occupied. This is the
/// invariant that makes linear-probing search complete.
pub open spec fn probe_inv(t: Seq<Option<usize>>) -> bool {
    forall|idx: int| 0 <= idx < t.len() ==> #[trigger] slot_reachable(t, idx)
}

/// The condition of `probe_inv` at a single slot.
pub open spec fn slot_reachable(t: Seq<Option<usize>>, idx: int) -> bool {
    t[idx] matches Some(k) ==> forall|j: int|
        0 <= j < attempt_of(k, idx, t.len() as int) ==> t[#[trigger] probe(
            k,
            j,
            t.len() as int,
        )] is Some
}

/// The first attempt at or after `i` whose probe for `key` lands on an empty
/// slot, or `None` if every remaining attempt lands on an occupied slot.
/// Insertion stores at attempt `free_attempt_from(t, key, 0)`.
pub open spec fn free_attempt_from(t: Seq<Option<usize>>, key: usize, i: int) -> Option<int>
    recommends
        0 <= i,
    decreases t.len() - i,
{
    if i >= t.len() {
        None
    } else if t[probe(key, i, t.len() as int)] is None {
        Some(i)
    } else {
        free_attempt_from(t, key, i + 1)
    }
}

/// What searching for `key` from attempt `i` onward returns: the index of
/// the first slot along the probe sequence that stores `key`, or `None` if
/// an empty slot (or the attempt bound) is reached first.
pub open spec fn probe_search_from(t: Seq<Option<usize>>, key: usize, i: int) -> Option<int>
    recommends
        0 <= i,
    decreases t.len() - i,
{
    if i >= t.len() {
        None
    } else {
        match t[probe(key, i, t.len() as int)] {
            None => None,
            Some(k) => if k == key {
                Some(probe(key, i, t.len() as int))
            } else {
                probe_search_from(t, key, i + 1)
            },
        }
    }
}

/// The table `t` after inserting `key`, as a mathematical function: the
/// first empty slot along the probe sequence receives the key; a table with
/// no such slot is unchanged.
pub open spec fn insert_spec(t: Seq<Option<usize>>, key: usize) -> Seq<Option<usize>> {
    match free_attempt_from(t, key, 0) {
        Some(a) => t.update(probe(key, a, t.len() as int), Some(key)),
        None => t,
    }
}

/// The number of occupied slots.
pub open spec fn occupied_count(t: Seq<Option<usize>>) -> int
    decreases t.len(),
{
    if t.len() == 0 {
        0
    } else {
        occupied_count(t.drop_last()) + if t.last() is Some {
            1int
        } else {
            0int
        }
    }
}

/// The probe for any attempt stays within the table.
pub proof fn lemma_probe_bound(key: usize, attempt: int, cap: int)
    requires
        cap >= 1,
        attempt >= 0,
    ensures
        0 <= probe(key, attempt, cap) < cap,
{
    lemma_mod_bound(key as int % cap + attempt, cap);
}

/// `attempt_of` inverts `probe`: from a slot index, the attempt that
/// reaches it; and it is the unique such attempt below `cap`.
pub proof fn lemma_attempt_of(key: usize, idx: int, cap: int)
    requires
        cap >= 1,
        0 <= idx < cap,
    ensures
        0 <= attempt_of(key, idx, cap) < cap,
        probe(key, attempt_of(key, idx, cap), cap) == idx,
{
    let h = key as int % cap;
    lemma_mod_bound(key as int, cap);
    let a = (idx - h + cap) % cap;
    lemma_mod_bound(idx - h + cap, cap);
    lemma_small_mod(h as nat, cap as nat);
    lemma_add_mod_noop(h, idx - h + cap, cap);
    assert((h + (idx - h + cap)) % cap == (idx + cap) % cap);
    lemma_mod_add_multiples_vanish(idx, cap);
    lemma_small_mod(idx as nat, cap as nat);
}

/// Probing is injective over one round of attempts: `attempt_of` recovers
/// the attempt from the probed index.
pub proof fn lemma_attempt_of_probe(key: usize, attempt: int, cap: int)
    requires
        cap >= 1,
        0 <= attempt < cap,
    ensures
        attempt_of(key, probe(key, attempt, cap), cap) == attempt,
{
    let h = key as int % cap;
    lemma_mod_bound(key as int, cap);
    let p = (h + attempt) % cap;
    lemma_mod_bound(h + attempt, cap);
    lemma_small_mod(p as nat, cap as nat);
    lemma_add_mod_noop(p, cap - h, cap);
    lemma_add_mod_noop(h + attempt, cap - h, cap);
    assert((p - h + cap) % cap == (h + attempt + (cap - h)) % cap);
    lemma_mod_add_multiples_vanish(attempt, cap);
    lemma_small_mod(attempt as nat, cap as nat);
}

/// What `free_attempt_from` returns: a first empty probe slot after a run
/// of occupied ones, or no empty probe slot at all.
pub proof fn lemma_free_attempt_props(t: Seq<Option<usize>>, key: usize, i: int)
    requires
        0 <= i,
        t.len() >= 1,
    ensures
        match free_attempt_from(t, key, i) {
            Some(a) => i <= a < t.len() && t[probe(key, a, t.len() as int)] is None && forall|
                j: int,
            |
                i <= j < a ==> t[#[trigger] probe(key, j, t.len() as int)] is Some,
            None => forall|j: int|
                i <= j < t.len() ==> t[#[trigger] probe(key, j, t.len() as int)] is Some,
        },
    decreases t.len() - i,
{
    if i < t.len() && !(t[probe(key, i, t.len() as int)] is None) {
        lemma_free_attempt_props(t, key, i + 1);
    }
}

/// A run of occupied probe slots followed by an empty one pins the result
/// of `free_attempt_from` down.
pub proof fn lemma_free_attempt_at(t: Seq<Option<usize>>, key: usize, i: int, a: int)
    requires
        0 <= i <= a < t.len(),
        t[probe(key, a, t.len() as int)] is None,
        forall|j: int| i <= j < a ==> t[#[trigger] probe(key, j, t.len() as int)] is Some,
    ensures
        free_attempt_from(t, key, i) == Some(a),
    decreases a - i,
{
    if i < a {
        lemma_free_attempt_at(t, key, i + 1, a);
    }
}

/// When every remaining probe slot is occupied, no free attempt exists.
pub proof fn lemma_free_attempt_none(t: Seq<Option<usize>>, key: usize, i: int)
    requires
        0 <= i,
        forall|j: int| i <= j < t.len() ==> t[#[trigger] probe(key, j, t.len() as int)] is Some,
    ensures
        free_attempt_from(t, key, i) is None,
    decreases t.len() - i,
{
    if i < t.len() {
        lemma_free_attempt_none(t, key, i + 1);
    }
}

/// A successful probe search really lands on a slot storing the key.
pub proof fn lemma_search_props(t: Seq<Option<usize>>, key: usize, i: int)
    requires
        0 <= i,
    ensures
        probe_search_from(t, key, i) matches Some(idx) ==> 0 <= idx < t.len() && t[idx] == Some(
            key,
        ),
    decreases t.len() - i,
{
    if i < t.len() {
        lemma_probe_bound(key, i, t.len() as int);
        lemma_search_props(t, key, i + 1);
    }
}

/// If the key sits at attempt `a` of its probe sequence and every earlier
/// attempt (from `i` on) lands on an occupied slot, the search started at
/// `i` succeeds.
pub proof fn lemma_search_finds(t: Seq<Option<usize>>, key: usize, i: int, a: int)
    requires
        0 <= i <= a < t.len(),
        t[probe(key, a, t.len() as int)] == Some(key),
        forall|j: int| i <= j < a ==> t[#[trigger] probe(key, j, t.len() as int)] is Some,
    ensures
        probe_search_from(t, key, i) is Some,
    decreases a - i,
{
    if i < a {
        if t[probe(key, i, t.len() as int)] != Some(key) {
            lemma_search_finds(t, key, i + 1, a);
        }
    }
}

/// The occupied count is bounded by the length, and reaches it exactly on
/// a table with no empty slot.
pub proof fn lemma_occupied_count_bounds(t: Seq<Option<usize>>)
    ensures
        0 <= occupied_count(t) <= t.len(),
        occupied_count(t) == t.len() <==> forall|i: int| 0 <= i < t.len() ==> t[i] is Some,
    decreases t.len(),
{
    if t.len() > 0 {
        lemma_occupied_count_bounds(t.drop_last());
        assert(forall|i: int| 0 <= i < t.len() - 1 ==> t.drop_last()[i] == t[i]);
        if occupied_count(t) == t.len() {
            assert forall|i: int| 0 <= i < t.len() implies t[i] is Some by {
                if i < t.len() - 1 {
                    assert(t.drop_last()[i] is Some);
                }
            }
        }
        if forall|i: int| 0 <= i < t.len() ==> t[i] is Some {
            assert forall|i: int| 0 <= i < t.len() - 1 implies t.drop_last()[i] is Some by {
                assert(t[i] is Some);
            }
        }
    }
}

/// Storing a key in an empty slot raises the occupied count by one.
pub proof fn lemma_occupied_count_update(t: Seq<Option<usize>>, i: int, key: usize)
    requires
        0 <= i < t.len(),
        t[i] is None,
    ensures
        occupied_count(t.update(i, Some(key))) == occupied_count(t) + 1,
    decreases t.len(),
{
    let t2 = t.update(i, Some(key));
    if i == t.len() - 1 {
        assert(t2.drop_last() =~= t.drop_last());
    } else {
        assert(t2.drop_last() =~= t.drop_last().update(i, Some(key)));
        lemma_occupied_count_update(t.drop_last(), i, key);
    }
}

/// Inserting at the first empty probe slot preserves reachability of every
/// occupied slot: the new key's earlier probe slots are occupied by choice
/// of the slot, and occupied slots never become empty.
pub proof fn lemma_insert_preserves_inv(t: Seq<Option<usize>>, key: usize, a: int)
    requires
        probe_inv(t),
        t.len() >= 1,
        free_attempt_from(t, key, 0) == Some(a),
    ensures
        probe_inv(t.update(probe(key, a, t.len() as int), Some(key))),
{
    let cap = t.len() as int;
    lemma_free_attempt_props(t, key, 0);
    lemma_probe_bound(key, a, cap);
    let p = probe(key, a, cap);
    let t2 = t.update(p, Some(key));
    assert forall|idx: int| 0 <= idx < t2.len() implies slot_reachable(t2, idx) by {
        if t2[idx] is Some {
            let k = t2[idx]->Some_0;
            if idx == p {
                lemma_attempt_of_probe(key, a, cap);
                assert(attempt_of(k, idx, cap) == a);
                assert forall|j: int| 0 <= j < attempt_of(k, idx, cap) implies t2[#[trigger] probe(
                    k,
                    j,
                    cap,
                )] is Some by {
                    lemma_probe_bound(k, j, cap);
                    assert(t[probe(k, j, cap)] is Some);
                }
            } else {
                assert(slot_reachable(t, idx));
                assert forall|j: int| 0 <= j < attempt_of(k, idx, cap) implies t2[#[trigger] probe(
                    k,
                    j,
                    cap,
                )] is Some by {
                    lemma_probe_bound(k, j, cap);
                    assert(t[probe(k, j, cap)] is Some);
                }
            }
        }
    }
}

/// The probe sequence visits every slot within one round of attempts, so a
/// key runs out of free probe slots exactly when the table is full.
pub proof fn lemma_no_free_slot_iff_full(t: Seq<Option<usize>>, key: usize)
    requires
        t.len() >= 1,
    ensures
        free_attempt_from(t, key, 0) is None <==> occupied_count(t) == t.len(),
        occupied_count(t) < t.len() <==> exists|i: int| 0 <= i < t.len() && t[i] is None,
{
    let cap = t.len() as int;
    lemma_occupied_count_bounds(t);
    lemma_free_attempt_props(t, key, 0);
    if free_attempt_from(t, key, 0) is None {
        assert forall|i: int| 0 <= i < t.len() implies t[i] is Some by {
            lemma_attempt_of(key, i, cap);
            assert(t[probe(key, attempt_of(key, i, cap), cap)] is Some);
        }
    }
    if occupied_count(t) == t.len() {
        assert forall|j: int| 0 <= j < t.len() implies t[#[trigger] probe(
            key,
            j,
            cap,
        )] is Some by {
            lemma_probe_bound(key, j, cap);
        }
        lemma_free_attempt_none(t, key, 0);
    }
}

/// Law: every key stored somewhere in a well-formed table is found by the
/// probing search, at a slot that stores exactly that key.
pub proof fn lemma_present_key_found(t: OpenAddressingHashTable, key: usize)
    requires
        t.wf(),
        exists|i: int| 0 <= i < t.table@.len() && t.table@[i] == Some(key),
    ensures
        probe_search_from(t.table@, key, 0) matches Some(idx) && 0 <= idx < t.table@.len()
            && t.table@[idx] == Some(key),
{
    let s = t.table@;
    let i = choose|i: int| 0 <= i < s.len() && s[i] == Some(key);
    lemma_search_finds_in(s, key, i);
}

/// Law: a key stored in no slot of the table is never found: the probing
/// search reports it as absent.
pub proof fn lemma_absent_key_not_found(t: OpenAddressingHashTable, key: usize)
    requires
        t.wf(),
        forall|i: int| 0 <= i < t.table@.len() ==> t.table@[i] != Some(key),
    ensures
        probe_search_from(t.table@, key, 0) is None,
{
    lemma_search_props(t.table@, key, 0);
}

/// Law: the result of a search is pinned down by the table and the key
/// alone, so repeated searches with no intervening insertion agree. The two
/// arguments stand for the outcomes of two such calls, each constrained
/// exactly as `search` constrains its result.
pub proof fn lemma_search_deterministic(
    t: OpenAddressingHashTable,
    key: usize,
    r1: Option<usize>,
    r2: Option<usize>,
)
    requires
        match r1 {
            Some(idx) => probe_search_from(t.table@, key, 0) == Some(idx as int),
            None => probe_search_from(t.table@, key, 0) is None,
        },
        match r2 {
            Some(idx) => probe_search_from(t.table@, key, 0) == Some(idx as int),
            None => probe_search_from(t.table@, key, 0) is None,
        },
    ensures
        r1 == r2,
{
}

/// Law: two distinct keys that collide on their home slot can both be
/// inserted while the table has room for both, and each remains
/// independently searchable afterwards.
pub proof fn lemma_colliding_keys_coexist(t: OpenAddressingHashTable, k1: usize, k2: usize)
    requires
        t.wf(),
        k1 != k2,
        k1 as int % t.size as int == k2 as int % t.size as int,
        occupied_count(t.table@) + 2 <= t.size,
    ensures
        free_attempt_from(t.table@, k1, 0) is Some,
        free_attempt_from(insert_spec(t.table@, k1), k2, 0) is Some,
        ({
            let t2 = insert_spec(insert_spec(t.table@, k1), k2);
            (probe_search_from(t2, k1, 0) matches Some(i1) && t2[i1] == Some(k1))
                && (probe_search_from(t2, k2, 0) matches Some(i2) && t2[i2] == Some(k2))
        }),
{
    let s = t.table@;
    let cap = s.len() as int;
    lemma_occupied_count_bounds(s);
    lemma_no_free_slot_iff_full(s, k1);
    let a1 = free_attempt_from(s, k1, 0)->Some_0;
    lemma_free_attempt_props(s, k1, 0);
    lemma_probe_bound(k1, a1, cap);
    let p1 = probe(k1, a1, cap);
    let s1 = s.update(p1, Some(k1));
    assert(s1 == insert_spec(s, k1));
    lemma_insert_preserves_inv(s, k1, a1);
    lemma_occupied_count_update(s, p1, k1);
    lemma_no_free_slot_iff_full(s1, k2);
    let a2 = free_attempt_from(s1, k2, 0)->Some_0;
    lemma_free_attempt_props(s1, k2, 0);
    lemma_probe_bound(k2, a2, cap);
    let p2 = probe(k2, a2, cap);
    let s2 = s1.update(p2, Some(k2));
    assert(s2 == insert_spec(s1, k2));
    lemma_insert_preserves_inv(s1, k2, a2);
    assert(s2[p1] == Some(k1));
    assert(s2[p2] == Some(k2));
    lemma_search_finds_in(s2, k1, p1);
    lemma_search_finds_in(s2, k2, p2);
}

/// The statement of `lemma_present_key_found` over a bare slot sequence.
proof fn lemma_search_finds_in(s: Seq<Option<usize>>, key: usize, i: int)
    requires
        probe_inv(s),
        s.len() >= 1,
        0 <= i < s.len(),
        s[i] == Some(key),
    ensures
        probe_search_from(s, key, 0) matches Some(idx) && 0 <= idx < s.len() && s[idx] == Some(
            key,
        ),
{
    let cap = s.len() as int;
    lemma_attempt_of(key, i, cap);
    assert(slot_reachable(s, i));
    lemma_search_finds(s, key, 0, attempt_of(key, i, cap));
    lemma_search_props(s, key, 0);
}

} // verus!
