//! A hash table of `usize` keys using division hashing with separate
//! chaining: each of the `size` buckets holds the list of keys whose hash
//! is that bucket's index. Chaining never fills up, so insertion always
//! succeeds; duplicate insertions simply lengthen the chain.

use vstd::prelude::*;

verus! {

/// A fixed number of buckets, each a chain of keys in insertion order.
pub struct LinkedListHashTable {
    pub table: Vec<Vec<usize>>,
    pub size: usize,
}

impl LinkedListHashTable {
    /// Well-formedness: one bucket per hash value, a positive number of
    /// buckets, and every key chained in the bucket its hash selects.
    pub open spec fn wf(self) -> bool {
        &&& self.table@.len() == self.size
        &&& self.size >= 1
        &&& forall|b: int, j: int|
            0 <= b < self.size && 0 <= j < self.table@[b]@.len() ==> (
            #[trigger] self.table@[b]@[j]) as int % self.size as int == b
    }

    /// Creates a table of `size` empty buckets.
    pub fn new(size: usize) -> (r: Self)
        requires
            size >= 1,
        ensures
            r.wf(),
            r.size == size,
            forall|b: int| 0 <= b < size ==> r.table@[b]@ == Seq::<usize>::empty(),
    {
        let mut table: Vec<Vec<usize>> = Vec::new();
        let mut i: usize = 0;
        while i < size
            invariant
                i <= size,
                table@.len() == i,
                forall|b: int| 0 <= b < i ==> table@[b]@ == Seq::<usize>::empty(),
            decreases size - i,
        {
            table.push(Vec::new());
            i = i + 1;
        }
        LinkedListHashTable { table, size }
    }

    /// Appends `key` to the chain of its bucket and returns the bucket
    /// index. Every other bucket is untouched.
    pub fn insert(&mut self, key: usize) -> (idx: usize)
        requires
            old(self).wf(),
        ensures
            final(self).wf(),
            final(self).size == old(self).size,
            idx == key % old(self).size,
            final(self).table@[idx as int]@ == old(self).table@[idx as int]@.push(key),
            forall|b: int|
                0 <= b < old(self).size && b != idx ==> final(self).table@[b]@ == old(
                    self,
                ).table@[b]@,
    {
        let index = Self::hash_division(key, self.size);
        self.table[index].push(key);
        index
    }

    /// Walks the chain of `key`'s bucket: returns the bucket index when the
    /// chain holds the key, and `None` when it does not.
    pub fn search(&self, key: usize) -> (r: Option<usize>)
        requires
            self.wf(),
        ensures
            match r {
                Some(idx) => idx == key % self.size && self.table@[idx as int]@.contains(key),
                None => !self.table@[(key % self.size) as int]@.contains(key),
            },
    {
        let index = Self::hash_division(key, self.size);
        let bucket = &self.table[index];
        let mut j: usize = 0;
        while j < bucket.len()
            invariant
                bucket@ == self.table@[index as int]@,
                index == key % self.size,
                index < self.table@.len(),
                j <= bucket@.len(),
                forall|m: int| 0 <= m < j ==> bucket@[m] != key,
            decreases bucket@.len() - j,
        {
            if bucket[j] == key {
                return Some(index);
            }
            j = j + 1;
        }
        None
    }

    /// The division hash: `key % size`.
    pub fn hash_division(key: usize, size: usize) -> (r: usize)
        requires
            size >= 1,
        ensures
            r == key % size,
            r < size,
    {
        key % size
    }
}

} // verus!
