//! Helpers for a radix-style counting sort: the maximum element of a
//! slice, a histogram of one digit of each element, and a prefix-sum
//! array. Each contract pins the result down element by element.

use vstd::prelude::*;

verus! {

/// The digit of `x` selected by the pass: `(x / div) % base`.
pub open spec fn digit_of(x: usize, base: int, div: int) -> int
    recommends
        base >= 1,
        div >= 1,
{
    (x as int / div) % base
}

/// How many of the first `n` elements of `s` have digit `p`.
pub open spec fn digit_count(s: Seq<usize>, n: int, base: int, div: int, p: int) -> int
    decreases n,
{
    if n <= 0 {
        0
    } else {
        digit_count(s, n - 1, base, div, p) + if digit_of(s[n - 1], base, div) == p {
            1int
        } else {
            0int
        }
    }
}

/// The sum of the first `n` elements of `s`.
pub open spec fn sum_prefix(s: Seq<usize>, n: int) -> int
    decreases n,
{
    if n <= 0 {
        0
    } else {
        sum_prefix(s, n - 1) + s[n - 1]
    }
}

/// A digit occurs at most once per element counted.
proof fn lemma_digit_count_le(s: Seq<usize>, n: int, base: int, div: int, p: int)
    requires
        n >= 0,
    ensures
        0 <= digit_count(s, n, base, div, p) <= n,
    decreases n,
{
    if n > 0 {
        lemma_digit_count_le(s, n - 1, base, div, p);
    }
}

/// Prefix sums of unsigned elements grow with the prefix.
proof fn lemma_sum_prefix_mono(s: Seq<usize>, m: int, n: int)
    requires
        0 <= m <= n <= s.len(),
    ensures
        sum_prefix(s, m) <= sum_prefix(s, n),
    decreases n - m,
{
    if m < n {
        lemma_sum_prefix_mono(s, m, n - 1);
    }
}

/// The largest element of the slice, or zero when it is empty.
pub fn max_elem(arr: &[usize]) -> (r: usize)
    ensures
        forall|i: int| 0 <= i < arr@.len() ==> arr@[i] <= r,
        r == 0 || exists|i: int| 0 <= i < arr@.len() && arr@[i] == r,
{
    let mut max: usize = 0;
    let mut i: usize = 0;
    while i < arr.len()
        invariant
            i <= arr@.len(),
            forall|j: int| 0 <= j < i ==> arr@[j] <= max,
            max == 0 || exists|j: int| 0 <= j < i && arr@[j] == max,
        decreases arr@.len() - i,
    {
        if arr[i] > max {
            max = arr[i];
        }
        i = i + 1;
    }
    max
}

/// The histogram of one digit pass over the first `size` elements: entry
/// `p` counts the elements whose digit `(x / div) % base` equals `p`.
/// Entries at or above `base` stay zero.
pub fn create_count_arr(arr: &[usize], size: usize, base: usize, div: usize) -> (r: Vec<i32>)
    requires
        size <= arr@.len(),
        1 <= base <= size,
        div >= 1,
        size <= i32::MAX,
    ensures
        r@.len() == size,
        forall|p: int|
            0 <= p < size ==> r@[p] == digit_count(arr@, size as int, base as int, div as int, p),
{
    let mut count_arr: Vec<i32> = Vec::new();
    let mut i: usize = 0;
    while i < size
        invariant
            i <= size,
            count_arr@.len() == i,
            forall|p: int| 0 <= p < i ==> count_arr@[p] == 0,
        decreases size - i,
    {
        count_arr.push(0);
        i = i + 1;
    }
    let mut i: usize = 0;
    while i < size
        invariant
            i <= size <= arr@.len(),
            1 <= base <= size,
            div >= 1,
            size <= i32::MAX,
            count_arr@.len() == size,
            forall|p: int|
                0 <= p < size ==> count_arr@[p] == digit_count(
                    arr@,
                    i as int,
                    base as int,
                    div as int,
                    p,
                ),
        decreases size - i,
    {
        let pos = (arr[i] / div) % base;
        proof {
            lemma_digit_count_le(arr@, i as int, base as int, div as int, pos as int);
        }
        count_arr[pos] = count_arr[pos] + 1;
        i = i + 1;
    }
    count_arr
}

/// The running totals of the first `size` elements: entry `i` is the sum
/// of elements `0` through `i`.
pub fn calc_prefix_sum(arr: &[usize], size: usize) -> (r: Vec<usize>)
    requires
        1 <= size <= arr@.len(),
        sum_prefix(arr@, size as int) <= usize::MAX,
    ensures
        r@.len() == size,
        forall|i: int| 0 <= i < size ==> r@[i] == sum_prefix(arr@, i + 1),
{
    let mut prefix_sum: Vec<usize> = Vec::new();
    prefix_sum.push(arr[0]);
    proof {
        assert(sum_prefix(arr@, 0) == 0);
        assert(sum_prefix(arr@, 1) == arr@[0]);
    }
    let mut i: usize = 1;
    while i < size
        invariant
            1 <= i <= size <= arr@.len(),
            sum_prefix(arr@, size as int) <= usize::MAX,
            prefix_sum@.len() == i,
            forall|j: int| 0 <= j < i ==> prefix_sum@[j] == sum_prefix(arr@, j + 1),
        decreases size - i,
    {
        proof {
            lemma_sum_prefix_mono(arr@, i as int + 1, size as int);
        }
        let next = prefix_sum[i - 1] + arr[i];
        prefix_sum.push(next);
        i = i + 1;
    }
    prefix_sum
}

} // verus!
