//! Counts the base pairings in a strand over the alphabet B, S, C, F,
//! where B pairs with S and C pairs with F. A stack scan pairs each base
//! with an adjacent complementary one: a base matching the top of the
//! stack pops it and counts a connection, any other base is pushed.

use vstd::prelude::*;
use vstd::string::StrSliceExecFns;

verus! {

/// Whether `c` is one of the four bases.
pub open spec fn is_base(c: char) -> bool {
    c == 'B' || c == 'S' || c == 'C' || c == 'F'
}

/// The complementary base: B pairs with S, C pairs with F. Characters
/// outside the alphabet are their own image, so the function is total.
pub open spec fn complement_of(c: char) -> char {
    if c == 'B' {
        'S'
    } else if c == 'S' {
        'B'
    } else if c == 'C' {
        'F'
    } else if c == 'F' {
        'C'
    } else {
        c
    }
}

/// The stack scan from position `i` on, with the current stack and count:
/// at each base, a complementary stack top is popped and counted, any
/// other base is pushed.
pub open spec fn connections_from(s: Seq<char>, i: int, stack: Seq<char>, acc: int) -> int
    decreases s.len() - i,
{
    if i < 0 || i >= s.len() {
        acc
    } else if stack.len() == 0 {
        connections_from(s, i + 1, stack.push(s[i]), acc)
    } else if stack.last() == complement_of(s[i]) {
        connections_from(s, i + 1, stack.drop_last(), acc + 1)
    } else {
        connections_from(s, i + 1, stack.push(s[i]), acc)
    }
}

/// The number of connections in the whole strand.
pub open spec fn rnaa_connections(s: Seq<char>) -> int {
    connections_from(s, 0, Seq::empty(), 0)
}

/// The complement of a base.
fn get_base_complement(base: char) -> (r: char)
    ensures
        r == complement_of(base),
{
    match base {
        'B' => 'S',
        'S' => 'B',
        'C' => 'F',
        'F' => 'C',
        _ => base,
    }
}

/// Counts the connections of the strand by the stack scan.
pub fn calc_rnaa_connections(rnaa: &str) -> (r: u32)
    requires
        forall|i: int| 0 <= i < rnaa@.len() ==> is_base(#[trigger] rnaa@[i]),
        rnaa@.len() <= u32::MAX,
    ensures
        r as int == rnaa_connections(rnaa@),
{
    let mut connections: u32 = 0;
    let mut stack: Vec<char> = Vec::new();
    let n = rnaa.unicode_len();
    let mut i: usize = 0;
    while i < n
        invariant
            n == rnaa@.len(),
            i <= n,
            n <= u32::MAX,
            stack@.len() + 2 * connections == i,
            connections_from(rnaa@, i as int, stack@, connections as int) == rnaa_connections(
                rnaa@,
            ),
        decreases n - i,
    {
        let base = rnaa.get_char(i);
        if stack.len() == 0 {
            stack.push(base);
        } else {
            let top = stack[stack.len() - 1];
            if top == get_base_complement(base) {
                stack.pop();
                connections = connections + 1;
            } else {
                stack.push(base);
            }
        }
        i = i + 1;
    }
    connections
}

} // verus!
