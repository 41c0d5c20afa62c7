//! The scheduling arithmetic of round-robin fan-in over child streams:
//! children are polled in rotation starting after the last one polled, and
//! the cursor is re-aimed when finished children are removed. An event loop
//! may merge its sources in any fair way; what is proved here is the
//! fairness of this rotation: one full pass visits every child exactly once.

use vstd::prelude::*;

verus! {

/// The round-robin rotation over `children_len` children that starts just
/// after `last_polled_index`: a full pass in which every child appears
/// exactly once.
pub fn polling_order(children_len: usize, last_polled_index: usize) -> (r: Vec<usize>)
    requires
        children_len > 0,
        last_polled_index < children_len,
    ensures
        r@.len() == children_len,
        forall|j: int|
            0 <= j < r@.len() ==> #[trigger] r@[j] == (last_polled_index + 1 + j) % (
            children_len as int),
        forall|c: int| 0 <= c < children_len ==> #[trigger] r@.contains(c as usize),
{
    let n = children_len;
    let mut r: Vec<usize> = Vec::new();
    let mut next: usize = if last_polled_index + 1 == n {
        0
    } else {
        last_polled_index + 1
    };
    proof {
        lemma_mod_start(last_polled_index as int, n as int);
    }
    let mut j: usize = 0;
    while j < n
        invariant
            n == children_len,
            last_polled_index < n,
            j <= n,
            r@.len() == j,
            next < n,
            next == (last_polled_index + 1 + j) % (n as int),
            forall|k: int|
                0 <= k < j ==> #[trigger] r@[k] == (last_polled_index + 1 + k) % (n as int),
        decreases n - j,
    {
        r.push(next);
        next = if next + 1 == n {
            0
        } else {
            next + 1
        };
        proof {
            lemma_mod_step(last_polled_index as int, j as int, n as int);
        }
        j = j + 1;
    }
    proof {
        assert forall|c: int| 0 <= c < children_len implies #[trigger] r@.contains(c as usize) by {
            let start = (last_polled_index + 1) % (n as int);
            let w: int = if c >= start {
                c - start
            } else {
                c + n - start
            };
            assert(r@[w] == (last_polled_index + 1 + w) % (n as int));
            assert((last_polled_index + 1 + w) % (n as int) == c) by (nonlinear_arith)
                requires
                    n > 0,
                    0 <= c < n,
                    last_polled_index < n,
                    start == (last_polled_index + 1) % (n as int),
                    w == (if c >= start {
                        c - start
                    } else {
                        c + n - start
                    }),
            ;
        }
    }
    r
}

/// Stepping the rotation by one steps the remainder by one.
#[verifier::nonlinear]
proof fn lemma_mod_step(last: int, j: int, n: int)
    requires
        n > 0,
        j >= 0,
        last >= 0,
    ensures
        (last + 1 + j) % n + 1 == n ==> (last + 1 + (j + 1)) % n == 0,
        (last + 1 + j) % n + 1 < n ==> (last + 1 + (j + 1)) % n == (last + 1 + j) % n + 1,
{
}

/// The first step of the rotation.
#[verifier::nonlinear]
proof fn lemma_mod_start(last: int, n: int)
    requires
        n > 0,
        0 <= last < n,
    ensures
        last + 1 == n ==> (last + 1) % n == 0,
        last + 1 < n ==> (last + 1) % n == last + 1,
{
}

/// How many removal indices lie strictly below `x`.
pub open spec fn spec_count_less(s: Seq<usize>, x: usize) -> int
    decreases s.len(),
{
    if s.len() == 0 {
        0int
    } else {
        (if s[0] < x {
            1int
        } else {
            0int
        }) + spec_count_less(s.drop_first(), x)
    }
}

/// A count of chosen elements never exceeds the count of all of them.
pub proof fn lemma_count_less_bound(s: Seq<usize>, x: usize)
    ensures
        0 <= spec_count_less(s, x) <= s.len(),
    decreases s.len(),
{
    if s.len() > 0 {
        lemma_count_less_bound(s.drop_first(), x);
    }
}

/// Appending one index adds one to the count exactly when it lies below `x`.
pub proof fn lemma_count_less_push(s: Seq<usize>, v: usize, x: usize)
    ensures
        spec_count_less(s.push(v), x) == spec_count_less(s, x) + (if v < x {
            1int
        } else {
            0int
        }),
    decreases s.len(),
{
    if s.len() == 0 {
        assert(s.push(v).drop_first() =~= s);
    } else {
        lemma_count_less_push(s.drop_first(), v, x);
        assert(s.push(v).drop_first() =~= s.drop_first().push(v));
    }
}

/// Where the rotation's cursor points after finished children are removed:
/// each removed child below the cursor shifts it down by one, so the next
/// pass still starts right after the child polled last.
pub fn adjust_last_polled(last_polled_index: usize, removed: &Vec<usize>) -> (r: usize)
    requires
        spec_count_less(removed@, last_polled_index) <= last_polled_index,
    ensures
        r == last_polled_index - spec_count_less(removed@, last_polled_index),
{
    let n = removed.len();
    let mut count: usize = 0;
    let mut i: usize = 0;
    while i < n
        invariant
            n == removed@.len(),
            i <= n,
            count == spec_count_less(removed@.take(i as int), last_polled_index),
            count <= i,
        decreases n - i,
    {
        proof {
            lemma_count_less_push(
                removed@.take(i as int),
                removed@[i as int],
                last_polled_index,
            );
            assert(removed@.take(i as int).push(removed@[i as int]) =~= removed@.take(i + 1));
            lemma_count_less_bound(removed@.take(i as int), last_polled_index);
        }
        if removed[i] < last_polled_index {
            count = count + 1;
        }
        i = i + 1;
    }
    proof {
        assert(removed@.take(n as int) =~= removed@);
    }
    last_polled_index - count
}

} // verus!
