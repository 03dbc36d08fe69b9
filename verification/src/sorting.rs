//! The order of a monitor's workspaces: a stable sort by a key, as a
//! function on sequences, with what makes it a sort.

use vstd::prelude::*;
use crate::seq_util::lemma_insert_no_dup;

verus! {

/// Whether the keys of `s` never decrease from left to right.
pub open spec fn sorted_by(s: Seq<usize>, key: spec_fn(usize) -> int) -> bool {
    forall|i: int, j: int| 0 <= i < j < s.len() ==> key(s[i]) <= key(s[j])
}

/// The sorted sequence `sorted` with `x` put behind the last element whose
/// key is not greater than that of `x`.
pub open spec fn insert_by_key(sorted: Seq<usize>, x: usize, key: spec_fn(usize) -> int) -> Seq<
    usize,
>
    decreases sorted.len(),
{
    if sorted.len() == 0 {
        seq![x]
    } else if key(sorted.last()) <= key(x) {
        sorted.push(x)
    } else {
        insert_by_key(sorted.drop_last(), x, key).push(sorted.last())
    }
}

/// The elements of `s` in the order of their keys; elements with the same
/// key stay in the order in which they stand in `s`.
pub open spec fn sort_by_key(s: Seq<usize>, key: spec_fn(usize) -> int) -> Seq<usize>
    decreases s.len(),
{
    if s.len() == 0 {
        s
    } else {
        insert_by_key(sort_by_key(s.drop_last(), key), s.last(), key)
    }
}

/// The position at which `insert_by_key` puts the new element: behind every
/// element whose key is not greater, before every element whose key is.
pub proof fn lemma_insert_position(
    sorted: Seq<usize>,
    x: usize,
    key: spec_fn(usize) -> int,
    j: int,
)
    requires
        0 <= j <= sorted.len(),
        forall|k: int| j <= k < sorted.len() ==> key(sorted[k]) > key(x),
        j > 0 ==> key(sorted[j - 1]) <= key(x),
    ensures
        insert_by_key(sorted, x, key) == sorted.insert(j, x),
    decreases sorted.len(),
{
    if sorted.len() == 0 {
        assert(sorted.insert(j, x) =~= seq![x]);
    } else if j == sorted.len() {
        assert(sorted.insert(j, x) =~= sorted.push(x));
    } else {
        let front = sorted.drop_last();
        lemma_insert_position(front, x, key, j);
        assert(front.insert(j, x).push(sorted.last()) =~= sorted.insert(j, x));
    }
}

/// Where `insert_by_key` puts the new element, for a sorted sequence.
pub proof fn lemma_insert_by_key(sorted: Seq<usize>, x: usize, key: spec_fn(usize) -> int) -> (j:
    int)
    requires
        sorted_by(sorted, key),
    ensures
        0 <= j <= sorted.len(),
        insert_by_key(sorted, x, key) == sorted.insert(j, x),
        forall|k: int| 0 <= k < j ==> key(sorted[k]) <= key(x),
        forall|k: int| j <= k < sorted.len() ==> key(sorted[k]) > key(x),
        sorted_by(insert_by_key(sorted, x, key), key),
    decreases sorted.len(),
{
    let r = insert_by_key(sorted, x, key);
    if sorted.len() == 0 {
        assert(sorted.insert(0, x) =~= seq![x]);
        0
    } else if key(sorted.last()) <= key(x) {
        assert(sorted.insert(sorted.len() as int, x) =~= sorted.push(x));
        assert forall|k: int| 0 <= k < sorted.len() implies key(sorted[k]) <= key(x) by {
            if k < sorted.len() - 1 {
                assert(key(sorted[k]) <= key(sorted[sorted.len() - 1]));
            }
        }
        assert forall|a: int, b: int| 0 <= a < b < r.len() implies key(r[a]) <= key(r[b]) by {
            if b < sorted.len() {
                assert(key(sorted[a]) <= key(sorted[b]));
            }
        }
        sorted.len() as int
    } else {
        let front = sorted.drop_last();
        assert(sorted_by(front, key)) by {
            assert forall|a: int, b: int| 0 <= a < b < front.len() implies key(front[a]) <= key(
                front[b],
            ) by {
                assert(key(sorted[a]) <= key(sorted[b]));
            }
        }
        let j = lemma_insert_by_key(front, x, key);
        assert(front.insert(j, x).push(sorted.last()) =~= sorted.insert(j, x));
        assert forall|k: int| 0 <= k < j implies key(sorted[k]) <= key(x) by {
            assert(sorted[k] == front[k]);
        }
        assert forall|k: int| j <= k < sorted.len() implies key(sorted[k]) > key(x) by {
            if k < front.len() {
                assert(sorted[k] == front[k]);
            }
        }
        assert forall|a: int, b: int| 0 <= a < b < r.len() implies key(r[a]) <= key(r[b]) by {
            let aa = if a < j { a } else { a - 1 };
            let bb = if b < j { b } else { b - 1 };
            if a != j {
                assert(r[a] == sorted[aa]);
            }
            if b != j {
                assert(r[b] == sorted[bb]);
            }
            if a != j && b != j {
                assert(key(sorted[aa]) <= key(sorted[bb]));
            }
        }
        j
    }
}

/// Sorting yields a sorted sequence.
pub proof fn lemma_sort_sorted(s: Seq<usize>, key: spec_fn(usize) -> int)
    ensures
        sorted_by(sort_by_key(s, key), key),
        sort_by_key(s, key).len() == s.len(),
    decreases s.len(),
{
    if s.len() > 0 {
        lemma_sort_sorted(s.drop_last(), key);
        let j = lemma_insert_by_key(sort_by_key(s.drop_last(), key), s.last(), key);
    }
}

/// Sorting keeps the elements: what has no repetitions has none
/// afterwards, and holds the same elements.
pub proof fn lemma_sort_permutes(s: Seq<usize>, key: spec_fn(usize) -> int)
    requires
        s.no_duplicates(),
    ensures
        sort_by_key(s, key).no_duplicates(),
        sort_by_key(s, key).len() == s.len(),
        forall|y: usize| sort_by_key(s, key).contains(y) <==> s.contains(y),
    decreases s.len(),
{
    if s.len() > 0 {
        let front = s.drop_last();
        let x = s.last();
        lemma_sort_permutes(front, key);
        lemma_sort_sorted(front, key);
        let sorted = sort_by_key(front, key);
        let j = lemma_insert_by_key(sorted, x, key);
        assert(!front.contains(x)) by {
            if front.contains(x) {
                let i = choose|i: int| 0 <= i < front.len() && front[i] == x;
                assert(s[i] == s[s.len() - 1]);
            }
        }
        lemma_insert_no_dup(sorted, j, x);
        assert forall|y: usize| sort_by_key(s, key).contains(y) <==> s.contains(y) by {
            if s.contains(y) {
                let i = choose|i: int| 0 <= i < s.len() && s[i] == y;
                if i < s.len() - 1 {
                    assert(front[i] == y);
                }
            }
            if front.contains(y) {
                let i = choose|i: int| 0 <= i < front.len() && front[i] == y;
                assert(s[i] == y);
            }
            assert(s[s.len() - 1] == x);
        }
    }
}

/// Sorting leaves a sorted sequence as it is.
pub proof fn lemma_sort_fixes_sorted(s: Seq<usize>, key: spec_fn(usize) -> int)
    requires
        sorted_by(s, key),
    ensures
        sort_by_key(s, key) == s,
    decreases s.len(),
{
    if s.len() > 0 {
        let front = s.drop_last();
        assert(sorted_by(front, key)) by {
            assert forall|i: int, j: int| 0 <= i < j < front.len() implies key(front[i]) <= key(
                front[j],
            ) by {
                assert(front[i] == s[i] && front[j] == s[j]);
            }
        }
        lemma_sort_fixes_sorted(front, key);
        if front.len() > 0 {
            assert(front.last() == s[s.len() - 2]);
        }
        assert(front.push(s.last()) =~= s);
    }
}

/// Sorting twice is sorting once.
pub proof fn lemma_sort_idempotent(s: Seq<usize>, key: spec_fn(usize) -> int)
    ensures
        sort_by_key(sort_by_key(s, key), key) == sort_by_key(s, key),
{
    lemma_sort_sorted(s, key);
    lemma_sort_fixes_sorted(sort_by_key(s, key), key);
}

/// Whether `sorted` keeps the elements with the same key in the order in
/// which they stand in `given`.
pub open spec fn stable_by(given: Seq<usize>, sorted: Seq<usize>, key: spec_fn(usize) -> int)
    -> bool {
    forall|i: int, j: int, p: int, q: int|
        0 <= i < j < sorted.len() && 0 <= p < given.len() && 0 <= q < given.len()
            && given[p] == sorted[i] && given[q] == sorted[j] && key(sorted[i]) == key(
            sorted[j],
        ) ==> p < q
}

/// Sorting keeps elements with the same key in their order.
pub proof fn lemma_sort_stable(s: Seq<usize>, key: spec_fn(usize) -> int)
    requires
        s.no_duplicates(),
    ensures
        stable_by(s, sort_by_key(s, key), key),
    decreases s.len(),
{
    if s.len() > 0 {
        let front = s.drop_last();
        let x = s.last();
        let last = s.len() - 1;
        lemma_sort_stable(front, key);
        lemma_sort_sorted(front, key);
        lemma_sort_permutes(front, key);
        let sorted = sort_by_key(front, key);
        let at = lemma_insert_by_key(sorted, x, key);
        let r = sort_by_key(s, key);
        assert(r == sorted.insert(at, x));
        assert forall|i: int, j: int, p: int, q: int|
            0 <= i < j < r.len() && 0 <= p < s.len() && 0 <= q < s.len() && s[p] == r[i] && s[q]
                == r[j] && key(r[i]) == key(r[j]) implies p < q by {
            let ii = if i < at { i } else { i - 1 };
            let jj = if j < at { j } else { j - 1 };
            if i == at {
                assert(r[j] == sorted[jj]);
                assert(key(sorted[jj]) > key(x));
            } else if j == at {
                assert(r[i] == sorted[ii]);
                assert(sorted.contains(sorted[ii]));
                assert(front.contains(r[i]));
                let k = choose|k: int| 0 <= k < front.len() && front[k] == r[i];
                assert(s[k] == r[i]);
                assert(q == last);
                assert(p != last);
            } else {
                assert(r[i] == sorted[ii]);
                assert(r[j] == sorted[jj]);
                assert(sorted.contains(sorted[ii]));
                assert(sorted.contains(sorted[jj]));
                assert(front.contains(r[i]));
                assert(front.contains(r[j]));
                let k1 = choose|k: int| 0 <= k < front.len() && front[k] == r[i];
                let k2 = choose|k: int| 0 <= k < front.len() && front[k] == r[j];
                assert(s[k1] == r[i] && s[k2] == r[j]);
                assert(p == k1 && q == k2);
                assert(front[p] == sorted[ii] && front[q] == sorted[jj]);
            }
        }
    }
}

} // verus!
