//! Facts about sequences of container ids without repetitions.

use vstd::prelude::*;

verus! {

/// `s` with the element `x` taken out, where it occurs.
pub open spec fn without(s: Seq<usize>, x: usize) -> Seq<usize> {
    if s.contains(x) {
        s.remove(s.index_of(x))
    } else {
        s
    }
}

/// In a sequence without repetitions an element has one position only.
pub proof fn lemma_index_of_unique(s: Seq<usize>, x: usize, k: int)
    requires
        s.no_duplicates(),
        0 <= k < s.len(),
        s[k] == x,
    ensures
        s.index_of(x) == k,
        s.contains(x),
        without(s, x) == s.remove(k),
{
    let i = s.index_of(x);
    assert(0 <= i < s.len() && s[i] == x);
}

/// Taking a position out of a sequence without repetitions removes exactly
/// the element that stood there.
pub proof fn lemma_remove_no_dup(s: Seq<usize>, k: int)
    requires
        s.no_duplicates(),
        0 <= k < s.len(),
    ensures
        s.remove(k).no_duplicates(),
        s.remove(k).len() == s.len() - 1,
        !s.remove(k).contains(s[k]),
        forall|y: usize| y != s[k] ==> (s.remove(k).contains(y) <==> s.contains(y)),
        forall|y: usize| s.remove(k).contains(y) ==> s.contains(y),
{
    let r = s.remove(k);
    assert forall|i: int, j: int| 0 <= i < r.len() && 0 <= j < r.len() && i != j implies r[i]
        != r[j] by {
        let ii = if i < k { i } else { i + 1 };
        let jj = if j < k { j } else { j + 1 };
        assert(r[i] == s[ii]);
        assert(r[j] == s[jj]);
    }
    assert forall|y: usize| r.contains(y) implies s.contains(y) && y != s[k] by {
        let i = choose|i: int| 0 <= i < r.len() && r[i] == y;
        let ii = if i < k { i } else { i + 1 };
        assert(r[i] == s[ii]);
    }
    assert forall|y: usize| y != s[k] && s.contains(y) implies r.contains(y) by {
        let i = choose|i: int| 0 <= i < s.len() && s[i] == y;
        let ii = if i < k { i } else { i - 1 };
        assert(r[ii] == s[i]);
    }
}

/// What `without` leaves of a sequence without repetitions.
pub proof fn lemma_without(s: Seq<usize>, x: usize)
    requires
        s.no_duplicates(),
    ensures
        without(s, x).no_duplicates(),
        !without(s, x).contains(x),
        forall|y: usize| y != x ==> (without(s, x).contains(y) <==> s.contains(y)),
        forall|y: usize| without(s, x).contains(y) ==> s.contains(y),
        s.contains(x) ==> without(s, x).len() == s.len() - 1,
        !s.contains(x) ==> without(s, x) == s,
{
    if s.contains(x) {
        let k = s.index_of(x);
        lemma_remove_no_dup(s, k);
    }
}

/// Inserting a new element into a sequence without repetitions.
pub proof fn lemma_insert_no_dup(s: Seq<usize>, i: int, x: usize)
    requires
        s.no_duplicates(),
        !s.contains(x),
        0 <= i <= s.len(),
    ensures
        s.insert(i, x).no_duplicates(),
        s.insert(i, x).len() == s.len() + 1,
        s.insert(i, x)[i] == x,
        s.insert(i, x).contains(x),
        forall|y: usize| s.insert(i, x).contains(y) <==> (s.contains(y) || y == x),
{
    let r = s.insert(i, x);
    assert(r[i] == x);
    assert forall|a: int, b: int| 0 <= a < r.len() && 0 <= b < r.len() && a != b implies r[a]
        != r[b] by {
        let aa = if a < i { a } else { a - 1 };
        let bb = if b < i { b } else { b - 1 };
        if a != i {
            assert(r[a] == s[aa]);
        }
        if b != i {
            assert(r[b] == s[bb]);
        }
    }
    assert forall|y: usize| r.contains(y) implies s.contains(y) || y == x by {
        let a = choose|a: int| 0 <= a < r.len() && r[a] == y;
        let aa = if a < i { a } else { a - 1 };
        if a != i {
            assert(r[a] == s[aa]);
        }
    }
    assert forall|y: usize| s.contains(y) implies r.contains(y) by {
        let a = choose|a: int| 0 <= a < s.len() && s[a] == y;
        let aa = if a < i { a } else { a + 1 };
        assert(r[aa] == s[a]);
    }
}

/// What is inserted is there afterwards.
pub proof fn lemma_insert_contains(s: Seq<usize>, i: int, x: usize)
    requires
        0 <= i <= s.len(),
    ensures
        s.insert(i, x).contains(x),
        s.insert(i, x)[i] == x,
        s.insert(i, x).len() == s.len() + 1,
{
    assert(s.insert(i, x)[i] == x);
}

/// Appending is inserting at the end.
pub proof fn lemma_insert_at_end(s: Seq<usize>, x: usize)
    ensures
        s.insert(s.len() as int, x) == s.push(x),
{
    assert(s.insert(s.len() as int, x) =~= s.push(x));
}

} // verus!
