//! Lists of formula names, viewed as sets of spelled-out names.

use vstd::prelude::*;
use crate::name_set;

verus! {

/// Membership in a name list, decided by string comparison.
pub fn contains_name(names: &Vec<String>, target: &String) -> (r: bool)
    ensures
        r == name_set(names@).contains(target@),
{
    let mut j: usize = 0;
    while j < names.len()
        invariant
            0 <= j <= names@.len(),
            forall|k: int| 0 <= k < j ==> names@[k]@ != target@,
        decreases names@.len() - j,
    {
        if names[j].eq(target) {
            return true;
        }
        j += 1;
    }
    false
}

/// Appends every name of `src` to `dst`.
pub fn push_all(dst: &mut Vec<String>, src: &Vec<String>)
    ensures
        final(dst)@ == old(dst)@ + src@,
{
    let mut j: usize = 0;
    while j < src.len()
        invariant
            0 <= j <= src@.len(),
            dst@ == old(dst)@ + src@.take(j as int),
        decreases src@.len() - j,
    {
        dst.push(src[j].clone());
        assert(old(dst)@ + src@.take(j + 1) =~= (old(dst)@ + src@.take(j as int)).push(src@[j as int]));
        j += 1;
    }
    assert(src@.take(src@.len() as int) =~= src@);
}

/// Concatenating two name lists unions their name sets.
pub proof fn lemma_name_set_concat(a: Seq<String>, b: Seq<String>)
    ensures
        name_set(a + b) == name_set(a).union(name_set(b)),
{
    assert forall|n: Seq<char>| name_set(a + b).contains(n) implies name_set(a).union(
        name_set(b),
    ).contains(n) by {
        let i = choose|i: int| 0 <= i < (a + b).len() && (a + b)[i]@ == n;
        if i < a.len() {
            assert(a[i]@ == n);
        } else {
            assert(b[i - a.len()]@ == n);
        }
    }
    assert forall|n: Seq<char>| name_set(a).union(name_set(b)).contains(n) implies name_set(
        a + b,
    ).contains(n) by {
        if name_set(a).contains(n) {
            let i = choose|i: int| 0 <= i < a.len() && a[i]@ == n;
            assert((a + b)[i]@ == n);
        } else {
            let i = choose|i: int| 0 <= i < b.len() && b[i]@ == n;
            assert((a + b)[a.len() + i]@ == n);
        }
    }
    assert(name_set(a + b) =~= name_set(a).union(name_set(b)));
}

/// The empty name list has the empty name set.
pub proof fn lemma_name_set_empty(a: Seq<String>)
    requires
        a.len() == 0,
    ensures
        name_set(a) == Set::<Seq<char>>::empty(),
{
    assert(name_set(a) =~= Set::<Seq<char>>::empty());
}

} // verus!
