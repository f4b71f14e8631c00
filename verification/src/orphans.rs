//! The orphan detector: installed formulas that nothing else needs.

use vstd::prelude::*;
use crate::name_set;
use crate::names::contains_name;

verus! {

/// The orphan list: the installed list with every name of `deps` filtered
/// out, in the order of the installed list.
pub open spec fn orphans_spec(installed: Seq<String>, deps: Set<Seq<char>>) -> Seq<String> {
    installed.filter(|s: String| !deps.contains(s@))
}

/// Returns the installed formulas that are not used as a dependency, in the
/// order of the installed list.
pub fn get_non_dep_formulas(installed: &Vec<String>, used_as_deps: &Vec<String>) -> (ret: Vec<
    String,
>)
    ensures
        ret@ == orphans_spec(installed@, name_set(used_as_deps@)),
{
    let ghost deps = name_set(used_as_deps@);
    let ghost pred = |s: String| !deps.contains(s@);
    let mut ret: Vec<String> = Vec::new();
    let mut i: usize = 0;
    proof {
        reveal(Seq::filter);
        assert(installed@.take(0) =~= Seq::<String>::empty());
    }
    while i < installed.len()
        invariant
            0 <= i <= installed@.len(),
            deps == name_set(used_as_deps@),
            pred == (|s: String| !deps.contains(s@)),
            ret@ == installed@.take(i as int).filter(pred),
        decreases installed@.len() - i,
    {
        let ghost before = ret@;
        if !contains_name(used_as_deps, &installed[i]) {
            ret.push(installed[i].clone());
        }
        proof {
            reveal(Seq::filter);
            let taken = installed@.take(i + 1);
            assert(taken.drop_last() =~= installed@.take(i as int));
            assert(taken.last() == installed@[i as int]);
            if pred(installed@[i as int]) {
                assert(ret@ == before.push(installed@[i as int]));
            }
        }
        i += 1;
    }
    proof {
        assert(installed@.take(installed@.len() as int) =~= installed@);
    }
    ret
}

/// Set-difference law: the orphan list's name set is exactly the installed
/// name set minus the dependency set; the detector never returns a name
/// absent from the installed list and never omits an installed name that is
/// absent from the dependency set.
pub proof fn lemma_orphans_difference(installed: Seq<String>, deps: Set<Seq<char>>)
    ensures
        name_set(orphans_spec(installed, deps)) == name_set(installed).difference(deps),
        forall|i: int|
            0 <= i < orphans_spec(installed, deps).len() ==> installed.contains(
                orphans_spec(installed, deps)[i],
            ),
    decreases installed.len(),
{
    reveal(Seq::filter);
    let pred = |s: String| !deps.contains(s@);
    let out = orphans_spec(installed, deps);
    if installed.len() == 0 {
        assert(name_set(out) =~= name_set(installed).difference(deps));
    } else {
        let rest = installed.drop_last();
        lemma_orphans_difference(rest, deps);
        let rest_out = orphans_spec(rest, deps);
        assert forall|n: Seq<char>| name_set(out).contains(n) implies name_set(
            installed,
        ).difference(deps).contains(n) by {
            let i = choose|i: int| 0 <= i < out.len() && out[i]@ == n;
            if pred(installed.last()) && i == out.len() - 1 {
                assert(installed[installed.len() - 1]@ == n);
            } else {
                assert(rest_out[i]@ == n);
                let j = choose|j: int| 0 <= j < rest.len() && rest[j]@ == n;
                assert(installed[j]@ == n);
            }
        }
        assert forall|n: Seq<char>|
            name_set(installed).difference(deps).contains(n) implies name_set(out).contains(n) by {
            let i = choose|i: int| 0 <= i < installed.len() && installed[i]@ == n;
            if i == installed.len() - 1 {
                assert(pred(installed.last()));
                assert(out.last()@ == n);
            } else {
                assert(rest[i]@ == n);
                assert(name_set(rest_out).contains(n));
                let j = choose|j: int| 0 <= j < rest_out.len() && rest_out[j]@ == n;
                if pred(installed.last()) {
                    assert(out[j] == rest_out[j]);
                } else {
                    assert(out == rest_out);
                }
            }
        }
        assert(name_set(out) =~= name_set(installed).difference(deps));
        assert forall|i: int| 0 <= i < out.len() implies installed.contains(out[i]) by {
            if pred(installed.last()) && i == out.len() - 1 {
                assert(out[i] == installed[installed.len() - 1]);
            } else {
                assert(out[i] == rest_out[i]);
                assert(rest.contains(rest_out[i]));
                let j = choose|j: int| 0 <= j < rest.len() && rest[j] == rest_out[i];
                assert(installed[j] == out[i]);
            }
        }
    }
}

/// The orphan list never outgrows the installed list, so a cascade that
/// removes at least one installed formula per round performs at most as many
/// rounds as there are installed formulas.
pub proof fn lemma_orphans_bounded(installed: Seq<String>, deps: Set<Seq<char>>)
    ensures
        orphans_spec(installed, deps).len() <= installed.len(),
{
    let pred = |s: String| !deps.contains(s@);
    installed.lemma_filter_len(pred);
}

/// Listing is idempotent: two orphan computations against the same installed
/// list and the same dependency metadata return the same list.
pub proof fn lemma_list_idempotent(
    installed: Seq<String>,
    deps: Set<Seq<char>>,
    r1: Seq<String>,
    r2: Seq<String>,
)
    requires
        r1 == orphans_spec(installed, deps),
        r2 == orphans_spec(installed, deps),
    ensures
        r1 == r2,
{
}

} // verus!
