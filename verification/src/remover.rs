//! The whole cascade run against an in-memory picture of the manager state.
//!
//! Here a removal deletes one formula record from the picture, so verifying
//! this function proves that the cascade terminates: every drain of the work
//! stack removes at least one installed formula, the loop's measure is the
//! number of formulas still installed, and a rescan that uncovers nothing new
//! ends the run. The step-wise [`crate::cascade::Cascade`] drives the same
//! decisions when the removals are real.

use vstd::prelude::*;
use crate::name_set;
use crate::cascade::Cascade;
use crate::cascade::new_orphans;
use crate::cascade::start_cascade;
use crate::deps::Formula;
use crate::deps::build_dep_set;
use crate::deps::dep_set;
use crate::orphans::get_non_dep_formulas;
use crate::orphans::lemma_orphans_difference;
use crate::orphans::orphans_spec;

verus! {

/// The installed list of a world of formula records.
pub open spec fn installed_names(world: Seq<Formula>) -> Seq<String> {
    world.map_values(|f: Formula| f.full_name)
}

/// No two entries spell the same name.
pub open spec fn distinct_names(names: Seq<String>) -> bool {
    forall|i: int, j: int| 0 <= i < j < names.len() ==> names[i]@ != names[j]@
}

fn installed_list(world: &Vec<Formula>) -> (ret: Vec<String>)
    ensures
        ret@ == installed_names(world@),
{
    let mut ret: Vec<String> = Vec::new();
    let mut i: usize = 0;
    proof {
        assert(ret@ =~= installed_names(world@.take(0)));
    }
    while i < world.len()
        invariant
            0 <= i <= world@.len(),
            ret@ == installed_names(world@.take(i as int)),
        decreases world@.len() - i,
    {
        ret.push(world[i].full_name.clone());
        proof {
            assert(ret@ =~= installed_names(world@.take(i + 1)));
        }
        i += 1;
    }
    proof {
        assert(world@.take(world@.len() as int) =~= world@);
    }
    ret
}

/// Removes the first formula spelled `name` from the world, reporting whether
/// one was found.
fn remove_formula(world: &mut Vec<Formula>, name: &String) -> (removed: bool)
    ensures
        removed <==> name_set(installed_names(old(world)@)).contains(name@),
        removed ==> exists|k: int|
            0 <= k < old(world)@.len() && (#[trigger] old(world)@[k]).full_name@ == name@
                && final(world)@ == old(world)@.remove(k),
        !removed ==> final(world)@ == old(world)@,
{
    let mut i: usize = 0;
    while i < world.len()
        invariant
            0 <= i <= world@.len(),
            world@ == old(world)@,
            forall|k: int| 0 <= k < i ==> (#[trigger] world@[k]).full_name@ != name@,
        decreases world@.len() - i,
    {
        if world[i].full_name.eq(name) {
            world.remove(i);
            proof {
                assert(installed_names(old(world)@)[i as int]@ == name@);
                assert(name_set(installed_names(old(world)@)).contains(name@));
            }
            return true;
        }
        i += 1;
    }
    proof {
        if name_set(installed_names(world@)).contains(name@) {
            let j = choose|j: int|
                0 <= j < installed_names(world@).len() && installed_names(world@)[j]@ == name@;
            assert(world@[j].full_name@ == name@);
        }
    }
    false
}

proof fn lemma_names_remove(names: Seq<String>, k: int)
    requires
        0 <= k < names.len(),
        distinct_names(names),
    ensures
        distinct_names(names.remove(k)),
        !name_set(names.remove(k)).contains(names[k]@),
        forall|n: Seq<char>| #[trigger]
            name_set(names.remove(k)).contains(n) ==> name_set(names).contains(n),
        forall|n: Seq<char>|
            name_set(names).contains(n) && n != names[k]@ ==> name_set(names.remove(k)).contains(
                n,
            ),
{
    let out = names.remove(k);
    names.remove_ensures(k);
    assert forall|i: int, j: int| 0 <= i < j < out.len() implies out[i]@ != out[j]@ by {
        let i0 = if i < k { i } else { i + 1 };
        let j0 = if j < k { j } else { j + 1 };
        assert(out[i] == names[i0]);
        assert(out[j] == names[j0]);
    }
    assert forall|n: Seq<char>| #[trigger] name_set(out).contains(n) implies name_set(
        names,
    ).contains(n) by {
        let i = choose|i: int| 0 <= i < out.len() && out[i]@ == n;
        let i0 = if i < k { i } else { i + 1 };
        assert(names[i0]@ == n);
    }
    if name_set(out).contains(names[k]@) {
        let i = choose|i: int| 0 <= i < out.len() && out[i]@ == names[k]@;
        let i0 = if i < k { i } else { i + 1 };
        assert(names[i0]@ == names[k]@);
        assert(i0 != k);
        assert(false);
    }
    assert forall|n: Seq<char>|
        name_set(names).contains(n) && n != names[k]@ implies name_set(out).contains(n) by {
        let j = choose|j: int| 0 <= j < names.len() && names[j]@ == n;
        assert(j != k);
        if j < k {
            assert(out[j]@ == n);
        } else {
            assert(out[j - 1]@ == n);
        }
    }
}

proof fn lemma_installed_names_remove(world: Seq<Formula>, k: int)
    requires
        0 <= k < world.len(),
    ensures
        installed_names(world.remove(k)) == installed_names(world).remove(k),
{
    assert(installed_names(world.remove(k)) =~= installed_names(world).remove(k));
}

proof fn lemma_filter_distinct(names: Seq<String>, pred: spec_fn(String) -> bool)
    requires
        distinct_names(names),
    ensures
        distinct_names(names.filter(pred)),
    decreases names.len(),
{
    reveal(Seq::filter);
    if names.len() > 0 {
        let rest = names.drop_last();
        assert(distinct_names(rest));
        lemma_filter_distinct(rest, pred);
        let rf = rest.filter(pred);
        let out = names.filter(pred);
        if pred(names.last()) {
            assert(out == rf.push(names.last()));
            assert forall|i: int| 0 <= i < rf.len() implies rf[i]@ != names.last()@ by {
                assert(rf.contains(rf[i]));
                rest.lemma_filter_contains_rev(pred, rf[i]);
                let j = choose|j: int| 0 <= j < rest.len() && rest[j] == rf[i];
                assert(names[j] == rf[i]);
                assert(names[j]@ != names[names.len() - 1]@);
            }
            assert forall|i: int, j: int| 0 <= i < j < out.len() implies out[i]@ != out[j]@ by {
                if j < out.len() - 1 {
                    assert(out[i] == rf[i] && out[j] == rf[j]);
                } else {
                    assert(out[i] == rf[i] && out[j] == names.last());
                }
            }
        } else {
            assert(out == rf);
        }
    }
}

/// The orphan list of a duplicate-free installed list is duplicate-free.
proof fn lemma_orphans_distinct(installed: Seq<String>, deps: Set<Seq<char>>)
    requires
        distinct_names(installed),
    ensures
        distinct_names(orphans_spec(installed, deps)),
{
    lemma_filter_distinct(installed, |s: String| !deps.contains(s@));
}

proof fn lemma_new_orphans_distinct(current: Seq<String>, baseline: Seq<String>)
    requires
        distinct_names(current),
    ensures
        distinct_names(new_orphans(current, baseline)),
{
    lemma_filter_distinct(current, |s: String| !name_set(baseline).contains(s@));
}

/// Runs the whole cascade against the in-memory world: captures the baseline
/// orphan list, refuses a target that is not itself an orphan, and otherwise
/// removes the target and, round by round, every formula the removals leave
/// orphaned, until a rescan finds nothing new. Returns the removed names, or
/// `None` when the target was a dependency of some other installed formula
/// (the world is then untouched). Every round removes at least one formula,
/// so the run performs at most as many rounds as there are installed
/// formulas.
pub fn run_cascade(world: &mut Vec<Formula>, target: &String) -> (removed: Option<Vec<String>>)
    requires
        distinct_names(installed_names(old(world)@)),
    ensures
        removed is Some <==> name_set(
            orphans_spec(installed_names(old(world)@), dep_set(old(world)@)),
        ).contains(target@),
        removed is None ==> final(world)@ == old(world)@,
        removed is Some ==> final(world)@.len() + removed->Some_0@.len() == old(world)@.len(),
        removed is Some ==> removed->Some_0@.len() >= 1 && removed->Some_0@[0]@ == target@,
        removed is Some ==> forall|k: int|
            0 <= k < removed->Some_0@.len() ==> name_set(installed_names(old(world)@)).contains(
                #[trigger] removed->Some_0@[k]@,
            ),
{
    let installed = installed_list(world);
    let deps_list = build_dep_set(world);
    let baseline = get_non_dep_formulas(&installed, &deps_list);
    let start = start_cascade(target.clone(), &baseline);
    match start {
        None => None,
        Some(mut c) => {
            let mut removed_names: Vec<String> = Vec::new();
            proof {
                lemma_orphans_difference(installed@, name_set(deps_list@));
                lemma_orphans_distinct(installed@, name_set(deps_list@));
                assert(name_set(installed_names(world@)).contains(c.targets@[0]@)) by {
                    let t0 = c.targets@[0];
                    assert(name_set(baseline@).contains(t0@));
                    let j = choose|j: int| 0 <= j < baseline@.len() && baseline@[j]@ == t0@;
                    assert(installed@.contains(baseline@[j]));
                    let m = choose|m: int| 0 <= m < installed@.len() && installed@[m] == baseline@[j];
                    assert(installed_names(world@)[m]@ == t0@);
                }
            }
            loop
                invariant_except_break
                    c.targets@.len() > 0,
                invariant
                    distinct_names(installed_names(world@)),
                    distinct_names(c.targets@),
                    forall|k: int|
                        0 <= k < c.targets@.len() ==> name_set(installed_names(world@)).contains(
                            #[trigger] c.targets@[k]@,
                        ),
                    world@.len() + removed_names@.len() == old(world)@.len(),
                    removed_names@.len() + c.targets@.len() >= 1,
                    removed_names@.len() == 0 ==> c.targets@.len() == 1 && c.targets@[0]@
                        == target@,
                    removed_names@.len() > 0 ==> removed_names@[0]@ == target@,
                    forall|k: int|
                        0 <= k < removed_names@.len() ==> name_set(
                            installed_names(old(world)@),
                        ).contains(#[trigger] removed_names@[k]@),
                    forall|n: Seq<char>| #[trigger]
                        name_set(installed_names(world@)).contains(n) ==> name_set(
                            installed_names(old(world)@),
                        ).contains(n),
                ensures
                    removed_names@.len() >= 1,
                    removed_names@[0]@ == target@,
                    world@.len() + removed_names@.len() == old(world)@.len(),
                    forall|k: int|
                        0 <= k < removed_names@.len() ==> name_set(
                            installed_names(old(world)@),
                        ).contains(#[trigger] removed_names@[k]@),
                decreases world@.len(),
            {
                let ghost w0 = world@.len();
                let ghost t0 = c.targets@.len();
                while c.has_targets()
                    invariant
                        distinct_names(installed_names(world@)),
                        distinct_names(c.targets@),
                        forall|k: int|
                            0 <= k < c.targets@.len() ==> name_set(
                                installed_names(world@),
                            ).contains(#[trigger] c.targets@[k]@),
                        world@.len() + removed_names@.len() == old(world)@.len(),
                        world@.len() == w0 - (t0 - c.targets@.len()),
                        c.targets@.len() <= t0,
                        removed_names@.len() == 0 ==> c.targets@.len() == 1 && c.targets@[0]@
                            == target@,
                        removed_names@.len() > 0 ==> removed_names@[0]@ == target@,
                        forall|k: int|
                            0 <= k < removed_names@.len() ==> name_set(
                                installed_names(old(world)@),
                            ).contains(#[trigger] removed_names@[k]@),
                        forall|n: Seq<char>| #[trigger]
                            name_set(installed_names(world@)).contains(n) ==> name_set(
                                installed_names(old(world)@),
                            ).contains(n),
                    decreases c.targets@.len(),
                {
                    let ghost world_before = world@;
                    let ghost names_before = installed_names(world@);
                    let ghost targets_before = c.targets@;
                    let t = c.next_target().unwrap();
                    proof {
                        assert(name_set(names_before).contains(t@));
                    }
                    let was_removed = remove_formula(world, &t);
                    proof {
                        assert(was_removed);
                        let k = choose|k: int|
                            0 <= k < world_before.len() && (#[trigger] world_before[k]).full_name@
                                == t@ && world@ == world_before.remove(k);
                        lemma_installed_names_remove(world_before, k);
                        assert(names_before[k]@ == t@);
                        lemma_names_remove(names_before, k);
                        assert(installed_names(world@) == names_before.remove(k));
                        assert forall|j: int| 0 <= j < c.targets@.len() implies name_set(
                            installed_names(world@),
                        ).contains(#[trigger] c.targets@[j]@) by {
                            assert(c.targets@[j] == targets_before[j]);
                            assert(targets_before[j]@ != targets_before[targets_before.len() - 1]@);
                            assert(name_set(names_before).contains(targets_before[j]@));
                        }
                        assert forall|n: Seq<char>| #[trigger]
                            name_set(installed_names(world@)).contains(n) implies name_set(
                            installed_names(old(world)@),
                        ).contains(n) by {
                            assert(name_set(names_before).contains(n));
                        }
                    }
                    removed_names.push(t);
                }
                let current_installed = installed_list(world);
                let deps2 = build_dep_set(world);
                let cur = get_non_dep_formulas(&current_installed, &deps2);
                let found = c.rescan(&cur);
                proof {
                    assert(c.targets@ =~= new_orphans(cur@, c.baseline@));
                    lemma_orphans_difference(current_installed@, name_set(deps2@));
                    lemma_orphans_distinct(current_installed@, name_set(deps2@));
                    lemma_new_orphans_distinct(cur@, c.baseline@);
                    crate::cascade::lemma_new_orphans_sound(cur@, c.baseline@);
                    assert forall|k: int| 0 <= k < c.targets@.len() implies name_set(
                        installed_names(world@),
                    ).contains(#[trigger] c.targets@[k]@) by {
                        assert(cur@.contains(c.targets@[k]));
                        let j = choose|j: int| 0 <= j < cur@.len() && cur@[j] == c.targets@[k];
                        assert(current_installed@.contains(cur@[j]));
                        let m = choose|m: int|
                            0 <= m < current_installed@.len() && current_installed@[m] == cur@[j];
                        assert(installed_names(world@)[m]@ == c.targets@[k]@);
                    }
                }
                if !found {
                    break;
                }
            }
            Some(removed_names)
        },
    }
}

} // verus!
