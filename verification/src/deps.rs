//! The dependency-set builder: which names does at least one installed
//! formula need?

use vstd::prelude::*;
use crate::name_set;
use crate::names::contains_name;
use crate::names::lemma_name_set_concat;
use crate::names::lemma_name_set_empty;
use crate::names::push_all;

verus! {

/// One installed version of a formula; only the runtime dependencies that
/// were actually linked at install time matter here.
pub struct InstalledVersion {
    pub runtime_dependencies: Vec<String>,
}

/// The metadata of one installed formula, reduced to the fields the orphan
/// computation consumes.
pub struct Formula {
    /// Canonical name.
    pub full_name: String,
    /// Declared runtime dependency names.
    pub dependencies: Vec<String>,
    /// Prior names (aliases) of this formula.
    pub oldnames: Vec<String>,
    /// Build-only dependency names.
    pub build_dependencies: Vec<String>,
    /// Whether a precompiled binary exists; a bottled formula retains no
    /// build-time need.
    pub bottle: bool,
    /// Per-installed-version records.
    pub installed: Vec<InstalledVersion>,
}

/// Names linked as a runtime dependency by some installed version.
pub open spec fn installed_dep_set(vers: Seq<InstalledVersion>) -> Set<Seq<char>> {
    Set::new(
        |n: Seq<char>|
            exists|i: int|
                0 <= i < vers.len() && name_set(vers[i].runtime_dependencies@).contains(n),
    )
}

/// Every name one formula contributes to the dependency set: its declared
/// dependencies, the runtime dependencies of each installed version, and,
/// when no bottle exists, its build dependencies.
pub open spec fn formula_deps(f: Formula) -> Set<Seq<char>> {
    name_set(f.dependencies@).union(installed_dep_set(f.installed@)).union(
        if f.bottle {
            Set::<Seq<char>>::empty()
        } else {
            name_set(f.build_dependencies@)
        },
    )
}

/// The dependency set before alias resolution: everything some formula of
/// the list contributes.
pub open spec fn base_dep_set(formulas: Seq<Formula>) -> Set<Seq<char>> {
    Set::new(
        |n: Seq<char>| exists|i: int| 0 <= i < formulas.len() && formula_deps(formulas[i]).contains(n),
    )
}

/// The aliases recognized as used: a prior name of a formula whose canonical
/// name is in `base`.
pub open spec fn alias_set(formulas: Seq<Formula>, base: Set<Seq<char>>) -> Set<Seq<char>> {
    Set::new(
        |n: Seq<char>|
            exists|i: int|
                0 <= i < formulas.len() && name_set(formulas[i].oldnames@).contains(n)
                    && base.contains(formulas[i].full_name@),
    )
}

/// The full dependency set: contributed names, closed under aliasing.
pub open spec fn dep_set(formulas: Seq<Formula>) -> Set<Seq<char>> {
    base_dep_set(formulas).union(alias_set(formulas, base_dep_set(formulas)))
}

proof fn lemma_base_dep_set_extend(formulas: Seq<Formula>, i: int)
    requires
        0 <= i < formulas.len(),
    ensures
        base_dep_set(formulas.take(i + 1)) == base_dep_set(formulas.take(i)).union(
            formula_deps(formulas[i]),
        ),
{
    let pre = formulas.take(i);
    let post = formulas.take(i + 1);
    assert forall|n: Seq<char>| base_dep_set(post).contains(n) implies base_dep_set(pre).union(
        formula_deps(formulas[i]),
    ).contains(n) by {
        let j = choose|j: int| 0 <= j < post.len() && formula_deps(post[j]).contains(n);
        if j < i {
            assert(formula_deps(pre[j]).contains(n));
        } else {
            assert(post[j] == formulas[i]);
        }
    }
    assert forall|n: Seq<char>|
        base_dep_set(pre).union(formula_deps(formulas[i])).contains(n) implies base_dep_set(
        post,
    ).contains(n) by {
        if base_dep_set(pre).contains(n) {
            let j = choose|j: int| 0 <= j < pre.len() && formula_deps(pre[j]).contains(n);
            assert(formula_deps(post[j]).contains(n));
        } else {
            assert(formula_deps(post[i]).contains(n));
        }
    }
    assert(base_dep_set(post) =~= base_dep_set(pre).union(formula_deps(formulas[i])));
}

proof fn lemma_installed_dep_set_extend(vers: Seq<InstalledVersion>, i: int)
    requires
        0 <= i < vers.len(),
    ensures
        installed_dep_set(vers.take(i + 1)) == installed_dep_set(vers.take(i)).union(
            name_set(vers[i].runtime_dependencies@),
        ),
{
    let pre = vers.take(i);
    let post = vers.take(i + 1);
    assert forall|n: Seq<char>| installed_dep_set(post).contains(n) implies installed_dep_set(
        pre,
    ).union(name_set(vers[i].runtime_dependencies@)).contains(n) by {
        let j = choose|j: int|
            0 <= j < post.len() && name_set(post[j].runtime_dependencies@).contains(n);
        if j < i {
            assert(name_set(pre[j].runtime_dependencies@).contains(n));
        } else {
            assert(post[j] == vers[i]);
        }
    }
    assert forall|n: Seq<char>|
        installed_dep_set(pre).union(name_set(vers[i].runtime_dependencies@)).contains(
        n,
    ) implies installed_dep_set(post).contains(n) by {
        if installed_dep_set(pre).contains(n) {
            let j = choose|j: int|
                0 <= j < pre.len() && name_set(pre[j].runtime_dependencies@).contains(n);
            assert(name_set(post[j].runtime_dependencies@).contains(n));
        } else {
            assert(name_set(post[i].runtime_dependencies@).contains(n));
        }
    }
    assert(installed_dep_set(post) =~= installed_dep_set(pre).union(
        name_set(vers[i].runtime_dependencies@),
    ));
}

proof fn lemma_alias_set_extend(formulas: Seq<Formula>, base: Set<Seq<char>>, i: int)
    requires
        0 <= i < formulas.len(),
    ensures
        alias_set(formulas.take(i + 1), base) == alias_set(formulas.take(i), base).union(
            if base.contains(formulas[i].full_name@) {
                name_set(formulas[i].oldnames@)
            } else {
                Set::<Seq<char>>::empty()
            },
        ),
{
    let pre = formulas.take(i);
    let post = formulas.take(i + 1);
    let step = if base.contains(formulas[i].full_name@) {
        name_set(formulas[i].oldnames@)
    } else {
        Set::<Seq<char>>::empty()
    };
    assert forall|n: Seq<char>| alias_set(post, base).contains(n) implies alias_set(
        pre,
        base,
    ).union(step).contains(n) by {
        let j = choose|j: int|
            0 <= j < post.len() && name_set(post[j].oldnames@).contains(n) && base.contains(
                post[j].full_name@,
            );
        if j < i {
            assert(name_set(pre[j].oldnames@).contains(n) && base.contains(pre[j].full_name@));
        } else {
            assert(post[j] == formulas[i]);
        }
    }
    assert forall|n: Seq<char>| alias_set(pre, base).union(step).contains(n) implies alias_set(
        post,
        base,
    ).contains(n) by {
        if alias_set(pre, base).contains(n) {
            let j = choose|j: int|
                0 <= j < pre.len() && name_set(pre[j].oldnames@).contains(n) && base.contains(
                    pre[j].full_name@,
                );
            assert(name_set(post[j].oldnames@).contains(n) && base.contains(post[j].full_name@));
        } else {
            assert(name_set(post[i].oldnames@).contains(n) && base.contains(post[i].full_name@));
        }
    }
    assert(alias_set(post, base) =~= alias_set(pre, base).union(step));
}

/// Collects the names this formula contributes into `dst`.
fn push_formula_deps(dst: &mut Vec<String>, f: &Formula)
    ensures
        name_set(final(dst)@) == name_set(old(dst)@).union(formula_deps(*f)),
{
    let ghost start = dst@;
    push_all(dst, &f.dependencies);
    proof {
        lemma_name_set_concat(start, f.dependencies@);
    }
    let mut k: usize = 0;
    while k < f.installed.len()
        invariant
            0 <= k <= f.installed@.len(),
            name_set(dst@) == name_set(start).union(name_set(f.dependencies@)).union(
                installed_dep_set(f.installed@.take(k as int)),
            ),
        decreases f.installed@.len() - k,
    {
        let ghost before = dst@;
        push_all(dst, &f.installed[k].runtime_dependencies);
        proof {
            lemma_name_set_concat(before, f.installed@[k as int].runtime_dependencies@);
            lemma_installed_dep_set_extend(f.installed@, k as int);
            assert(name_set(dst@) =~= name_set(start).union(name_set(f.dependencies@)).union(
                installed_dep_set(f.installed@.take(k + 1)),
            ));
        }
        k += 1;
    }
    proof {
        assert(f.installed@.take(f.installed@.len() as int) =~= f.installed@);
    }
    if !f.bottle {
        let ghost before = dst@;
        push_all(dst, &f.build_dependencies);
        proof {
            lemma_name_set_concat(before, f.build_dependencies@);
        }
    }
    proof {
        assert(name_set(dst@) =~= name_set(old(dst)@).union(formula_deps(*f)));
    }
}

/// Builds the full dependency set over the given formulas: every declared
/// dependency, every installed-linked runtime dependency, the build
/// dependencies of unbottled formulas, and every prior name whose canonical
/// name is already in the set. Only membership in the result is meaningful.
pub fn build_dep_set(formulas: &Vec<Formula>) -> (ret: Vec<String>)
    ensures
        name_set(ret@) == dep_set(formulas@),
{
    let mut base: Vec<String> = Vec::new();
    let mut i: usize = 0;
    proof {
        assert(formulas@.take(0) =~= Seq::<Formula>::empty());
        lemma_name_set_empty(base@);
        assert(base_dep_set(formulas@.take(0)) =~= Set::<Seq<char>>::empty());
    }
    while i < formulas.len()
        invariant
            0 <= i <= formulas@.len(),
            name_set(base@) == base_dep_set(formulas@.take(i as int)),
        decreases formulas@.len() - i,
    {
        push_formula_deps(&mut base, &formulas[i]);
        proof {
            lemma_base_dep_set_extend(formulas@, i as int);
        }
        i += 1;
    }
    proof {
        assert(formulas@.take(formulas@.len() as int) =~= formulas@);
    }
    let mut ret: Vec<String> = Vec::new();
    push_all(&mut ret, &base);
    proof {
        assert(Seq::<String>::empty() + base@ =~= base@);
        assert(formulas@.take(0) =~= Seq::<Formula>::empty());
        assert(alias_set(formulas@.take(0), name_set(base@)) =~= Set::<Seq<char>>::empty());
        assert(name_set(ret@) =~= name_set(base@).union(
            alias_set(formulas@.take(0), name_set(base@)),
        ));
    }
    let mut i2: usize = 0;
    while i2 < formulas.len()
        invariant
            0 <= i2 <= formulas@.len(),
            name_set(base@) == base_dep_set(formulas@),
            name_set(ret@) == name_set(base@).union(
                alias_set(formulas@.take(i2 as int), name_set(base@)),
            ),
        decreases formulas@.len() - i2,
    {
        if contains_name(&base, &formulas[i2].full_name) {
            let ghost before = ret@;
            push_all(&mut ret, &formulas[i2].oldnames);
            proof {
                lemma_name_set_concat(before, formulas@[i2 as int].oldnames@);
            }
        }
        proof {
            lemma_alias_set_extend(formulas@, name_set(base@), i2 as int);
            assert(name_set(ret@) =~= name_set(base@).union(
                alias_set(formulas@.take(i2 + 1), name_set(base@)),
            ));
        }
        i2 += 1;
    }
    proof {
        assert(formulas@.take(formulas@.len() as int) =~= formulas@);
    }
    ret
}

/// Alias closure: a prior name of a formula is recognized as used whenever
/// the canonical name is required by some installed formula. The converse
/// direction is not claimed: a canonical name referenced only through a
/// prior name does not by itself make the canonical spelling used.
pub proof fn lemma_alias_closure(formulas: Seq<Formula>, fi: int, oi: int)
    requires
        0 <= fi < formulas.len(),
        0 <= oi < formulas[fi].oldnames@.len(),
        base_dep_set(formulas).contains(formulas[fi].full_name@),
    ensures
        dep_set(formulas).contains(formulas[fi].oldnames@[oi]@),
{
    assert(name_set(formulas[fi].oldnames@).contains(formulas[fi].oldnames@[oi]@));
}

/// Bottle policy: a bottled formula contributes only its declared and
/// installed-linked runtime dependencies; an unbottled one additionally
/// contributes its build dependencies.
pub proof fn lemma_bottle_policy(f: Formula)
    ensures
        f.bottle ==> formula_deps(f) == name_set(f.dependencies@).union(
            installed_dep_set(f.installed@),
        ),
        !f.bottle ==> formula_deps(f) == name_set(f.dependencies@).union(
            installed_dep_set(f.installed@),
        ).union(name_set(f.build_dependencies@)),
{
    if f.bottle {
        assert(formula_deps(f) =~= name_set(f.dependencies@).union(
            installed_dep_set(f.installed@),
        ));
    }
}

} // verus!
