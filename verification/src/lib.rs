//! Orphan detection and cascade removal for package-manager formulas.
//!
//! An installed formula is an *orphan* when no other installed formula needs
//! it as a dependency. This crate computes the set of names required by at
//! least one installed formula (with alias resolution and the bottle policy
//! for build dependencies), subtracts it from the installed list to find
//! orphans, and drives the cascade that removes a target formula together
//! with dependencies that become orphaned by the removal.

pub mod cascade;
pub mod deps;
pub mod names;
pub mod orphans;
pub mod remover;

use vstd::prelude::*;

verus! {

/// A name is in the set exactly when some entry of the list spells it.
pub open spec fn name_set(names: Seq<String>) -> Set<Seq<char>> {
    Set::new(|n: Seq<char>| exists|i: int| 0 <= i < names.len() && names[i]@ == n)
}

} // verus!
