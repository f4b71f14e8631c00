//! The iterative remover's decision logic: which formula to remove next, and
//! when the cascade has reached its fixed point.
//!
//! The caller performs the actual removals and re-reads the manager's state;
//! this module decides. A cascade starts from a baseline orphan list captured
//! before any removal. The target must itself be in that baseline. After each
//! drain of the work stack the caller hands back the freshly computed orphan
//! list; every name in it that is absent from the baseline is a newly
//! uncovered orphan and is pushed for removal. The cascade is done when a
//! rescan finds nothing new.

use vstd::prelude::*;
use crate::name_set;
use crate::names::contains_name;

verus! {

/// The names of `current` that are not in the baseline: orphans uncovered by
/// the removals performed since the baseline was captured.
pub open spec fn new_orphans(current: Seq<String>, baseline: Seq<String>) -> Seq<String> {
    current.filter(|s: String| !name_set(baseline).contains(s@))
}

/// An in-progress cascade removal: the baseline orphan list and the work
/// stack of formulas still to remove.
pub struct Cascade {
    /// The orphan list captured before any removal of this cascade.
    pub baseline: Vec<String>,
    /// Formulas awaiting removal, popped in reverse order of discovery.
    pub targets: Vec<String>,
}

/// Starts a cascade for `target` against the baseline orphan list. Returns
/// `None` exactly when the target is not itself an orphan — it is then a
/// dependency of some other installed formula and must not be removed.
pub fn start_cascade(target: String, baseline_orphans: &Vec<String>) -> (r: Option<Cascade>)
    ensures
        r is Some <==> name_set(baseline_orphans@).contains(target@),
        r is Some ==> {
            let c = r->Some_0;
            c.baseline@ == baseline_orphans@ && c.targets@.len() == 1 && c.targets@[0] == target
        },
{
    if contains_name(baseline_orphans, &target) {
        let mut baseline: Vec<String> = Vec::new();
        crate::names::push_all(&mut baseline, baseline_orphans);
        proof {
            assert(Seq::<String>::empty() + baseline_orphans@ =~= baseline_orphans@);
        }
        let mut targets: Vec<String> = Vec::new();
        targets.push(target);
        Some(Cascade { baseline, targets })
    } else {
        None
    }
}

impl Cascade {
    /// Pops the next formula to remove, or `None` when the stack is drained.
    pub fn next_target(&mut self) -> (r: Option<String>)
        ensures
            final(self).baseline@ == old(self).baseline@,
            old(self).targets@.len() == 0 ==> r is None
                && final(self).targets@ == old(self).targets@,
            old(self).targets@.len() > 0 ==> r == Some(old(self).targets@.last())
                && final(self).targets@ == old(self).targets@.drop_last(),
    {
        self.targets.pop()
    }

    /// Records the orphan list computed after a drain of the work stack:
    /// every name absent from the baseline is a newly uncovered orphan and is
    /// pushed. Returns whether anything new was found; if not, the cascade
    /// has reached its fixed point and is done.
    pub fn rescan(&mut self, current_orphans: &Vec<String>) -> (found_new: bool)
        ensures
            final(self).baseline@ == old(self).baseline@,
            final(self).targets@ == old(self).targets@ + new_orphans(
                current_orphans@,
                old(self).baseline@,
            ),
            found_new <==> new_orphans(current_orphans@, old(self).baseline@).len() > 0,
    {
        let ghost base = self.baseline@;
        let ghost pred = |s: String| !name_set(base).contains(s@);
        let ghost start = self.targets@;
        let mut found_new = false;
        let mut i: usize = 0;
        proof {
            reveal(Seq::filter);
            assert(current_orphans@.take(0) =~= Seq::<String>::empty());
            assert(start + current_orphans@.take(0).filter(pred) =~= start);
        }
        while i < current_orphans.len()
            invariant
                0 <= i <= current_orphans@.len(),
                self.baseline@ == base,
                pred == (|s: String| !name_set(base).contains(s@)),
                self.targets@ == start + current_orphans@.take(i as int).filter(pred),
                found_new <==> current_orphans@.take(i as int).filter(pred).len() > 0,
            decreases current_orphans@.len() - i,
        {
            if !contains_name(&self.baseline, &current_orphans[i]) {
                self.targets.push(current_orphans[i].clone());
                found_new = true;
            }
            proof {
                reveal(Seq::filter);
                let taken = current_orphans@.take(i + 1);
                assert(taken.drop_last() =~= current_orphans@.take(i as int));
                assert(taken.last() == current_orphans@[i as int]);
                assert(self.targets@ =~= start + taken.filter(pred));
            }
            i += 1;
        }
        proof {
            assert(current_orphans@.take(current_orphans@.len() as int) =~= current_orphans@);
        }
        found_new
    }

    /// Whether formulas still await removal.
    pub fn has_targets(&self) -> (r: bool)
        ensures
            r <==> self.targets@.len() > 0,
    {
        self.targets.len() > 0
    }
}

/// Every newly uncovered orphan comes from the current orphan list and is
/// absent from the baseline, and no more are uncovered than the current list
/// holds.
pub proof fn lemma_new_orphans_sound(current: Seq<String>, baseline: Seq<String>)
    ensures
        forall|i: int|
            0 <= i < new_orphans(current, baseline).len() ==> current.contains(
                #[trigger] new_orphans(current, baseline)[i],
            ) && !name_set(baseline).contains(new_orphans(current, baseline)[i]@),
        new_orphans(current, baseline).len() <= current.len(),
{
    let pred = |s: String| !name_set(baseline).contains(s@);
    current.lemma_filter_len(pred);
    let out = new_orphans(current, baseline);
    assert forall|i: int| 0 <= i < out.len() implies current.contains(#[trigger] out[i])
        && !name_set(baseline).contains(out[i]@) by {
        current.lemma_filter_pred(pred, i);
        assert(current.filter(pred).contains(out[i]));
        current.lemma_filter_contains_rev(pred, out[i]);
    }
}

} // verus!
