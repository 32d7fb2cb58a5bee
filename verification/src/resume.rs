//! Resume filtering: dropping the permutations whose result directories
//! already carry the completion marker, so a restarted sweep only runs
//! what is missing.
//!
//! The caller lists the completed identifiers it found on disk (a result
//! directory of that name holding the completion marker); which
//! permutations remain pending is decided here.

use vstd::prelude::*;
use vstd::string::*;
use crate::config::{Permutation, PermView};
use crate::generate::{perms_view, strings_view};

verus! {

/// The permutations still pending: those whose identifier is not among the
/// completed ones, kept in order.
pub open spec fn spec_pending(perms: Seq<PermView>, done: Seq<Seq<char>>) -> Seq<PermView>
    decreases perms.len(),
{
    if perms.len() == 0 {
        Seq::empty()
    } else {
        let rest = spec_pending(perms.drop_last(), done);
        if done.contains(perms.last().id) {
            rest
        } else {
            rest.push(perms.last())
        }
    }
}

/// Whether `id` is among the completed identifiers.
fn contains_id(done: &Vec<String>, id: &String) -> (r: bool)
    ensures
        r == strings_view(done@).contains(id@),
{
    let mut i: usize = 0;
    while i < done.len()
        invariant
            0 <= i <= done@.len(),
            forall|k: int| 0 <= k < i ==> strings_view(done@)[k] != id@,
        decreases done@.len() - i,
    {
        if done[i].eq(id) {
            proof {
                assert(strings_view(done@)[i as int] == id@);
            }
            return true;
        }
        i += 1;
    }
    proof {
        assert forall|k: int| 0 <= k < strings_view(done@).len() implies strings_view(done@)[k]
            != id@ by {}
    }
    false
}

/// Filters the generated permutations against the completed identifiers
/// found under the output root: what already carries the completion marker
/// is dropped, everything else stays pending, in generation order.
pub fn filter_completed(perms: &Vec<Permutation>, completed: &Vec<String>) -> (r: Vec<Permutation>)
    ensures
        perms_view(r@) == spec_pending(perms_view(perms@), strings_view(completed@)),
{
    let ghost done = strings_view(completed@);
    let mut r: Vec<Permutation> = Vec::new();
    proof {
        assert(perms_view(r@) =~= Seq::<PermView>::empty());
        assert(perms_view(perms@).take(0) =~= Seq::<PermView>::empty());
    }
    let mut i: usize = 0;
    while i < perms.len()
        invariant
            0 <= i <= perms@.len(),
            done == strings_view(completed@),
            perms_view(r@) == spec_pending(perms_view(perms@).take(i as int), done),
        decreases perms@.len() - i,
    {
        let ghost pvs = perms_view(perms@);
        let p = &perms[i];
        let keep = !contains_id(completed, &p.id);
        proof {
            assert(pvs.take(i + 1).drop_last() =~= pvs.take(i as int));
            assert(pvs.take(i + 1).last() == pvs[i as int]);
            assert(pvs[i as int] == p@);
        }
        if keep {
            let ghost before = perms_view(r@);
            let copy = Permutation { id: p.id.clone(), parameters: p.parameters.clone() };
            proof {
                assert(copy@ == p@);
            }
            r.push(copy);
            proof {
                assert(perms_view(r@) =~= before.push(p@));
            }
        }
        i += 1;
    }
    proof {
        assert(perms_view(perms@).take(perms@.len() as int) =~= perms_view(perms@));
    }
    r
}

/// Nothing pending is completed: every permutation the filter keeps has an
/// identifier outside the completed set.
pub proof fn lemma_pending_not_completed(perms: Seq<PermView>, done: Seq<Seq<char>>)
    ensures
        forall|k: int|
            0 <= k < spec_pending(perms, done).len() ==> !done.contains(
                #[trigger] spec_pending(perms, done)[k].id,
            ),
    decreases perms.len(),
{
    if perms.len() > 0 {
        lemma_pending_not_completed(perms.drop_last(), done);
        let rest = spec_pending(perms.drop_last(), done);
        assert forall|k: int| 0 <= k < spec_pending(perms, done).len() implies !done.contains(
            #[trigger] spec_pending(perms, done)[k].id,
        ) by {
            if !done.contains(perms.last().id) && k == rest.len() {
                assert(spec_pending(perms, done)[k] == perms.last());
            } else {
                assert(spec_pending(perms, done)[k] == rest[k]);
            }
        }
    }
}

/// Filtering keeps a list untouched when none of it is completed.
proof fn lemma_pending_noop(perms: Seq<PermView>, done: Seq<Seq<char>>)
    requires
        forall|k: int| 0 <= k < perms.len() ==> !done.contains((#[trigger] perms[k]).id),
    ensures
        spec_pending(perms, done) == perms,
    decreases perms.len(),
{
    if perms.len() == 0 {
        assert(spec_pending(perms, done) =~= perms);
    } else {
        assert(perms.last() == perms[perms.len() - 1]);
        assert(!done.contains(perms.last().id));
        assert forall|k: int| 0 <= k < perms.drop_last().len() implies !done.contains(
            (#[trigger] perms.drop_last()[k]).id,
        ) by {
            assert(perms.drop_last()[k] == perms[k]);
        }
        lemma_pending_noop(perms.drop_last(), done);
        assert(spec_pending(perms, done) =~= perms.drop_last().push(perms.last()));
        assert(perms.drop_last().push(perms.last()) =~= perms);
    }
}

/// Resume filtering is idempotent: filtering an already-filtered pending
/// list against the same completed set changes nothing.
pub proof fn lemma_filter_idempotent(perms: Seq<PermView>, done: Seq<Seq<char>>)
    ensures
        spec_pending(spec_pending(perms, done), done) == spec_pending(perms, done),
{
    lemma_pending_not_completed(perms, done);
    lemma_pending_noop(spec_pending(perms, done), done);
}

} // verus!
