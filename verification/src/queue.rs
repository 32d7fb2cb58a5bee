//! The shared work queue: a bounded concurrency-safe container holding the
//! pending permutations, populated once before any worker starts and only
//! drained thereafter.
//!
//! The container itself is crossbeam's `ArrayQueue`; what it holds is
//! tracked here as a multiset of permutation views, so that filling puts
//! exactly the pending permutations in, and each removal takes exactly one
//! occurrence out — a permutation comes out of the queue at most once, and
//! an empty queue stays empty.

use vstd::prelude::*;
use vstd::multiset::Multiset;
use crossbeam_queue::ArrayQueue;
use crate::config::Permutation;

verus! {

/// crossbeam's bounded lock-free queue, declared so its values can flow
/// through verified code; its contents are tracked by [`queue_contents`].
#[verifier::external_type_specification]
#[verifier::external_body]
#[verifier::reject_recursive_types(T)]
pub struct ExArrayQueue<T>(ArrayQueue<T>);

/// What the work queue holds: one `(identifier, parameters)` pair per
/// queued permutation, without order.
pub uninterp spec fn queue_contents(q: ArrayQueue<Permutation>) -> Multiset<
    (Seq<char>, Seq<char>),
>;

/// The fixed capacity the work queue was created with.
pub uninterp spec fn queue_capacity(q: ArrayQueue<Permutation>) -> nat;

/// The queued views of a list of permutations.
pub open spec fn perm_multiset(ps: Seq<Permutation>) -> Multiset<(Seq<char>, Seq<char>)> {
    ps.map_values(|p: Permutation| (p.id@, p.parameters@)).to_multiset()
}

/// Relies on crossbeam's `ArrayQueue::new`: an empty queue of the given
/// capacity.  The capacity bound keeps the call from panicking: the queue
/// refuses a zero capacity, and its slot bookkeeping a near-address-space
/// one.
#[verifier::external_body]
fn queue_new(cap: usize) -> (q: ArrayQueue<Permutation>)
    requires
        0 < cap <= usize::MAX / 2,
    ensures
        queue_contents(q) == Multiset::<(Seq<char>, Seq<char>)>::empty(),
        queue_capacity(q) == cap,
{
    ArrayQueue::new(cap)
}

/// Relies on crossbeam's `ArrayQueue::push_mut`: the value is queued
/// exactly when the queue is not yet full, and handed back otherwise.
#[verifier::external_body]
fn queue_push(q: &mut ArrayQueue<Permutation>, p: Permutation) -> (r: Result<(), Permutation>)
    ensures
        queue_capacity(*final(q)) == queue_capacity(*old(q)),
        r is Ok <==> queue_contents(*old(q)).len() < queue_capacity(*old(q)),
        r is Ok ==> queue_contents(*final(q)) == queue_contents(*old(q)).insert(
            (p.id@, p.parameters@),
        ),
        r is Err ==> queue_contents(*final(q)) == queue_contents(*old(q)),
{
    q.push_mut(p)
}

/// Relies on crossbeam's `ArrayQueue::pop_mut`: some queued permutation
/// comes out, one occurrence fewer stays in, and only an empty queue gives
/// none — so an empty queue stays empty.
#[verifier::external_body]
fn queue_pop(q: &mut ArrayQueue<Permutation>) -> (r: Option<Permutation>)
    ensures
        queue_capacity(*final(q)) == queue_capacity(*old(q)),
        r is Some <==> queue_contents(*old(q)).len() > 0,
        r matches Some(p) ==> queue_contents(*old(q)).contains((p.id@, p.parameters@))
            && queue_contents(*final(q)) == queue_contents(*old(q)).remove((p.id@, p.parameters@)),
        r is None ==> queue_contents(*final(q)) == queue_contents(*old(q)),
{
    q.pop_mut()
}

/// Relies on crossbeam's `ArrayQueue::len`: how many permutations are
/// queued.
#[verifier::external_body]
fn queue_len(q: &ArrayQueue<Permutation>) -> (r: usize)
    ensures
        r == queue_contents(*q).len(),
{
    q.len()
}

/// Builds the work queue for a run: its capacity is the pending
/// permutation count, and it holds exactly the pending permutations.
/// Populated here once; workers only remove.
pub fn fill_queue(perms: Vec<Permutation>) -> (q: ArrayQueue<Permutation>)
    requires
        0 < perms@.len() <= usize::MAX / 2,
    ensures
        queue_contents(q) == perm_multiset(perms@),
        queue_capacity(q) == perms@.len(),
{
    broadcast use vstd::seq_lib::group_to_multiset_ensures;

    let ghost all = perms@;
    let cap = perms.len();
    let mut q = queue_new(cap);
    let mut rest = perms;
    proof {
        assert(queue_contents(q).add(perm_multiset(rest@)) =~= perm_multiset(all));
    }
    while rest.len() > 0
        invariant
            queue_capacity(q) == cap,
            0 < cap <= usize::MAX / 2,
            rest@.len() <= all.len() == cap,
            queue_contents(q).add(perm_multiset(rest@)) == perm_multiset(all),
            queue_contents(q).len() == all.len() - rest@.len(),
        decreases rest@.len(),
    {
        let ghost rest_before = rest@;
        let p = rest.pop().unwrap();
        proof {
            assert(rest_before.drop_last().push(rest_before.last()) =~= rest_before);
            let f = |p: Permutation| (p.id@, p.parameters@);
            let shorter = rest_before.drop_last().map_values(f);
            assert(rest_before.map_values(f) =~= shorter.push(f(rest_before.last())));
            shorter.to_multiset_ensures();
            assert(shorter.push(f(rest_before.last())).to_multiset() =~= shorter.to_multiset()
                .insert(f(rest_before.last())));
            assert(f(rest_before.last()) == (p.id@, p.parameters@));
            assert(perm_multiset(rest_before) =~= perm_multiset(rest_before.drop_last()).insert(
                (p.id@, p.parameters@),
            ));
        }
        let ghost contents_before = queue_contents(q);
        let res = queue_push(&mut q, p);
        proof {
            assert(res is Ok);
            assert(queue_contents(q).add(perm_multiset(rest@)) =~= perm_multiset(all)) by {
                assert(queue_contents(q) =~= contents_before.insert((p.id@, p.parameters@)));
                assert(contents_before.insert((p.id@, p.parameters@)).add(perm_multiset(rest@))
                    =~= contents_before.add(perm_multiset(rest@).insert((p.id@, p.parameters@))));
            }
        }
        match res {
            Ok(_) => {},
            Err(_) => {},
        }
    }
    proof {
        assert(perm_multiset(rest@).len() == 0);
        assert(perm_multiset(rest@) =~= Multiset::<(Seq<char>, Seq<char>)>::empty());
        assert(queue_contents(q).add(Multiset::<(Seq<char>, Seq<char>)>::empty()) =~= queue_contents(
            q,
        ));
    }
    q
}

/// Removes queued permutations until the queue reports empty: every
/// pending permutation comes out exactly once — no duplicates, none left
/// behind — which is what lets the workers of a run attempt each pending
/// permutation exactly once between them.
pub fn drain_queue(q: &mut ArrayQueue<Permutation>) -> (r: Vec<Permutation>)
    ensures
        perm_multiset(r@) == queue_contents(*old(q)),
        queue_contents(*final(q)) == Multiset::<(Seq<char>, Seq<char>)>::empty(),
        queue_capacity(*final(q)) == queue_capacity(*old(q)),
{
    broadcast use vstd::seq_lib::group_to_multiset_ensures;

    let mut r: Vec<Permutation> = Vec::new();
    proof {
        assert(r@.map_values(|p: Permutation| (p.id@, p.parameters@)) =~= Seq::<(
            Seq<char>,
            Seq<char>,
        )>::empty());
        assert(perm_multiset(r@).add(queue_contents(*q)) =~= queue_contents(*old(q)));
    }
    while queue_len(q) != 0
        invariant
            queue_capacity(*q) == queue_capacity(*old(q)),
            perm_multiset(r@).add(queue_contents(*q)) == queue_contents(*old(q)),
        decreases queue_contents(*q).len(),
    {
        let ghost taken = r@;
        let ghost contents_before = queue_contents(*q);
        let popped = queue_pop(q);
        match popped {
            None => {
                proof {
                    assert(false);
                }
            },
            Some(p) => {
                proof {
                    assert(contents_before.contains((p.id@, p.parameters@)));
                }
                r.push(p);
                proof {
                    let f = |p: Permutation| (p.id@, p.parameters@);
                    let shorter = taken.map_values(f);
                    assert(r@.map_values(f) =~= shorter.push(f(p)));
                    shorter.to_multiset_ensures();
                    assert(shorter.push(f(p)).to_multiset() =~= shorter.to_multiset().insert(f(p)));
                    assert(f(p) == (p.id@, p.parameters@));
                    assert(perm_multiset(r@) =~= perm_multiset(taken).insert(
                        (p.id@, p.parameters@),
                    ));
                    assert(perm_multiset(r@).add(queue_contents(*q)) =~= perm_multiset(taken).add(
                        contents_before,
                    ));
                }
            },
        }
    }
    proof {
        assert(queue_contents(*q).len() == 0);
        assert(queue_contents(*q) =~= Multiset::<(Seq<char>, Seq<char>)>::empty());
        assert(perm_multiset(r@).add(queue_contents(*q)) =~= perm_multiset(r@));
    }
    r
}

} // verus!
