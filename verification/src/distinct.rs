//! Pairwise distinctness of generated permutation identifiers.
//!
//! Distinctness holds whenever no argument name or value contains `-` (the
//! segment separator of identifiers) and no value list repeats a value.
//! Outside those conditions two different combinations can render to the
//! same identifier, so the result directories of the sweep would collide.

use vstd::prelude::*;
use crate::config::PermView;
use crate::ids::{KvSeq, kvs_dash_free, lemma_perm_id_injective, perm_id, sep_free};
use crate::generate::{ArgsSeq, emit, gen_from, gen_vals, spec_permutations};

verus! {

/// No two permutations in the list share an identifier.
pub open spec fn distinct_ids(ps: Seq<PermView>) -> bool {
    forall|p: int, q: int| 0 <= p < q < ps.len() ==> ps[p].id != ps[q].id
}

/// The conditions under which the identifier encoding is injective: every
/// argument name and value avoids `-`, and no value list repeats a value.
pub open spec fn args_injective_ok(args: ArgsSeq) -> bool {
    forall|m: int|
        0 <= m < args.len() ==> {
            &&& sep_free((#[trigger] args[m]).0, '-')
            &&& (forall|u: int| 0 <= u < args[m].1.len() ==> sep_free(#[trigger] args[m].1[u], '-'))
            &&& (forall|u: int, w: int|
                0 <= u < w < args[m].1.len() ==> args[m].1[u] != args[m].1[w])
        }
}

/// `kvs` completes the partial assignment `kvs0` with one value, taken from
/// the configured list, for every argument from `index` on.
pub open spec fn is_extension(args: ArgsSeq, index: int, kvs0: KvSeq, kvs: KvSeq) -> bool {
    &&& kvs.len() == kvs0.len() + (args.len() - index)
    &&& kvs.take(kvs0.len() as int) == kvs0
    &&& forall|m: int|
        index <= m < args.len() ==> {
            &&& (#[trigger] kvs[kvs0.len() + (m - index)]).0 == args[m].0
            &&& exists|u: int|
                0 <= u < args[m].1.len() && kvs[kvs0.len() + (m - index)].1 == args[m].1[u]
        }
}

/// `pv`'s identifier comes from some completion of `kvs0`, and the value
/// chosen for argument `index` sits at position `m >= j` of its list.
pub open spec fn from_block(
    args: ArgsSeq,
    index: int,
    j: int,
    kvs0: KvSeq,
    repeat: nat,
    pv: PermView,
) -> bool {
    exists|kvs: KvSeq, i: nat, m: int|
        {
            &&& is_extension(args, index, kvs0, kvs)
            &&& i < repeat
            &&& j <= m < args[index].1.len()
            &&& kvs[kvs0.len() as int].1 == args[index].1[m]
            &&& pv.id == perm_id(kvs, i)
        }
}

/// `pv`'s identifier comes from some completion of `kvs0` whose value for
/// argument `index` is exactly the one at position `j` of its list.
pub open spec fn from_value(
    args: ArgsSeq,
    index: int,
    j: int,
    kvs0: KvSeq,
    repeat: nat,
    pv: PermView,
) -> bool {
    exists|kvs: KvSeq, i: nat|
        {
            &&& is_extension(args, index, kvs0, kvs)
            &&& i < repeat
            &&& kvs[kvs0.len() as int].1 == args[index].1[j]
            &&& pv.id == perm_id(kvs, i)
        }
}

/// `pv`'s identifier comes from some completion of `kvs0`.
pub open spec fn from_extension(
    args: ArgsSeq,
    index: int,
    kvs0: KvSeq,
    repeat: nat,
    pv: PermView,
) -> bool {
    exists|kvs: KvSeq, i: nat|
        is_extension(args, index, kvs0, kvs) && i < repeat && pv.id == perm_id(kvs, i)
}

/// A completion of a `-`-free partial assignment with configured values is
/// itself `-`-free.
proof fn lemma_extension_dash_free(args: ArgsSeq, index: int, kvs0: KvSeq, kvs: KvSeq)
    requires
        0 <= index <= args.len(),
        args_injective_ok(args),
        kvs_dash_free(kvs0),
        is_extension(args, index, kvs0, kvs),
    ensures
        kvs_dash_free(kvs),
{
    assert forall|m: int|
        0 <= m < kvs.len() implies sep_free((#[trigger] kvs[m]).0, '-') && sep_free(
        kvs[m].1,
        '-',
    ) by {
        if m < kvs0.len() {
            assert(kvs[m] == kvs.take(kvs0.len() as int)[m]);
            assert(kvs[m] == kvs0[m]);
        } else {
            let a = index + (m - kvs0.len());
            assert(index <= a < args.len());
            assert(kvs[kvs0.len() + (a - index)].0 == args[a].0);
            assert(kvs[m].0 == args[a].0);
            let u = choose|u: int|
                0 <= u < args[a].1.len() && kvs[kvs0.len() + (a - index)].1 == args[a].1[u];
            assert(kvs[m].1 == args[a].1[u]);
        }
    }
}

/// Two completions of the same partial assignment agree on every key.
proof fn lemma_extensions_same_keys(
    args: ArgsSeq,
    index: int,
    kvs0: KvSeq,
    kvs1: KvSeq,
    kvs2: KvSeq,
)
    requires
        0 <= index <= args.len(),
        is_extension(args, index, kvs0, kvs1),
        is_extension(args, index, kvs0, kvs2),
    ensures
        kvs1.len() == kvs2.len(),
        forall|m: int| 0 <= m < kvs1.len() ==> (#[trigger] kvs1[m]).0 == (#[trigger] kvs2[m]).0,
{
    assert forall|m: int|
        0 <= m < kvs1.len() implies (#[trigger] kvs1[m]).0 == (#[trigger] kvs2[m]).0 by {
        if m < kvs0.len() {
            assert(kvs1[m] == kvs1.take(kvs0.len() as int)[m]);
            assert(kvs2[m] == kvs2.take(kvs0.len() as int)[m]);
        } else {
            let a = index + (m - kvs0.len());
            assert(kvs1[kvs0.len() + (a - index)].0 == args[a].0);
            assert(kvs2[kvs0.len() + (a - index)].0 == args[a].0);
        }
    }
}

/// Every identifier produced from `index` on is that of some completion of
/// the accumulated assignment.
proof fn lemma_gen_from_membership(args: ArgsSeq, index: int, kvs0: KvSeq, repeat: nat)
    requires
        0 <= index <= args.len(),
    ensures
        forall|p: int|
            0 <= p < gen_from(args, index, kvs0, repeat).len() ==> from_extension(
                args,
                index,
                kvs0,
                repeat,
                #[trigger] gen_from(args, index, kvs0, repeat)[p],
            ),
    decreases args.len() - index, 2int, 0int,
{
    if index == args.len() {
        assert forall|p: int| 0 <= p < gen_from(args, index, kvs0, repeat).len() implies
            from_extension(args, index, kvs0, repeat, #[trigger] gen_from(args, index, kvs0, repeat)[p]) by {
            let pv = gen_from(args, index, kvs0, repeat)[p];
            assert(pv == emit(kvs0, repeat)[p]);
            assert(pv.id == perm_id(kvs0, p as nat));
            assert(kvs0.take(kvs0.len() as int) =~= kvs0);
            assert(is_extension(args, index, kvs0, kvs0));
            assert(is_extension(args, index, kvs0, kvs0) && (p as nat) < repeat && pv.id
                == perm_id(kvs0, p as nat));
        }
    } else {
        lemma_gen_vals_membership(args, index, 0, kvs0, repeat);
        assert forall|p: int| 0 <= p < gen_from(args, index, kvs0, repeat).len() implies
            from_extension(args, index, kvs0, repeat, #[trigger] gen_from(args, index, kvs0, repeat)[p]) by {
            let pv = gen_from(args, index, kvs0, repeat)[p];
            assert(pv == gen_vals(args, index, 0, kvs0, repeat)[p]);
            assert(from_block(args, index, 0, kvs0, repeat, pv));
            let (kvs, i, m) = choose|kvs: KvSeq, i: nat, m: int|
                {
                    &&& is_extension(args, index, kvs0, kvs)
                    &&& i < repeat
                    &&& 0 <= m < args[index].1.len()
                    &&& kvs[kvs0.len() as int].1 == args[index].1[m]
                    &&& pv.id == perm_id(kvs, i)
                };
            assert(is_extension(args, index, kvs0, kvs) && i < repeat && pv.id == perm_id(kvs, i));
        }
    }
}

/// Every identifier of the block generated by taking value `j` for
/// argument `index` is that of some completion taking exactly that value.
proof fn lemma_block_value_membership(args: ArgsSeq, index: int, j: int, kvs0: KvSeq, repeat: nat)
    requires
        0 <= index < args.len(),
        0 <= j < args[index].1.len(),
    ensures
        forall|p: int|
            0 <= p < gen_from(
                args,
                index + 1,
                kvs0.push((args[index].0, args[index].1[j])),
                repeat,
            ).len() ==> from_value(
                args,
                index,
                j,
                kvs0,
                repeat,
                #[trigger] gen_from(
                    args,
                    index + 1,
                    kvs0.push((args[index].0, args[index].1[j])),
                    repeat,
                )[p],
            ),
    decreases args.len() - index, 0int, 0int,
{
    let entry = (args[index].0, args[index].1[j]);
    let kvs1 = kvs0.push(entry);
    let block = gen_from(args, index + 1, kvs1, repeat);
    lemma_gen_from_membership(args, index + 1, kvs1, repeat);
    assert forall|p: int| 0 <= p < block.len() implies from_value(
        args,
        index,
        j,
        kvs0,
        repeat,
        #[trigger] block[p],
    ) by {
        let pv = block[p];
        assert(from_extension(args, index + 1, kvs1, repeat, pv));
        let (kvs, i) = choose|kvs: KvSeq, i: nat|
            is_extension(args, index + 1, kvs1, kvs) && i < repeat && pv.id == perm_id(kvs, i);
        // kvs completes kvs0 as well, choosing value j for argument index
        assert(kvs.len() == kvs0.len() + (args.len() - index));
        assert(kvs.take(kvs0.len() as int) =~= kvs0) by {
            assert forall|t: int| 0 <= t < kvs0.len() implies kvs.take(kvs0.len() as int)[t]
                == kvs0[t] by {
                assert(kvs[t] == kvs.take(kvs1.len() as int)[t]);
                assert(kvs[t] == kvs1[t]);
            }
        }
        assert(kvs[kvs0.len() as int] == entry) by {
            assert(kvs[kvs0.len() as int] == kvs.take(kvs1.len() as int)[kvs0.len() as int]);
            assert(kvs[kvs0.len() as int] == kvs1[kvs0.len() as int]);
        }
        assert(is_extension(args, index, kvs0, kvs)) by {
            assert forall|m: int| index <= m < args.len() implies {
                &&& (#[trigger] kvs[kvs0.len() + (m - index)]).0 == args[m].0
                &&& exists|u: int|
                    0 <= u < args[m].1.len() && kvs[kvs0.len() + (m - index)].1 == args[m].1[u]
            } by {
                if m == index {
                    assert(kvs[kvs0.len() as int] == entry);
                    assert(0 <= j < args[index].1.len() && kvs[kvs0.len() + (m - index)].1
                        == args[index].1[j]);
                } else {
                    assert(kvs[kvs1.len() + (m - (index + 1))].0 == args[m].0);
                    assert(kvs1.len() + (m - (index + 1)) == kvs0.len() + (m - index));
                }
            }
        }
        assert({
            &&& is_extension(args, index, kvs0, kvs)
            &&& i < repeat
            &&& kvs[kvs0.len() as int].1 == args[index].1[j]
            &&& pv.id == perm_id(kvs, i)
        });
    }
}

/// As above, for the tail of one argument's value list: the value chosen
/// for argument `index` comes from position `j` or later.
proof fn lemma_gen_vals_membership(args: ArgsSeq, index: int, j: int, kvs0: KvSeq, repeat: nat)
    requires
        0 <= index < args.len(),
        0 <= j <= args[index].1.len(),
    ensures
        forall|p: int|
            0 <= p < gen_vals(args, index, j, kvs0, repeat).len() ==> from_block(
                args,
                index,
                j,
                kvs0,
                repeat,
                #[trigger] gen_vals(args, index, j, kvs0, repeat)[p],
            ),
    decreases args.len() - index, 1int, args[index].1.len() - j,
{
    if j == args[index].1.len() {
    } else {
        let entry = (args[index].0, args[index].1[j]);
        let kvs1 = kvs0.push(entry);
        let block = gen_from(args, index + 1, kvs1, repeat);
        let rest = gen_vals(args, index, j + 1, kvs0, repeat);
        lemma_block_value_membership(args, index, j, kvs0, repeat);
        lemma_gen_vals_membership(args, index, j + 1, kvs0, repeat);
        assert forall|p: int| 0 <= p < gen_vals(args, index, j, kvs0, repeat).len() implies
            from_block(args, index, j, kvs0, repeat, #[trigger] gen_vals(args, index, j, kvs0, repeat)[p]) by {
            let pv = gen_vals(args, index, j, kvs0, repeat)[p];
            if p < block.len() {
                assert(pv == block[p]);
                assert(from_value(args, index, j, kvs0, repeat, pv));
                let (kvs, i) = choose|kvs: KvSeq, i: nat|
                    {
                        &&& is_extension(args, index, kvs0, kvs)
                        &&& i < repeat
                        &&& kvs[kvs0.len() as int].1 == args[index].1[j]
                        &&& pv.id == perm_id(kvs, i)
                    };
                assert({
                    &&& is_extension(args, index, kvs0, kvs)
                    &&& i < repeat
                    &&& j <= j < args[index].1.len()
                    &&& kvs[kvs0.len() as int].1 == args[index].1[j]
                    &&& pv.id == perm_id(kvs, i)
                });
            } else {
                assert(pv == rest[p - block.len()]);
                assert(from_block(args, index, j + 1, kvs0, repeat, pv));
                let (kvs, i, m) = choose|kvs: KvSeq, i: nat, m: int|
                    {
                        &&& is_extension(args, index, kvs0, kvs)
                        &&& i < repeat
                        &&& j + 1 <= m < args[index].1.len()
                        &&& kvs[kvs0.len() as int].1 == args[index].1[m]
                        &&& pv.id == perm_id(kvs, i)
                    };
                assert({
                    &&& is_extension(args, index, kvs0, kvs)
                    &&& i < repeat
                    &&& j <= m < args[index].1.len()
                    &&& kvs[kvs0.len() as int].1 == args[index].1[m]
                    &&& pv.id == perm_id(kvs, i)
                });
            }
        }
    }
}

/// Identifiers of two different completions of the same partial assignment
/// with different repeat indices, or different values anywhere, differ.
proof fn lemma_gen_from_distinct(args: ArgsSeq, index: int, kvs0: KvSeq, repeat: nat)
    requires
        0 <= index <= args.len(),
        args_injective_ok(args),
        kvs_dash_free(kvs0),
    ensures
        distinct_ids(gen_from(args, index, kvs0, repeat)),
    decreases args.len() - index, 1int, 0int,
{
    if index == args.len() {
        let g = gen_from(args, index, kvs0, repeat);
        assert forall|p: int, q: int| 0 <= p < q < g.len() implies g[p].id != g[q].id by {
            assert(g[p].id == perm_id(kvs0, p as nat));
            assert(g[q].id == perm_id(kvs0, q as nat));
            if g[p].id == g[q].id {
                lemma_perm_id_injective(kvs0, p as nat, kvs0, q as nat);
            }
        }
    } else {
        lemma_gen_vals_distinct(args, index, 0, kvs0, repeat);
    }
}

proof fn lemma_gen_vals_distinct(args: ArgsSeq, index: int, j: int, kvs0: KvSeq, repeat: nat)
    requires
        0 <= index < args.len(),
        0 <= j <= args[index].1.len(),
        args_injective_ok(args),
        kvs_dash_free(kvs0),
    ensures
        distinct_ids(gen_vals(args, index, j, kvs0, repeat)),
    decreases args.len() - index, 0int, args[index].1.len() - j,
{
    if j == args[index].1.len() {
    } else {
        let entry = (args[index].0, args[index].1[j]);
        let kvs1 = kvs0.push(entry);
        let block = gen_from(args, index + 1, kvs1, repeat);
        let rest = gen_vals(args, index, j + 1, kvs0, repeat);
        let g = gen_vals(args, index, j, kvs0, repeat);
        assert(kvs_dash_free(kvs1)) by {
            assert forall|m: int|
                0 <= m < kvs1.len() implies sep_free((#[trigger] kvs1[m]).0, '-') && sep_free(
                kvs1[m].1,
                '-',
            ) by {
                if m < kvs0.len() {
                    assert(kvs1[m] == kvs0[m]);
                } else {
                    assert(kvs1[m] == entry);
                }
            }
        }
        lemma_gen_from_distinct(args, index + 1, kvs1, repeat);
        lemma_gen_vals_distinct(args, index, j + 1, kvs0, repeat);
        lemma_block_value_membership(args, index, j, kvs0, repeat);
        lemma_gen_vals_membership(args, index, j + 1, kvs0, repeat);
        assert forall|p: int, q: int| 0 <= p < q < g.len() implies g[p].id != g[q].id by {
            if q < block.len() {
                assert(g[p] == block[p]);
                assert(g[q] == block[q]);
            } else if p >= block.len() {
                assert(g[p] == rest[p - block.len()]);
                assert(g[q] == rest[q - block.len()]);
            } else {
                // one identifier from the value at position j, one from later
                assert(g[p] == block[p]);
                assert(g[q] == rest[q - block.len()]);
                assert(from_value(args, index, j, kvs0, repeat, g[p]));
                assert(from_block(args, index, j + 1, kvs0, repeat, g[q]));
                let (kvsa, ia) = choose|kvs: KvSeq, i: nat|
                    {
                        &&& is_extension(args, index, kvs0, kvs)
                        &&& i < repeat
                        &&& kvs[kvs0.len() as int].1 == args[index].1[j]
                        &&& g[p].id == perm_id(kvs, i)
                    };
                let (kvsb, ib, mb) = choose|kvs: KvSeq, i: nat, m: int|
                    {
                        &&& is_extension(args, index, kvs0, kvs)
                        &&& i < repeat
                        &&& j + 1 <= m < args[index].1.len()
                        &&& kvs[kvs0.len() as int].1 == args[index].1[m]
                        &&& g[q].id == perm_id(kvs, i)
                    };
                if g[p].id == g[q].id {
                    lemma_extensions_same_keys(args, index, kvs0, kvsa, kvsb);
                    lemma_extension_dash_free(args, index, kvs0, kvsa);
                    lemma_extension_dash_free(args, index, kvs0, kvsb);
                    lemma_perm_id_injective(kvsa, ia, kvsb, ib);
                    // one assignment cannot pick the value both at j and after
                    // j: the list is duplicate-free
                    assert(kvsa[kvs0.len() as int].1 == kvsb[kvs0.len() as int].1);
                    assert(args[index].1[j] == args[index].1[mb]);
                    assert(false);
                }
            }
        }
    }
}

/// Generated identifiers are pairwise distinct whenever no argument name or
/// value contains `-` and no value list repeats a value.
pub proof fn lemma_permutation_ids_distinct(args: ArgsSeq, repeat: nat)
    requires
        args_injective_ok(args),
    ensures
        distinct_ids(spec_permutations(args, repeat)),
{
    if args.len() > 0 {
        assert(kvs_dash_free(Seq::empty()));
        lemma_gen_from_distinct(args, 0, Seq::empty(), repeat);
    }
}

} // verus!
