//! Permutation generation: the Cartesian product of the argument value
//! lists, replicated `repeat` times, in a deterministic order.

use vstd::prelude::*;
use vstd::string::*;
use crate::config::{Config, Permutation, PermView};
use crate::decimal::usize_to_decimal;
use crate::ids::{KvSeq, id_base, id_segs, flag_segs, id_segment, flag_segment, join_with,
    lemma_join_take_step, params_of, perm_id};

verus! {

/// View of the argument list: each entry is a name and its value list.
pub type ArgsSeq = Seq<(Seq<char>, Seq<Seq<char>>)>;

/// Character sequences of a list of strings.
pub open spec fn strings_view(vs: Seq<String>) -> Seq<Seq<char>> {
    vs.map_values(|s: String| s@)
}

/// Character sequences of an accumulated key/value assignment.
pub open spec fn kvs_view(kvs: Seq<(String, String)>) -> KvSeq {
    kvs.map_values(|kv: (String, String)| (kv.0@, kv.1@))
}

/// Character sequences of the argument list.
pub open spec fn args_view(args: Seq<(String, Vec<String>)>) -> ArgsSeq {
    args.map_values(|a: (String, Vec<String>)| (a.0@, strings_view(a.1@)))
}

/// Views of a list of permutations.
pub open spec fn perms_view(ps: Seq<Permutation>) -> Seq<PermView> {
    ps.map_values(|p: Permutation| p@)
}

/// The `repeat` replicas of one complete assignment, suffixed `_0`, `_1`, …
pub open spec fn emit(kvs: KvSeq, repeat: nat) -> Seq<PermView> {
    Seq::new(
        repeat,
        |i: int| PermView { id: perm_id(kvs, i as nat), parameters: params_of(kvs) },
    )
}

/// All permutations that extend the partial assignment `kvs` with values
/// for the arguments from `index` on.
pub open spec fn gen_from(args: ArgsSeq, index: int, kvs: KvSeq, repeat: nat) -> Seq<PermView>
    decreases args.len() - index, 1int, 0int,
{
    if index < 0 || index > args.len() {
        Seq::empty()
    } else if index == args.len() {
        emit(kvs, repeat)
    } else {
        gen_vals(args, index, 0, kvs, repeat)
    }
}

/// As [`gen_from`], but only for the values of argument `index` from
/// position `j` on.
pub open spec fn gen_vals(args: ArgsSeq, index: int, j: int, kvs: KvSeq, repeat: nat) -> Seq<
    PermView,
>
    decreases args.len() - index, 0int, args[index].1.len() - j,
{
    if 0 <= index < args.len() && 0 <= j < args[index].1.len() {
        gen_from(args, index + 1, kvs.push((args[index].0, args[index].1[j])), repeat) + gen_vals(
            args,
            index,
            j + 1,
            kvs,
            repeat,
        )
    } else {
        Seq::empty()
    }
}

/// The full permutation list of a sweep.  An empty argument mapping yields
/// an empty sweep, not one degenerate permutation.
pub open spec fn spec_permutations(args: ArgsSeq, repeat: nat) -> Seq<PermView> {
    if args.len() == 0 {
        Seq::empty()
    } else {
        gen_from(args, 0, Seq::empty(), repeat)
    }
}

/// The product of the value-list lengths of the arguments from `index` on.
pub open spec fn prod_from(args: ArgsSeq, index: int) -> nat
    decreases args.len() - index,
{
    if index < 0 || index >= args.len() {
        1
    } else {
        args[index].1.len() * prod_from(args, index + 1)
    }
}

proof fn lemma_gen_from_count(args: ArgsSeq, index: int, kvs: KvSeq, repeat: nat)
    requires
        0 <= index <= args.len(),
    ensures
        gen_from(args, index, kvs, repeat).len() == repeat * prod_from(args, index),
    decreases args.len() - index, 1int, 0int,
{
    if index == args.len() {
        assert(gen_from(args, index, kvs, repeat).len() == repeat);
        assert(repeat * 1 == repeat) by (nonlinear_arith);
    } else {
        lemma_gen_vals_count(args, index, 0, kvs, repeat);
        let vals: int = args[index].1.len() as int;
        let rest = prod_from(args, index + 1);
        assert((vals - 0) * (repeat * rest) == repeat * (vals * rest)) by (nonlinear_arith);
    }
}

proof fn lemma_gen_vals_count(args: ArgsSeq, index: int, j: int, kvs: KvSeq, repeat: nat)
    requires
        0 <= index < args.len(),
        0 <= j <= args[index].1.len(),
    ensures
        gen_vals(args, index, j, kvs, repeat).len() == (args[index].1.len() - j) * (repeat
            * prod_from(args, index + 1)),
    decreases args.len() - index, 0int, args[index].1.len() - j,
{
    let vals: int = args[index].1.len() as int;
    let block_len = repeat * prod_from(args, index + 1);
    if j == vals {
        assert((vals - j) * block_len == 0) by (nonlinear_arith)
            requires
                vals == j,
        ;
    } else {
        lemma_gen_from_count(args, index + 1, kvs.push((args[index].0, args[index].1[j])), repeat);
        lemma_gen_vals_count(args, index, j + 1, kvs, repeat);
        assert(block_len + (vals - (j + 1)) * block_len == (vals - j) * block_len)
            by (nonlinear_arith);
    }
}

/// The permutation count is the repeat count times the product of the
/// value-list lengths, and an empty argument mapping yields none at all.
pub proof fn lemma_permutation_count(args: ArgsSeq, repeat: nat)
    ensures
        args.len() == 0 ==> spec_permutations(args, repeat).len() == 0,
        args.len() > 0 ==> spec_permutations(args, repeat).len() == repeat * prod_from(args, 0),
{
    if args.len() > 0 {
        lemma_gen_from_count(args, 0, Seq::empty(), repeat);
    }
}

/// Generation is deterministic: from the same arguments and repeat count it
/// yields the same permutations, in the same order, every time.
pub proof fn lemma_generation_deterministic(
    args: ArgsSeq,
    repeat: nat,
    r1: Seq<PermView>,
    r2: Seq<PermView>,
)
    requires
        r1 == spec_permutations(args, repeat),
        r2 == spec_permutations(args, repeat),
    ensures
        r1 == r2,
{
}

/// Renders the identifier base of the accumulated assignment:
/// `key=value` segments joined by `-`.
fn build_id_base(current: &Vec<(String, String)>) -> (r: String)
    ensures
        r@ == id_base(kvs_view(current@)),
{
    proof {
        reveal_strlit("-");
        reveal_strlit("=");
    }
    let mut r = String::new();
    let n = current.len();
    let mut j: usize = 0;
    while j < n
        invariant
            n == current@.len(),
            j <= n,
            r@ == join_with(id_segs(kvs_view(current@)).take(j as int), '-'),
            "-"@ == seq!['-'],
            "="@ == seq!['='],
        decreases n - j,
    {
        let ghost segs = id_segs(kvs_view(current@));
        if j > 0 {
            r.append("-");
        }
        r.append(current[j].0.as_str());
        r.append("=");
        r.append(current[j].1.as_str());
        proof {
            let kv = kvs_view(current@)[j as int];
            assert(kv == (current@[j as int].0@, current@[j as int].1@));
            assert(segs[j as int] == id_segment(kv.0, kv.1));
            lemma_join_take_step(segs, '-', j as int);
            if j == 0 {
                assert(r@ =~= segs[0]);
            } else {
                assert(r@ =~= join_with(segs.take(j as int), '-').push('-') + segs[j as int]);
            }
        }
        j += 1;
    }
    proof {
        assert(id_segs(kvs_view(current@)).take(n as int) =~= id_segs(kvs_view(current@)));
    }
    r
}

/// Renders the parameter string of the accumulated assignment:
/// `--key=value` flags joined by spaces.
fn build_params(current: &Vec<(String, String)>) -> (r: String)
    ensures
        r@ == params_of(kvs_view(current@)),
{
    proof {
        reveal_strlit(" ");
        reveal_strlit("--");
        reveal_strlit("=");
    }
    let mut r = String::new();
    let n = current.len();
    let mut j: usize = 0;
    while j < n
        invariant
            n == current@.len(),
            j <= n,
            r@ == join_with(flag_segs(kvs_view(current@)).take(j as int), ' '),
            " "@ == seq![' '],
            "--"@ == seq!['-', '-'],
            "="@ == seq!['='],
        decreases n - j,
    {
        let ghost segs = flag_segs(kvs_view(current@));
        if j > 0 {
            r.append(" ");
        }
        r.append("--");
        r.append(current[j].0.as_str());
        r.append("=");
        r.append(current[j].1.as_str());
        proof {
            let kv = kvs_view(current@)[j as int];
            assert(kv == (current@[j as int].0@, current@[j as int].1@));
            assert(segs[j as int] == flag_segment(kv.0, kv.1));
            lemma_join_take_step(segs, ' ', j as int);
            if j == 0 {
                assert(r@ =~= segs[0]);
            } else {
                assert(r@ =~= join_with(segs.take(j as int), ' ').push(' ') + segs[j as int]);
            }
        }
        j += 1;
    }
    proof {
        assert(flag_segs(kvs_view(current@)).take(n as int) =~= flag_segs(kvs_view(current@)));
    }
    r
}

/// Appends to `permutations` every permutation that extends `current` with
/// values for the arguments from `index` on, leaving `current` as it was.
pub fn generate_recursive(
    args: &Vec<(String, Vec<String>)>,
    index: usize,
    current: &mut Vec<(String, String)>,
    permutations: &mut Vec<Permutation>,
    repeat: usize,
)
    requires
        index <= args@.len(),
    ensures
        final(current)@ == old(current)@,
        perms_view(final(permutations)@) == perms_view(old(permutations)@) + gen_from(
            args_view(args@),
            index as int,
            kvs_view(old(current)@),
            repeat as nat,
        ),
    decreases args@.len() - index,
{
    proof {
        reveal_strlit("_");
    }
    let ghost gargs = args_view(args@);
    let ghost kvs0 = kvs_view(current@);
    if index == args.len() {
        let base = build_id_base(current);
        let params = build_params(current);
        let mut i: usize = 0;
        while i < repeat
            invariant
                base@ == id_base(kvs0),
                params@ == params_of(kvs0),
                kvs0 == kvs_view(current@),
                i <= repeat,
                perms_view(permutations@) == perms_view(old(permutations)@) + emit(
                    kvs0,
                    i as nat,
                ),
                "_"@ == seq!['_'],
            decreases repeat - i,
        {
            let mut id = base.clone();
            id.append("_");
            let suffix = usize_to_decimal(i);
            id.append(suffix.as_str());
            let ghost before = perms_view(permutations@);
            let p = Permutation { id, parameters: params.clone() };
            proof {
                assert(p@.id =~= perm_id(kvs0, i as nat));
                assert(p@ == PermView { id: perm_id(kvs0, i as nat), parameters: params_of(kvs0) });
            }
            permutations.push(p);
            proof {
                assert(perms_view(permutations@) =~= before.push(p@));
                assert(emit(kvs0, (i + 1) as nat) =~= emit(kvs0, i as nat).push(p@));
                assert(perms_view(permutations@) =~= perms_view(old(permutations)@) + emit(
                    kvs0,
                    (i + 1) as nat,
                ));
            }
            i += 1;
        }
        proof {
            assert(gen_from(gargs, index as int, kvs0, repeat as nat) == emit(kvs0, repeat as nat));
        }
    } else {
        let values_len = args[index].1.len();
        let next_index = index + 1;
        let mut j: usize = 0;
        while j < values_len
            invariant
                index < args@.len(),
                next_index == index + 1,
                values_len == args@[index as int].1@.len(),
                j <= values_len,
                gargs == args_view(args@),
                current@ == old(current)@,
                kvs0 == kvs_view(current@),
                perms_view(permutations@) + gen_vals(gargs, index as int, j as int, kvs0, repeat as nat)
                    == perms_view(old(permutations)@) + gen_vals(
                    gargs,
                    index as int,
                    0,
                    kvs0,
                    repeat as nat,
                ),
            decreases values_len - j,
        {
            let key = args[index].0.clone();
            let value = args[index].1[j].clone();
            let ghost mid = perms_view(permutations@);
            current.push((key, value));
            proof {
                assert(kvs_view(current@) =~= kvs0.push((
                    gargs[index as int].0,
                    gargs[index as int].1[j as int],
                )));
            }
            generate_recursive(args, next_index, current, permutations, repeat);
            let popped = current.pop();
            proof {
                assert(current@ =~= old(current)@);
                let block = gen_from(
                    gargs,
                    index as int + 1,
                    kvs0.push((gargs[index as int].0, gargs[index as int].1[j as int])),
                    repeat as nat,
                );
                assert(perms_view(permutations@) == mid + block);
                assert(gen_vals(gargs, index as int, j as int, kvs0, repeat as nat) == block
                    + gen_vals(gargs, index as int, j as int + 1, kvs0, repeat as nat));
                assert((mid + block) + gen_vals(gargs, index as int, j as int + 1, kvs0, repeat as nat)
                    =~= mid + (block + gen_vals(gargs, index as int, j as int + 1, kvs0, repeat as nat)));
            }
            j += 1;
        }
        proof {
            assert(gen_vals(gargs, index as int, values_len as int, kvs0, repeat as nat)
                =~= Seq::<PermView>::empty());
            assert(perms_view(permutations@) + Seq::<PermView>::empty() =~= perms_view(
                permutations@,
            ));
            assert(gen_from(gargs, index as int, kvs0, repeat as nat) == gen_vals(
                gargs,
                index as int,
                0,
                kvs0,
                repeat as nat,
            ));
        }
    }
}

impl Config {
    /// Expands the sweep into its full permutation list: the Cartesian
    /// product of the argument value lists in the order given, each
    /// combination replicated `repeat` times.  Deterministic: the result is
    /// a function of the arguments and the repeat count alone.
    pub fn get_arguments_permutations(&self) -> (r: Vec<Permutation>)
        ensures
            perms_view(r@) == spec_permutations(args_view(self.arguments@), self.repeat as nat),
    {
        let mut result: Vec<Permutation> = Vec::new();
        if self.arguments.len() == 0 {
            proof {
                assert(perms_view(result@) =~= Seq::<PermView>::empty());
            }
            return result;
        }
        let mut current: Vec<(String, String)> = Vec::new();
        generate_recursive(&self.arguments, 0, &mut current, &mut result, self.repeat);
        proof {
            assert(kvs_view(Seq::empty()) =~= Seq::<(Seq<char>, Seq<char>)>::empty());
            assert(perms_view(Seq::empty()) =~= Seq::<PermView>::empty());
        }
        result
    }
}

} // verus!
