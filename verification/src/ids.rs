//! The textual encoding of permutation identifiers and parameter strings.
//!
//! An identifier is `key=value` segments joined by `-`, then `_` and the
//! repeat index; the parameter string is `--key=value` flags joined by
//! spaces.  The lemmas here show when that encoding is injective, which is
//! what makes identifiers usable as result-directory names.

use vstd::prelude::*;
use crate::decimal::{dec_digits, is_digit_char, lemma_dec_digits_are_digits,
    lemma_dec_digits_injective};

verus! {

/// A key/value assignment, one entry per argument name.
pub type KvSeq = Seq<(Seq<char>, Seq<char>)>;

/// Whether `s` avoids the character `sep`.
pub open spec fn sep_free(s: Seq<char>, sep: char) -> bool {
    forall|i: int| 0 <= i < s.len() ==> s[i] != sep
}

/// The parts joined left to right, one `sep` between neighbours.
pub open spec fn join_with(parts: Seq<Seq<char>>, sep: char) -> Seq<char>
    decreases parts.len(),
{
    if parts.len() == 0 {
        Seq::empty()
    } else if parts.len() == 1 {
        parts[0]
    } else {
        join_with(parts.drop_last(), sep).push(sep) + parts.last()
    }
}

/// One identifier segment, `key=value`.
pub open spec fn id_segment(k: Seq<char>, v: Seq<char>) -> Seq<char> {
    k + seq!['='] + v
}

/// One command-line flag, `--key=value`.
pub open spec fn flag_segment(k: Seq<char>, v: Seq<char>) -> Seq<char> {
    seq!['-', '-'] + k + seq!['='] + v
}

/// The identifier segments of an assignment, in order.
pub open spec fn id_segs(kvs: KvSeq) -> Seq<Seq<char>> {
    kvs.map_values(|kv: (Seq<char>, Seq<char>)| id_segment(kv.0, kv.1))
}

/// The command-line flags of an assignment, in order.
pub open spec fn flag_segs(kvs: KvSeq) -> Seq<Seq<char>> {
    kvs.map_values(|kv: (Seq<char>, Seq<char>)| flag_segment(kv.0, kv.1))
}

/// The identifier base of an assignment: its segments joined by `-`.
pub open spec fn id_base(kvs: KvSeq) -> Seq<char> {
    join_with(id_segs(kvs), '-')
}

/// The parameter string of an assignment: its flags joined by spaces.
pub open spec fn params_of(kvs: KvSeq) -> Seq<char> {
    join_with(flag_segs(kvs), ' ')
}

/// Unrolls a join one part at a time, as the building loops do.
pub proof fn lemma_join_take_step(parts: Seq<Seq<char>>, sep: char, j: int)
    requires
        0 <= j < parts.len(),
    ensures
        join_with(parts.take(j + 1), sep) == if j == 0 {
            parts[0]
        } else {
            join_with(parts.take(j), sep).push(sep) + parts[j]
        },
{
    let p = parts.take(j + 1);
    if j == 0 {
        assert(p.len() == 1);
        assert(p[0] == parts[0]);
    } else {
        assert(p.len() == j + 1);
        assert(p.drop_last() =~= parts.take(j));
        assert(p.last() == parts[j]);
    }
}

/// The full identifier of the `i`-th replica of an assignment.
pub open spec fn perm_id(kvs: KvSeq, i: nat) -> Seq<char> {
    id_base(kvs).push('_') + dec_digits(i)
}

/// Whether every key and value of an assignment avoids `-`, the segment
/// separator.  Identifier injectivity holds under this condition.
pub open spec fn kvs_dash_free(kvs: KvSeq) -> bool {
    forall|m: int|
        0 <= m < kvs.len() ==> sep_free(#[trigger] kvs[m].0, '-') && sep_free(kvs[m].1, '-')
}

/// In `p.push(sep) + l` with `l` free of `sep`, the suffix after the last
/// `sep` is exactly `l`: two such decompositions of equal strings have
/// suffixes of equal length.
proof fn lemma_sep_decomp_len(
    p1: Seq<char>,
    l1: Seq<char>,
    p2: Seq<char>,
    l2: Seq<char>,
    sep: char,
)
    requires
        p1.push(sep) + l1 == p2.push(sep) + l2,
        sep_free(l1, sep),
        sep_free(l2, sep),
    ensures
        l1.len() == l2.len(),
{
    let s = p1.push(sep) + l1;
    assert(s.len() == p1.len() + 1 + l1.len());
    assert((p2.push(sep) + l2).len() == p2.len() + 1 + l2.len());
    assert(s.len() == p2.len() + 1 + l2.len());
    if l1.len() < l2.len() {
        // the separator written by the first decomposition lands inside l2
        let i = p1.len() as int;
        assert(s[i] == sep);
        assert(i == p2.len() + (l2.len() - l1.len()));
        assert(s[i] == (p2.push(sep) + l2)[i]);
        assert(s[i] == l2[i - (p2.len() + 1)]);
        assert(false);
    }
    if l2.len() < l1.len() {
        let i = p2.len() as int;
        assert((p2.push(sep) + l2)[i] == sep);
        assert(s[i] == (p2.push(sep) + l2)[i]);
        assert(i == p1.len() + (l1.len() - l2.len()));
        assert(s[i] == l1[i - (p1.len() + 1)]);
        assert(false);
    }
}

/// With suffixes of equal length, both halves of the decomposition agree.
proof fn lemma_sep_decomp_eq(
    p1: Seq<char>,
    l1: Seq<char>,
    p2: Seq<char>,
    l2: Seq<char>,
    sep: char,
)
    requires
        p1.push(sep) + l1 == p2.push(sep) + l2,
        l1.len() == l2.len(),
    ensures
        p1 == p2,
        l1 == l2,
{
    let s = p1.push(sep) + l1;
    assert(s.len() == p1.len() + 1 + l1.len());
    assert((p2.push(sep) + l2).len() == p2.len() + 1 + l2.len());
    assert(p1.len() == p2.len());
    assert forall|i: int| 0 <= i < p1.len() implies p1[i] == p2[i] by {
        assert(s[i] == p1[i]);
        assert(s[i] == (p2.push(sep) + l2)[i]);
    }
    assert forall|i: int| 0 <= i < l1.len() implies l1[i] == l2[i] by {
        assert(s[p1.len() + 1 + i] == l1[i]);
        assert(s[p1.len() + 1 + i] == (p2.push(sep) + l2)[p2.len() + 1 + i]);
    }
    assert(p1 =~= p2);
    assert(l1 =~= l2);
}

/// Joining with a separator that no part contains is injective on part
/// lists of equal length.
proof fn lemma_join_injective(xs: Seq<Seq<char>>, ys: Seq<Seq<char>>, sep: char)
    requires
        xs.len() == ys.len(),
        forall|m: int| 0 <= m < xs.len() ==> sep_free(#[trigger] xs[m], sep),
        forall|m: int| 0 <= m < ys.len() ==> sep_free(#[trigger] ys[m], sep),
        join_with(xs, sep) == join_with(ys, sep),
    ensures
        xs == ys,
    decreases xs.len(),
{
    if xs.len() == 0 {
        assert(xs =~= ys);
    } else if xs.len() == 1 {
        assert(xs[0] == join_with(xs, sep));
        assert(ys[0] == join_with(ys, sep));
        assert(xs =~= ys);
    } else {
        let px = join_with(xs.drop_last(), sep);
        let py = join_with(ys.drop_last(), sep);
        lemma_sep_decomp_len(px, xs.last(), py, ys.last(), sep);
        lemma_sep_decomp_eq(px, xs.last(), py, ys.last(), sep);
        assert forall|m: int| 0 <= m < xs.drop_last().len() implies sep_free(
            #[trigger] xs.drop_last()[m],
            sep,
        ) by {
            assert(xs.drop_last()[m] == xs[m]);
        }
        assert forall|m: int| 0 <= m < ys.drop_last().len() implies sep_free(
            #[trigger] ys.drop_last()[m],
            sep,
        ) by {
            assert(ys.drop_last()[m] == ys[m]);
        }
        lemma_join_injective(xs.drop_last(), ys.drop_last(), sep);
        assert forall|m: int| 0 <= m < xs.len() implies xs[m] == ys[m] by {
            if m < xs.len() - 1 {
                assert(xs[m] == xs.drop_last()[m]);
                assert(ys[m] == ys.drop_last()[m]);
            } else {
                assert(xs[m] == xs.last());
                assert(ys[m] == ys.last());
            }
        }
        assert(xs =~= ys);
    }
}

/// An identifier segment with a known key pins down its value.
proof fn lemma_segment_same_key(k: Seq<char>, v1: Seq<char>, v2: Seq<char>)
    requires
        id_segment(k, v1) == id_segment(k, v2),
    ensures
        v1 == v2,
{
    let s1 = id_segment(k, v1);
    let s2 = id_segment(k, v2);
    assert(s1.len() == k.len() + 1 + v1.len());
    assert(s2.len() == k.len() + 1 + v2.len());
    assert forall|i: int| 0 <= i < v1.len() implies v1[i] == v2[i] by {
        assert(s1[k.len() + 1 + i] == v1[i]);
        assert(s2[k.len() + 1 + i] == v2[i]);
    }
    assert(v1 =~= v2);
}

/// Identifier bases are injective on assignments with pointwise-equal keys
/// whose keys and values avoid `-`.
proof fn lemma_id_base_injective(kvs1: KvSeq, kvs2: KvSeq)
    requires
        kvs1.len() == kvs2.len(),
        forall|m: int| 0 <= m < kvs1.len() ==> (#[trigger] kvs1[m]).0 == (#[trigger] kvs2[m]).0,
        kvs_dash_free(kvs1),
        kvs_dash_free(kvs2),
        id_base(kvs1) == id_base(kvs2),
    ensures
        kvs1 == kvs2,
{
    let xs = id_segs(kvs1);
    let ys = id_segs(kvs2);
    assert forall|m: int| 0 <= m < xs.len() implies sep_free(#[trigger] xs[m], '-') by {
        assert(xs[m] == id_segment(kvs1[m].0, kvs1[m].1));
        assert forall|i: int| 0 <= i < xs[m].len() implies xs[m][i] != '-' by {
            let k = kvs1[m].0;
            let v = kvs1[m].1;
            if i < k.len() {
                assert(xs[m][i] == k[i]);
            } else if i == k.len() {
                assert(xs[m][i] == '=');
            } else {
                assert(xs[m][i] == v[i - k.len() - 1]);
            }
        }
    }
    assert forall|m: int| 0 <= m < ys.len() implies sep_free(#[trigger] ys[m], '-') by {
        assert(ys[m] == id_segment(kvs2[m].0, kvs2[m].1));
        assert forall|i: int| 0 <= i < ys[m].len() implies ys[m][i] != '-' by {
            let k = kvs2[m].0;
            let v = kvs2[m].1;
            if i < k.len() {
                assert(ys[m][i] == k[i]);
            } else if i == k.len() {
                assert(ys[m][i] == '=');
            } else {
                assert(ys[m][i] == v[i - k.len() - 1]);
            }
        }
    }
    lemma_join_injective(xs, ys, '-');
    assert forall|m: int| 0 <= m < kvs1.len() implies kvs1[m] == kvs2[m] by {
        assert(xs[m] == ys[m]);
        assert(id_segment(kvs1[m].0, kvs1[m].1) == id_segment(kvs2[m].0, kvs2[m].1));
        lemma_segment_same_key(kvs1[m].0, kvs1[m].1, kvs2[m].1);
    }
    assert(kvs1 =~= kvs2);
}

/// A join avoids any character that the separator and every part avoid.
proof fn lemma_join_avoids(parts: Seq<Seq<char>>, sep: char, other: char)
    requires
        sep != other,
        forall|m: int| 0 <= m < parts.len() ==> sep_free(#[trigger] parts[m], other),
    ensures
        sep_free(join_with(parts, sep), other),
    decreases parts.len(),
{
    if parts.len() == 0 {
    } else if parts.len() == 1 {
        assert(join_with(parts, sep) == parts[0]);
    } else {
        assert forall|m: int| 0 <= m < parts.drop_last().len() implies sep_free(
            #[trigger] parts.drop_last()[m],
            other,
        ) by {
            assert(parts.drop_last()[m] == parts[m]);
        }
        lemma_join_avoids(parts.drop_last(), sep, other);
        let p = join_with(parts.drop_last(), sep);
        let s = p.push(sep) + parts.last();
        assert forall|i: int| 0 <= i < s.len() implies s[i] != other by {
            if i < p.len() {
                assert(s[i] == p[i]);
            } else if i == p.len() {
                assert(s[i] == sep);
            } else {
                assert(s[i] == parts.last()[i - p.len() - 1]);
                assert(parts.last() == parts[parts.len() - 1]);
            }
        }
    }
}

/// A full identifier can always name a result directory: it is never
/// empty, and it contains no path separator as long as no key or value
/// contains one.
pub proof fn lemma_perm_id_directory_safe(kvs: KvSeq, i: nat)
    requires
        forall|m: int|
            0 <= m < kvs.len() ==> sep_free((#[trigger] kvs[m]).0, '/') && sep_free(kvs[m].1, '/'),
    ensures
        perm_id(kvs, i).len() >= 2,
        sep_free(perm_id(kvs, i), '/'),
{
    crate::decimal::lemma_dec_digits_len(i);
    crate::decimal::lemma_dec_digits_are_digits(i);
    assert forall|m: int| 0 <= m < id_segs(kvs).len() implies sep_free(
        #[trigger] id_segs(kvs)[m],
        '/',
    ) by {
        let seg = id_segs(kvs)[m];
        assert(seg == id_segment(kvs[m].0, kvs[m].1));
        let k = kvs[m].0;
        let v = kvs[m].1;
        assert forall|i2: int| 0 <= i2 < seg.len() implies seg[i2] != '/' by {
            if i2 < k.len() {
                assert(seg[i2] == k[i2]);
            } else if i2 == k.len() {
                assert(seg[i2] == '=');
            } else {
                assert(seg[i2] == v[i2 - k.len() - 1]);
            }
        }
    }
    lemma_join_avoids(id_segs(kvs), '-', '/');
    let base = id_base(kvs);
    let full = perm_id(kvs, i);
    assert forall|i2: int| 0 <= i2 < full.len() implies full[i2] != '/' by {
        if i2 < base.len() {
            assert(full[i2] == base[i2]);
        } else if i2 == base.len() {
            assert(full[i2] == '_');
        } else {
            assert(full[i2] == dec_digits(i)[i2 - base.len() - 1]);
            assert(is_digit_char(dec_digits(i)[i2 - base.len() - 1]));
        }
    }
}

/// Full identifiers are injective on (assignment, repeat index) pairs, for
/// assignments with pointwise-equal keys whose keys and values avoid `-`.
pub proof fn lemma_perm_id_injective(kvs1: KvSeq, i1: nat, kvs2: KvSeq, i2: nat)
    requires
        kvs1.len() == kvs2.len(),
        forall|m: int| 0 <= m < kvs1.len() ==> (#[trigger] kvs1[m]).0 == (#[trigger] kvs2[m]).0,
        kvs_dash_free(kvs1),
        kvs_dash_free(kvs2),
        perm_id(kvs1, i1) == perm_id(kvs2, i2),
    ensures
        kvs1 == kvs2,
        i1 == i2,
{
    lemma_dec_digits_are_digits(i1);
    lemma_dec_digits_are_digits(i2);
    assert(sep_free(dec_digits(i1), '_')) by {
        assert forall|i: int| 0 <= i < dec_digits(i1).len() implies dec_digits(i1)[i] != '_' by {
            assert(is_digit_char(dec_digits(i1)[i]));
        }
    }
    assert(sep_free(dec_digits(i2), '_')) by {
        assert forall|i: int| 0 <= i < dec_digits(i2).len() implies dec_digits(i2)[i] != '_' by {
            assert(is_digit_char(dec_digits(i2)[i]));
        }
    }
    lemma_sep_decomp_len(id_base(kvs1), dec_digits(i1), id_base(kvs2), dec_digits(i2), '_');
    lemma_sep_decomp_eq(id_base(kvs1), dec_digits(i1), id_base(kvs2), dec_digits(i2), '_');
    lemma_dec_digits_injective(i1, i2);
    lemma_id_base_injective(kvs1, kvs2);
}

} // verus!
