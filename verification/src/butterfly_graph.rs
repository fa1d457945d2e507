//! Graphs of the butterfly transform, and that they compute it.

use crate::arith::{power_of_two, twos_of_power};
use crate::butterfly::{
    after_stages, as_complex, bit_reverse, butterfly_of, complex_at, conjugated, forward_rows,
    inverse_rows, inverse_transformed, lemma_place_of, lemma_places, lemma_stage_bound,
    lemma_stride, lemma_transformed_len, permuted, power, reversed, source_place, stage_value,
    staged, stages_of, transformed, twiddle_place, upper_place, Complex,
};
use crate::config::FftLearnConfig;
use crate::fourier::{all_valid, Ring};
use crate::graph::{
    added, inner_of, multiplied, narrowed, negated, repeats_in, side_by_side, size_of, small,
    subtracted, Env, GraphOp, GraphPlan,
};
use crate::scalar::Scalar;
use vstd::arithmetic::power2::pow2;
use vstd::prelude::*;

verus! {

// ---------------------------------------------------------------------------
// Shapes
// ---------------------------------------------------------------------------

pub(crate) proof fn lemma_two(a: usize, b: usize)
    ensures
        size_of(seq![a, b]) == a * b,
        inner_of(seq![a, b], 0) == b,
        inner_of(seq![a, b], 1) == 1,
        a >= 1 && b >= 1 && a * b <= i64::MAX ==> small(seq![a, b]),
{
    let s = seq![a, b];
    reveal_with_fuel(inner_of, 4);
    assert(inner_of(s, 1) == 1);
    assert(inner_of(s, 0) == b * inner_of(s, 1));
    assert(inner_of(s, -1) == a * inner_of(s, 0));
    assert(b * 1 == b) by (nonlinear_arith);
}

pub(crate) proof fn lemma_three(a: usize, b: usize, c: usize)
    ensures
        size_of(seq![a, b, c]) == a * (b * c),
        inner_of(seq![a, b, c], 0) == b * c,
        inner_of(seq![a, b, c], 1) == c,
        inner_of(seq![a, b, c], 2) == 1,
        a >= 1 && b >= 1 && c >= 1 && a * (b * c) <= i64::MAX ==> small(seq![a, b, c]),
{
    let s = seq![a, b, c];
    reveal_with_fuel(inner_of, 5);
    assert(inner_of(s, 2) == 1);
    assert(inner_of(s, 1) == c * inner_of(s, 2));
    assert(c * 1 == c) by (nonlinear_arith);
    assert(inner_of(s, 0) == b * inner_of(s, 1));
    assert(inner_of(s, -1) == a * inner_of(s, 0));
}

proof fn lemma_four(a: usize, b: usize, c: usize, d: usize)
    ensures
        size_of(seq![a, b, c, d]) == a * (b * (c * d)),
        inner_of(seq![a, b, c, d], 2) == d,
        a >= 1 && b >= 1 && c >= 1 && d >= 1 && a * (b * (c * d)) <= i64::MAX ==> small(
            seq![a, b, c, d],
        ),
{
    let s = seq![a, b, c, d];
    reveal_with_fuel(inner_of, 6);
    assert(inner_of(s, 3) == 1);
    assert(inner_of(s, 2) == d * inner_of(s, 3));
    assert(d * 1 == d) by (nonlinear_arith);
    assert(inner_of(s, 1) == c * inner_of(s, 2));
    assert(inner_of(s, 0) == b * inner_of(s, 1));
    assert(inner_of(s, -1) == a * inner_of(s, 0));
}

/// Whether a batch of rows can be laid out: it is not empty, and its numbers can be counted.
pub open spec fn countable_rows(batch: usize, n: usize) -> bool {
    batch >= 1 && n >= 1 && batch * n <= usize::MAX && batch * n <= i64::MAX
}

// ---------------------------------------------------------------------------
// Planes
// ---------------------------------------------------------------------------

/// The numbers at even places.
pub open spec fn even_places<T>(v: Seq<T>) -> Seq<T> {
    Seq::new((v.len() / 2) as nat, |p: int| v[2 * p])
}

/// The numbers at odd places.
pub open spec fn odd_places<T>(v: Seq<T>) -> Seq<T> {
    Seq::new((v.len() / 2) as nat, |p: int| v[2 * p + 1])
}

/// Two planes, number by number in turn.
pub open spec fn interleaved<T>(re: Seq<T>, im: Seq<T>) -> Seq<T> {
    Seq::new(
        (2 * re.len()) as nat,
        |p: int|
            if p % 2 == 0 {
                re[p / 2]
            } else {
                im[p / 2]
            },
    )
}

proof fn lemma_narrow_pairs<T>(v: Seq<T>)
    ensures
        narrowed(v, 2, 1, 0, 1) == even_places(v),
        narrowed(v, 2, 1, 1, 1) == odd_places(v),
{
    assert((1nat * 1nat) as int == 1) by (nonlinear_arith);
    assert((2nat * 1nat) as int == 2) by (nonlinear_arith);
    assert(narrowed(v, 2, 1, 0, 1) =~= even_places(v));
    assert(narrowed(v, 2, 1, 1, 1) =~= odd_places(v));
}

pub(crate) proof fn lemma_join_pairs<T>(re: Seq<T>, im: Seq<T>)
    requires
        re.len() == im.len(),
    ensures
        side_by_side(seq![re, im], 1) == interleaved(re, im),
{
    let s = side_by_side(seq![re, im], 1);
    assert(seq![re, im][0] == re);
    assert(seq![re, im][1] == im);
    assert forall|p: int| 0 <= p < s.len() implies s[p] == interleaved(re, im)[p] by {
        assert(p / 1 == p);
        assert(p % 1 == 0);
        assert(p % 2 == 0 || p % 2 == 1);
    }
    assert(s =~= interleaved(re, im));
}

/// The real and the imaginary plane of a tensor of interleaved complex numbers.
pub fn split_complex_planes<T: Scalar>(
    g: &mut GraphPlan<T>,
    state: usize,
    batch: usize,
    n: usize,
) -> (r: (usize, usize))
    requires
        old(g).well_formed(),
        state < old(g).nodes@.len(),
        old(g).shape(state as int) == seq![batch, n, 2usize],
        countable_rows(batch, n),
    ensures
        final(g).well_formed(),
        final(g).extends(*old(g)),
        r.0 < final(g).nodes@.len(),
        r.1 < final(g).nodes@.len(),
        final(g).shape(r.0 as int) == seq![batch, n],
        final(g).shape(r.1 as int) == seq![batch, n],
        forall|env: Env<T>| #[trigger]
            final(g).value(env, r.0 as int) == even_places(old(g).value(env, state as int)),
        forall|env: Env<T>| #[trigger]
            final(g).value(env, r.1 as int) == odd_places(old(g).value(env, state as int)),
{
    let ghost start = *g;
    proof {
        lemma_three(batch, n, 2);
        lemma_three(batch, n, 1);
        lemma_two(batch, n);
        assert(batch * (n * 1) == batch * n) by (nonlinear_arith);
        assert(seq![batch, n, 2usize].update(2, 1usize) =~= seq![batch, n, 1usize]);
    }
    let re_n = g.narrow(state, 2, 0, 1);
    let ghost g1 = *g;
    let im_n = g.narrow(state, 2, 1, 1);
    let ghost g2 = *g;
    let plane = vec![batch, n];
    assert(plane@ =~= seq![batch, n]);
    let re = g.reshape(re_n, plane);
    let ghost g3 = *g;
    let plane = vec![batch, n];
    assert(plane@ =~= seq![batch, n]);
    let im = g.reshape(im_n, plane);
    proof {
        assert forall|env: Env<T>| #[trigger] g.value(env, re as int) == even_places(
            start.value(env, state as int),
        ) by {
            assert(g.value(env, re as int) == g3.value(env, re as int));
            assert(g3.value(env, re as int) == g2.value(env, re_n as int));
            assert(g2.value(env, re_n as int) == g1.value(env, re_n as int));
            lemma_narrow_pairs(start.value(env, state as int));
        }
        assert forall|env: Env<T>| #[trigger] g.value(env, im as int) == odd_places(
            start.value(env, state as int),
        ) by {
            assert(g.value(env, im as int) == g3.value(env, im_n as int));
            assert(g3.value(env, im_n as int) == g2.value(env, im_n as int));
            assert(g1.value(env, state as int) == start.value(env, state as int));
            lemma_narrow_pairs(start.value(env, state as int));
        }
        lemma_extends(start, g1, g2);
        lemma_extends(start, g2, g3);
        lemma_extends(start, g3, *g);
    }
    (re, im)
}

/// A graph that extends one that extends another extends it too.
pub(crate) proof fn lemma_extends<T: Scalar>(a: GraphPlan<T>, b: GraphPlan<T>, c: GraphPlan<T>)
    requires
        b.extends(a),
        c.extends(b),
    ensures
        c.extends(a),
{
    assert forall|i: int| 0 <= i < a.nodes@.len() implies #[trigger] c.nodes@[i] == a.nodes@[i] by {
        assert(b.nodes@[i] == a.nodes@[i]);
    }
    assert forall|env: Env<T>, i: int| 0 <= i < a.nodes@.len() implies #[trigger] c.value(env, i)
        == a.value(env, i) by {
        assert(c.value(env, i) == b.value(env, i));
        assert(b.value(env, i) == a.value(env, i));
    }
}

/// Two planes as a tensor of interleaved complex numbers.
pub fn merge_complex_planes<T: Scalar>(
    g: &mut GraphPlan<T>,
    re: usize,
    im: usize,
    batch: usize,
    n: usize,
) -> (r: usize)
    requires
        old(g).well_formed(),
        re < old(g).nodes@.len(),
        im < old(g).nodes@.len(),
        old(g).shape(re as int) == seq![batch, n],
        old(g).shape(im as int) == seq![batch, n],
        countable_rows(batch, n),
    ensures
        final(g).well_formed(),
        final(g).extends(*old(g)),
        r < final(g).nodes@.len(),
        final(g).shape(r as int) == seq![batch, n, 2usize],
        forall|env: Env<T>|
            old(g).value(env, re as int).len() == old(g).value(env, im as int).len()
                ==> #[trigger] final(g).value(env, r as int) == interleaved(
                old(g).value(env, re as int),
                old(g).value(env, im as int),
            ),
{
    let ghost start = *g;
    proof {
        lemma_three(batch, n, 1);
        lemma_two(batch, n);
        assert(batch * (n * 1) == batch * n) by (nonlinear_arith);
        assert(seq![batch, n, 1usize].update(2, 2usize) =~= seq![batch, n, 2usize]);
    }
    let shape = vec![batch, n, 1];
    assert(shape@ =~= seq![batch, n, 1usize]);
    let re3 = g.reshape(re, shape);
    let ghost g1 = *g;
    let shape = vec![batch, n, 1];
    assert(shape@ =~= seq![batch, n, 1usize]);
    let im3 = g.reshape(im, shape);
    let ghost g2 = *g;
    let parts = vec![re3, im3];
    let ghost listed = parts@;
    assert(listed =~= seq![re3, im3]);
    let r = g.concat(parts, 2);
    proof {
        lemma_extends(start, g1, g2);
        lemma_extends(start, g2, *g);
        assert forall|env: Env<T>|
            start.value(env, re as int).len() == start.value(env, im as int).len() implies
            #[trigger] g.value(env, r as int) == interleaved(
            start.value(env, re as int),
            start.value(env, im as int),
        ) by {
            let a = start.value(env, re as int);
            let b = start.value(env, im as int);
            assert(g1.value(env, re3 as int) == a);
            assert(g2.value(env, re3 as int) == a);
            assert(g1.value(env, im as int) == b);
            assert(g2.value(env, im3 as int) == b);
            assert(g2.values(env, listed) =~= seq![a, b]);
            lemma_join_pairs(a, b);
        }
    }
    r
}

// ---------------------------------------------------------------------------
// Stages
// ---------------------------------------------------------------------------

/// A row of two planes as interleaved complex numbers.
pub open spec fn row_of_planes<T>(re: Seq<T>, im: Seq<T>, row: int, n: int) -> Seq<T> {
    Seq::new(
        (2 * n) as nat,
        |i: int|
            if i % 2 == 0 {
                re[row * n + i / 2]
            } else {
                im[row * n + i / 2]
            },
    )
}

/// Two planes after a stage: every row goes through it.
pub open spec fn stage_planes<T: Scalar>(
    re: Seq<T>,
    im: Seq<T>,
    tw: Seq<T>,
    n: int,
    stage: nat,
) -> (Seq<T>, Seq<T>) {
    (
        Seq::new(
            re.len(),
            |p: int| stage_value(row_of_planes(re, im, p / n, n), tw, n, stage, p % n).re,
        ),
        Seq::new(
            im.len(),
            |p: int| stage_value(row_of_planes(re, im, p / n, n), tw, n, stage, p % n).im,
        ),
    )
}

/// The real or imaginary parts of a stage's twiddles.
pub open spec fn stage_twiddles<T>(tw: Seq<T>, stage: int, half: int, part: int) -> Seq<T> {
    Seq::new(half as nat, |b: int| tw[2 * twiddle_place(stage, b, half) + part])
}

proof fn lemma_stage_slice<T>(v: Seq<T>, stages: nat, half: nat, stage: nat)
    requires
        v.len() == stages * (half * 2),
        half > 0,
        stage < stages,
    ensures
        even_places(narrowed(v, stages, half * 2, stage, 1)) == stage_twiddles(
            v,
            stage as int,
            half as int,
            0,
        ),
        odd_places(narrowed(v, stages, half * 2, stage, 1)) == stage_twiddles(
            v,
            stage as int,
            half as int,
            1,
        ),
{
    let block = half * 2;
    let s = narrowed(v, stages, block, stage, 1);
    assert(1 * block == block) by (nonlinear_arith);
    assert(stages * block > 0) by (nonlinear_arith)
        requires
            stages > 0,
            block > 0,
    ;
    assert(v.len() as int / (stages * block) as int == 1) by {
        vstd::arithmetic::div_mod::lemma_div_by_self((stages * block) as int);
    }
    assert(s.len() == block) by {
        assert(1 * block as int == block) by (nonlinear_arith);
    }
    assert forall|p: int| 0 <= p < block implies #[trigger] s[p] == v[stage * block + p] by {
        vstd::arithmetic::div_mod::lemma_small_mod(p as nat, block);
        vstd::arithmetic::div_mod::lemma_basic_div(p, block as int);
        assert(0 * (stages * block) == 0) by (nonlinear_arith);
    }
    assert forall|b: int| 0 <= b < half implies 2 * twiddle_place(
        stage as int,
        b,
        half as int,
    ) == #[trigger] (stage * block + 2 * b) by {
        assert(2 * (stage * half + b) == stage * (half * 2) + 2 * b) by (nonlinear_arith);
    }
    assert(even_places(s) =~= stage_twiddles(v, stage as int, half as int, 0)) by {
        assert forall|b: int| 0 <= b < half implies even_places(s)[b] == stage_twiddles(
            v,
            stage as int,
            half as int,
            0,
        )[b] by {
            assert(2 * twiddle_place(stage as int, b, half as int) == stage * block + 2 * b);
            assert(s[2 * b] == v[stage * block + 2 * b]);
        }
    }
    assert(odd_places(s) =~= stage_twiddles(v, stage as int, half as int, 1)) by {
        assert forall|b: int| 0 <= b < half implies odd_places(s)[b] == stage_twiddles(
            v,
            stage as int,
            half as int,
            1,
        )[b] by {
            assert(2 * twiddle_place(stage as int, b, half as int) == stage * block + 2 * b);
            assert(s[2 * b + 1] == v[stage * block + (2 * b + 1)]);
        }
    }
}

/// The twiddles of a stage, cut out of the packed tensor of all: real parts and imaginary parts, one
/// for each butterfly.
pub fn build_stage_twiddles<T: Scalar>(
    g: &mut GraphPlan<T>,
    packed: usize,
    stage: usize,
    stages: usize,
    groups: usize,
    stride: usize,
) -> (r: (usize, usize))
    requires
        old(g).well_formed(),
        packed < old(g).nodes@.len(),
        groups * stride <= usize::MAX,
        groups * stride <= i64::MAX,
        groups * stride > 0,
        old(g).shape(packed as int) == seq![stages, (groups * stride) as usize, 2usize],
        stage < stages,
    ensures
        final(g).well_formed(),
        final(g).extends(*old(g)),
        r.0 < final(g).nodes@.len(),
        r.1 < final(g).nodes@.len(),
        final(g).shape(r.0 as int) == seq![1usize, groups, 1usize, stride],
        final(g).shape(r.1 as int) == seq![1usize, groups, 1usize, stride],
        forall|env: Env<T>|
            old(g).value(env, packed as int).len() == stages * ((groups * stride) * 2)
                ==> #[trigger] final(g).value(env, r.0 as int) == stage_twiddles(
                old(g).value(env, packed as int),
                stage as int,
                groups * stride,
                0,
            ),
        forall|env: Env<T>|
            old(g).value(env, packed as int).len() == stages * ((groups * stride) * 2)
                ==> #[trigger] final(g).value(env, r.1 as int) == stage_twiddles(
                old(g).value(env, packed as int),
                stage as int,
                groups * stride,
                1,
            ),
{
    let ghost start = *g;
    let half: usize = groups * stride;
    proof {
        lemma_three(stages, half, 2);
        lemma_three(1, half, 2);
        lemma_three(1, half, 1);
        lemma_four(1, groups, 1, stride);
        assert(groups >= 1 && stride >= 1) by (nonlinear_arith)
            requires
                groups * stride > 0,
                groups >= 0,
                stride >= 0,
        ;
        assert(seq![stages, half, 2usize].update(0, 1usize) =~= seq![1usize, half, 2usize]);
        assert(seq![1usize, half, 2usize].update(2, 1usize) =~= seq![1usize, half, 1usize]);
        assert(1 * (groups * (1 * stride)) == 1 * (half * 1)) by (nonlinear_arith)
            requires
                half == groups * stride,
        ;
    }
    let slice = g.narrow(packed, 0, stage, 1);
    let ghost g1 = *g;
    let re = g.narrow(slice, 2, 0, 1);
    let ghost g2 = *g;
    let im = g.narrow(slice, 2, 1, 1);
    let ghost g3 = *g;
    let shape = vec![1, groups, 1, stride];
    assert(shape@ =~= seq![1usize, groups, 1usize, stride]);
    let w_re = g.reshape(re, shape);
    let ghost g4 = *g;
    let shape = vec![1, groups, 1, stride];
    assert(shape@ =~= seq![1usize, groups, 1usize, stride]);
    let w_im = g.reshape(im, shape);
    proof {
        lemma_extends(start, g1, g2);
        lemma_extends(start, g2, g3);
        lemma_extends(start, g3, g4);
        lemma_extends(start, g4, *g);
        assert forall|env: Env<T>|
            start.value(env, packed as int).len() == stages * ((groups * stride) * 2) implies
            #[trigger] g.value(env, w_re as int) == stage_twiddles(
            start.value(env, packed as int),
            stage as int,
            groups * stride,
            0,
        ) by {
            let v = start.value(env, packed as int);
            lemma_stage_slice(v, stages as nat, half as nat, stage as nat);
            lemma_narrow_pairs(g1.value(env, slice as int));
            assert(g.value(env, w_re as int) == g4.value(env, w_re as int));
            assert(g4.value(env, w_re as int) == g3.value(env, re as int));
            assert(g3.value(env, re as int) == g2.value(env, re as int));
        }
        assert forall|env: Env<T>|
            start.value(env, packed as int).len() == stages * ((groups * stride) * 2) implies
            #[trigger] g.value(env, w_im as int) == stage_twiddles(
            start.value(env, packed as int),
            stage as int,
            groups * stride,
            1,
        ) by {
            let v = start.value(env, packed as int);
            lemma_stage_slice(v, stages as nat, half as nat, stage as nat);
            lemma_narrow_pairs(g1.value(env, slice as int));
            assert(g.value(env, w_im as int) == g4.value(env, im as int));
            assert(g4.value(env, im as int) == g3.value(env, im as int));
            assert(g2.value(env, slice as int) == g1.value(env, slice as int));
        }
    }
    (w_re, w_im)
}

/// The upper or lower numbers of a plane's butterflies.
pub open spec fn wing<T>(v: Seq<T>, stride: int, lower: int) -> Seq<T> {
    Seq::new(
        (v.len() / 2) as nat,
        |q: int| v[(q / stride) * (2 * stride) + lower * stride + q % stride],
    )
}

/// A plane made of the upper and the lower numbers of its butterflies.
pub open spec fn winged<T>(top: Seq<T>, bottom: Seq<T>, stride: int) -> Seq<T> {
    Seq::new(
        (2 * top.len()) as nat,
        |p: int|
            {
                let q = (p / (2 * stride)) * stride + p % stride;
                if (p / stride) % 2 == 0 {
                    top[q]
                } else {
                    bottom[q]
                }
            },
    )
}

proof fn lemma_wing<T>(v: Seq<T>, stride: nat)
    requires
        stride > 0,
        v.len() % (2 * stride) == 0,
    ensures
        narrowed(v, 2, stride, 0, 1) == wing(v, stride as int, 0),
        narrowed(v, 2, stride, 1, 1) == wing(v, stride as int, 1),
{
    assert(1 * stride == stride) by (nonlinear_arith);
    let two = 2 * stride;
    let q = v.len() as int / two as int;
    vstd::arithmetic::div_mod::lemma_fundamental_div_mod(v.len() as int, two as int);
    assert(v.len() == two * q);
    assert(q * stride as int == v.len() / 2) by (nonlinear_arith)
        requires
            v.len() == two * q,
            two == 2 * stride,
    ;
    assert(0 * stride == 0) by (nonlinear_arith);
    assert(narrowed(v, 2, stride, 0, 1) =~= wing(v, stride as int, 0));
    assert(narrowed(v, 2, stride, 1, 1) =~= wing(v, stride as int, 1));
}

proof fn lemma_winged<T>(top: Seq<T>, bottom: Seq<T>, stride: int)
    requires
        stride > 0,
        top.len() == bottom.len(),
    ensures
        side_by_side(seq![top, bottom], stride) == winged(top, bottom, stride),
{
    let s = side_by_side(seq![top, bottom], stride);
    assert(seq![top, bottom][0] == top);
    assert(seq![top, bottom][1] == bottom);
    assert(stride * 2 == 2 * stride);
    assert(s =~= winged(top, bottom, stride));
}

/// A place stands in the upper or the lower wing of its group.
proof fn lemma_upper_or_lower(c: int, stride: int)
    requires
        stride > 0,
        c >= 0,
    ensures
        c / stride == if c % (2 * stride) < stride {
            2 * (c / (2 * stride))
        } else {
            2 * (c / (2 * stride)) + 1
        },
{
    let two = 2 * stride;
    let cg = c / two;
    let cm = c % two;
    vstd::arithmetic::div_mod::lemma_fundamental_div_mod(c, two);
    vstd::arithmetic::div_mod::lemma_mod_bound(c, two);
    if cm < stride {
        assert(c == stride * (2 * cg) + cm) by (nonlinear_arith)
            requires
                c == two * cg + cm,
                two == 2 * stride,
        ;
        vstd::arithmetic::div_mod::lemma_fundamental_div_mod_converse(c, stride, 2 * cg, cm);
    } else {
        assert(c == stride * (2 * cg + 1) + (cm - stride)) by (nonlinear_arith)
            requires
                c == two * cg + cm,
                two == 2 * stride,
        ;
        vstd::arithmetic::div_mod::lemma_fundamental_div_mod_converse(
            c,
            stride,
            2 * cg + 1,
            cm - stride,
        );
    }
}

/// Where a place of a plane finds its butterfly.
proof fn lemma_plane_place(p: int, n: int, stride: int, rows: int)
    requires
        stride > 0,
        n > 0,
        n % 2 == 0,
        (n / 2) % stride == 0,
        0 <= p < rows * n,
    ensures
        ({
            let half = n / 2;
            let row = p / n;
            let c = p % n;
            let b = butterfly_of(c, stride);
            let q = (p / (2 * stride)) * stride + p % stride;
            &&& 0 <= row < rows
            &&& 0 <= b < half
            &&& q == row * half + b
            &&& 0 <= q < rows * half
            &&& q % half == b
            &&& (q / stride) * (2 * stride) + q % stride == row * n + upper_place(b, stride)
            &&& ((p / stride) % 2 == 0) == (c % (2 * stride) < stride)
            &&& 0 <= upper_place(b, stride)
            &&& upper_place(b, stride) + stride < n
            &&& row * n + n <= rows * n
            &&& 0 <= row * n
        }),
{
    let half = n / 2;
    let row = p / n;
    let c = p % n;
    let two = 2 * stride;
    let groups = half / stride;
    vstd::arithmetic::div_mod::lemma_fundamental_div_mod(p, n);
    vstd::arithmetic::div_mod::lemma_fundamental_div_mod(half, stride);
    assert(half == stride * groups);
    assert(n == two * groups) by (nonlinear_arith)
        requires
            n == 2 * half,
            half == stride * groups,
            two == 2 * stride,
    ;
    assert(row < rows) by (nonlinear_arith)
        requires
            p == n * row + c,
            p < rows * n,
            c >= 0,
            n > 0,
    ;
    assert(row >= 0) by (nonlinear_arith)
        requires
            p == n * row + c,
            p >= 0,
            c < n,
            n > 0,
    ;
    lemma_place_of(c, stride, half);
    let b = butterfly_of(c, stride);
    lemma_places(b, stride, half);
    // Along the pairs of groups.
    let cg = c / two;
    let cm = c % two;
    vstd::arithmetic::div_mod::lemma_fundamental_div_mod(c, two);
    assert(p == two * (row * groups + cg) + cm) by (nonlinear_arith)
        requires
            p == n * row + c,
            n == two * groups,
            c == two * cg + cm,
    ;
    vstd::arithmetic::div_mod::lemma_fundamental_div_mod_converse(
        p,
        two,
        row * groups + cg,
        cm,
    );
    // Along the groups.
    let cs = c / stride;
    let ck = c % stride;
    vstd::arithmetic::div_mod::lemma_fundamental_div_mod(c, stride);
    assert(p == stride * (row * (2 * groups) + cs) + ck) by (nonlinear_arith)
        requires
            p == n * row + c,
            n == two * groups,
            two == 2 * stride,
            c == stride * cs + ck,
    ;
    vstd::arithmetic::div_mod::lemma_fundamental_div_mod_converse(
        p,
        stride,
        row * (2 * groups) + cs,
        ck,
    );
    let q = (p / two) * stride + p % stride;
    assert(q == row * half + b) by (nonlinear_arith)
        requires
            q == (row * groups + cg) * stride + ck,
            b == cg * stride + ck,
            half == stride * groups,
    ;
    assert(row * half + half <= rows * half) by (nonlinear_arith)
        requires
            row + 1 <= rows,
            half >= 0,
    ;
    assert(0 <= row * half) by (nonlinear_arith)
        requires
            row >= 0,
            half >= 0,
    ;
    assert(q == half * row + b) by (nonlinear_arith)
        requires
            q == row * half + b,
    ;
    vstd::arithmetic::div_mod::lemma_fundamental_div_mod_converse(q, half, row, b);
    // The upper place.
    let bg = b / stride;
    let bk = b % stride;
    vstd::arithmetic::div_mod::lemma_fundamental_div_mod(b, stride);
    assert(q == stride * (row * groups + bg) + bk) by (nonlinear_arith)
        requires
            q == row * half + b,
            half == stride * groups,
            b == stride * bg + bk,
    ;
    vstd::arithmetic::div_mod::lemma_fundamental_div_mod_converse(
        q,
        stride,
        row * groups + bg,
        bk,
    );
    assert((row * groups + bg) * two + bk == row * n + (bg * two + bk)) by (nonlinear_arith)
        requires
            n == two * groups,
    ;
    // Upper or lower.
    assert((p / stride) % 2 == cs % 2) by {
        assert(row * (2 * groups) == 2 * (row * groups)) by (nonlinear_arith);
        assert(p / stride == 2 * (row * groups) + cs);
    }
    vstd::arithmetic::div_mod::lemma_mod_bound(c, two);
    lemma_upper_or_lower(c, stride);
    assert(row * n + n <= rows * n) by (nonlinear_arith)
        requires
            row + 1 <= rows,
            n >= 0,
    ;
    assert(0 <= row * n) by (nonlinear_arith)
        requires
            row >= 0,
            n >= 0,
    ;
}

/// Wings, turned, added and subtracted, and joined again make a stage.
proof fn lemma_stage_of_wings<T: Scalar>(
    re: Seq<T>,
    im: Seq<T>,
    tw: Seq<T>,
    n_fft: usize,
    stage: nat,
    rows: nat,
)
    requires
        n_fft > 0,
        stage < stages_of(n_fft),
        re.len() == rows * n_fft,
        im.len() == rows * n_fft,
    ensures
        ({
            let n = n_fft as int;
            let stride = pow2(stage) as int;
            let half = n / 2;
            let w_re = stage_twiddles(tw, stage as int, half, 0);
            let w_im = stage_twiddles(tw, stage as int, half, 1);
            let a_re = wing(re, stride, 0);
            let b_re = wing(re, stride, 1);
            let a_im = wing(im, stride, 0);
            let b_im = wing(im, stride, 1);
            let t_re = subtracted(multiplied(b_re, w_re), multiplied(b_im, w_im));
            let t_im = added(multiplied(b_re, w_im), multiplied(b_im, w_re));
            let out = stage_planes(re, im, tw, n, stage);
            &&& winged(added(a_re, t_re), subtracted(a_re, t_re), stride) == out.0
            &&& winged(added(a_im, t_im), subtracted(a_im, t_im), stride) == out.1
        }),
{
    let n = n_fft as int;
    let stride = pow2(stage) as int;
    let half = n / 2;
    lemma_stride(n_fft, stage);
    let w_re = stage_twiddles(tw, stage as int, half, 0);
    let w_im = stage_twiddles(tw, stage as int, half, 1);
    let a_re = wing(re, stride, 0);
    let b_re = wing(re, stride, 1);
    let a_im = wing(im, stride, 0);
    let b_im = wing(im, stride, 1);
    let t_re = subtracted(multiplied(b_re, w_re), multiplied(b_im, w_im));
    let t_im = added(multiplied(b_re, w_im), multiplied(b_im, w_re));
    let out = stage_planes(re, im, tw, n, stage);
    let x = winged(added(a_re, t_re), subtracted(a_re, t_re), stride);
    let y = winged(added(a_im, t_im), subtracted(a_im, t_im), stride);
    let total = rows * n;
    assert(rows * n == 2 * (rows * half)) by (nonlinear_arith)
        requires
            n == 2 * half,
    ;
    assert(x.len() == total);
    assert(y.len() == total);
    assert forall|p: int| 0 <= p < total implies x[p] == out.0[p] && y[p] == out.1[p] by {
        lemma_plane_place(p, n, stride, rows as int);
        let row = p / n;
        let c = p % n;
        let b = butterfly_of(c, stride);
        let q = (p / (2 * stride)) * stride + p % stride;
        let up = upper_place(b, stride);
        let line = row_of_planes(re, im, row, n);
        assert(0 * stride == 0) by (nonlinear_arith);
        assert(1 * stride == stride) by (nonlinear_arith);
        assert(q < rows * half);
        assert(a_re[q] == re[row * n + up]);
        assert(b_re[q] == re[row * n + up + stride]);
        assert(a_im[q] == im[row * n + up]);
        assert(b_im[q] == im[row * n + up + stride]);
        vstd::arithmetic::div_mod::lemma_small_mod(q as nat, (rows * half) as nat);
        assert(complex_at(line, up) == (Complex { re: a_re[q], im: a_im[q] })) by {
            assert((2 * up) / 2 == up && (2 * up) % 2 == 0);
            assert((2 * up + 1) / 2 == up && (2 * up + 1) % 2 == 1);
        }
        let low = up + stride;
        assert(complex_at(line, low) == (Complex { re: b_re[q], im: b_im[q] })) by {
            assert((2 * low) / 2 == low && (2 * low) % 2 == 0);
            assert((2 * low + 1) / 2 == low && (2 * low + 1) % 2 == 1);
        }
        assert(w_re[q % half] == complex_at(tw, twiddle_place(stage as int, b, half)).re);
        assert(w_im[q % half] == complex_at(tw, twiddle_place(stage as int, b, half)).im);
        assert(t_re[q] == T::difference(
            T::product(b_re[q], w_re[b]),
            T::product(b_im[q], w_im[b]),
        ));
        assert(t_im[q] == T::sum(T::product(b_re[q], w_im[b]), T::product(b_im[q], w_re[b])));
    }
    assert(x =~= out.0);
    assert(y =~= out.1);
}

/// The sizes of a stage: how far apart its butterflies reach, and how many groups they form.
proof fn lemma_groups(n: usize, stage: nat)
    requires
        n > 0,
        stage < stages_of(n),
    ensures
        ({
            let stride = pow2(stage) as int;
            let groups = n as int / (2 * stride);
            &&& stride > 0
            &&& 2 * stride <= n
            &&& n == 2 * (n / 2)
            &&& groups > 0
            &&& groups * stride == n as int / 2
            &&& groups * (2 * stride) == n
        }),
{
    lemma_stride(n, stage);
    let s = pow2(stage) as int;
    let half = n as int / 2;
    vstd::arithmetic::div_mod::lemma_fundamental_div_mod(half, s);
    let q = half / s;
    assert(n == (2 * s) * q) by (nonlinear_arith)
        requires
            n == 2 * half,
            half == s * q,
    ;
    vstd::arithmetic::div_mod::lemma_fundamental_div_mod_converse(n as int, 2 * s, q, 0);
    assert(q * s == half) by (nonlinear_arith)
        requires
            half == s * q,
    ;
    assert(q * (2 * s) == n) by (nonlinear_arith)
        requires
            n == (2 * s) * q,
    ;
    assert(q > 0) by (nonlinear_arith)
        requires
            q * (2 * s) == n,
            n > 0,
            s > 0,
    ;
}

proof fn lemma_rows_divide(batch: int, groups: int, s: int)
    requires
        s > 0,
        batch >= 0,
        groups >= 0,
    ensures
        (batch * (2 * (groups * s))) % (2 * s) == 0,
{
    assert(batch * (2 * (groups * s)) == (batch * groups) * (2 * s)) by (nonlinear_arith);
    vstd::arithmetic::div_mod::lemma_mod_multiples_basic(batch * groups, 2 * s);
}

/// The upper and lower numbers of the butterflies of a stage, of both planes: real upper, real
/// lower, imaginary upper, imaginary lower.
fn append_wings<T: Scalar>(
    g: &mut GraphPlan<T>,
    re: usize,
    im: usize,
    batch: usize,
    n: usize,
    groups: usize,
    stride: usize,
) -> (r: (usize, usize, usize, usize))
    requires
        old(g).well_formed(),
        re < old(g).nodes@.len(),
        im < old(g).nodes@.len(),
        stride > 0,
        groups * (2 * stride) == n,
        old(g).shape(re as int) == seq![batch, n],
        old(g).shape(im as int) == seq![batch, n],
        countable_rows(batch, n),
    ensures
        final(g).well_formed(),
        final(g).extends(*old(g)),
        r.0 < final(g).nodes@.len(),
        r.1 < final(g).nodes@.len(),
        r.2 < final(g).nodes@.len(),
        r.3 < final(g).nodes@.len(),
        final(g).shape(r.0 as int) == seq![batch, groups, 1usize, stride],
        final(g).shape(r.1 as int) == seq![batch, groups, 1usize, stride],
        final(g).shape(r.2 as int) == seq![batch, groups, 1usize, stride],
        final(g).shape(r.3 as int) == seq![batch, groups, 1usize, stride],
        forall|env: Env<T>|
            #![trigger old(g).value(env, re as int)]
            old(g).value(env, re as int).len() == batch * n ==> {
                &&& final(g).value(env, r.0 as int) == wing(
                    old(g).value(env, re as int),
                    stride as int,
                    0,
                )
                &&& final(g).value(env, r.1 as int) == wing(
                    old(g).value(env, re as int),
                    stride as int,
                    1,
                )
            },
        forall|env: Env<T>|
            #![trigger old(g).value(env, im as int)]
            old(g).value(env, im as int).len() == batch * n ==> {
                &&& final(g).value(env, r.2 as int) == wing(
                    old(g).value(env, im as int),
                    stride as int,
                    0,
                )
                &&& final(g).value(env, r.3 as int) == wing(
                    old(g).value(env, im as int),
                    stride as int,
                    1,
                )
            },
{
    let ghost start = *g;
    proof {
        lemma_two(batch, n);
        lemma_four(batch, groups, 2, stride);
        lemma_rows_divide(batch as int, groups as int, stride as int);
        assert(2 * (groups * stride) == groups * (2 * stride)) by (nonlinear_arith);
        assert(seq![batch, groups, 2usize, stride].update(2, 1usize) =~= seq![
            batch,
            groups,
            1usize,
            stride,
        ]);
    }
    let shape = vec![batch, groups, 2, stride];
    assert(shape@ =~= seq![batch, groups, 2usize, stride]);
    let re4 = g.reshape(re, shape);
    let ghost g1 = *g;
    let shape = vec![batch, groups, 2, stride];
    assert(shape@ =~= seq![batch, groups, 2usize, stride]);
    let im4 = g.reshape(im, shape);
    let ghost g2 = *g;
    let a_re = g.narrow(re4, 2, 0, 1);
    let ghost g3 = *g;
    let b_re = g.narrow(re4, 2, 1, 1);
    let ghost g4 = *g;
    let a_im = g.narrow(im4, 2, 0, 1);
    let ghost g5 = *g;
    let b_im = g.narrow(im4, 2, 1, 1);
    proof {
        lemma_extends(start, g1, g2);
        lemma_extends(g2, g3, g4);
        lemma_extends(g2, g4, g5);
        lemma_extends(g2, g5, *g);
        lemma_extends(start, g2, *g);
        lemma_extends(g3, g4, g5);
        lemma_extends(g3, g5, *g);
        lemma_extends(g4, g5, *g);
        assert(g.nodes@[a_re as int] == g3.nodes@[a_re as int]);
        assert(g.nodes@[b_re as int] == g4.nodes@[b_re as int]);
        assert(g.nodes@[a_im as int] == g5.nodes@[a_im as int]);
        assert forall|env: Env<T>|
            #![trigger start.value(env, re as int)]
            start.value(env, re as int).len() == batch * n implies {
            &&& g.value(env, a_re as int) == wing(start.value(env, re as int), stride as int, 0)
            &&& g.value(env, b_re as int) == wing(start.value(env, re as int), stride as int, 1)
        } by {
            let x = start.value(env, re as int);
            assert(g2.value(env, re4 as int) == g1.value(env, re4 as int));
            assert(g3.value(env, re4 as int) == g2.value(env, re4 as int));
            lemma_wing(x, stride as nat);
            assert(g.value(env, a_re as int) == g3.value(env, a_re as int));
            assert(g.value(env, b_re as int) == g4.value(env, b_re as int));
        }
        assert forall|env: Env<T>|
            #![trigger start.value(env, im as int)]
            start.value(env, im as int).len() == batch * n implies {
            &&& g.value(env, a_im as int) == wing(start.value(env, im as int), stride as int, 0)
            &&& g.value(env, b_im as int) == wing(start.value(env, im as int), stride as int, 1)
        } by {
            let y = start.value(env, im as int);
            assert(g1.value(env, im as int) == y);
            assert(g2.value(env, im4 as int) == y);
            assert(g4.value(env, im4 as int) == g2.value(env, im4 as int));
            assert(g5.value(env, im4 as int) == g2.value(env, im4 as int));
            lemma_wing(y, stride as nat);
            assert(g.value(env, a_im as int) == g5.value(env, a_im as int));
        }
    }
    (a_re, b_re, a_im, b_im)
}

/// The real part of a product of planes of complex numbers.
pub open spec fn turned_re<T: Scalar>(b_re: Seq<T>, b_im: Seq<T>, w_re: Seq<T>, w_im: Seq<T>) -> Seq<T> {
    subtracted(multiplied(b_re, w_re), multiplied(b_im, w_im))
}

/// The imaginary part of a product of planes of complex numbers.
pub open spec fn turned_im<T: Scalar>(b_re: Seq<T>, b_im: Seq<T>, w_re: Seq<T>, w_im: Seq<T>) -> Seq<T> {
    added(multiplied(b_re, w_im), multiplied(b_im, w_re))
}

/// The lower numbers of a stage times its twiddles: real and imaginary parts.
fn append_turned<T: Scalar>(
    g: &mut GraphPlan<T>,
    b_re: usize,
    b_im: usize,
    w_re: usize,
    w_im: usize,
) -> (r: (usize, usize))
    requires
        old(g).well_formed(),
        b_re < old(g).nodes@.len(),
        b_im < old(g).nodes@.len(),
        w_re < old(g).nodes@.len(),
        w_im < old(g).nodes@.len(),
        old(g).shape(b_re as int) == old(g).shape(b_im as int),
        old(g).shape(w_re as int) == old(g).shape(w_im as int),
        repeats_in(old(g).shape(w_re as int), old(g).shape(b_re as int)),
    ensures
        final(g).well_formed(),
        final(g).extends(*old(g)),
        r.0 < final(g).nodes@.len(),
        r.1 < final(g).nodes@.len(),
        final(g).shape(r.0 as int) == old(g).shape(b_re as int),
        final(g).shape(r.1 as int) == old(g).shape(b_re as int),
        forall|env: Env<T>| #[trigger]
            final(g).value(env, r.0 as int) == turned_re(
                old(g).value(env, b_re as int),
                old(g).value(env, b_im as int),
                old(g).value(env, w_re as int),
                old(g).value(env, w_im as int),
            ),
        forall|env: Env<T>| #[trigger]
            final(g).value(env, r.1 as int) == turned_im(
                old(g).value(env, b_re as int),
                old(g).value(env, b_im as int),
                old(g).value(env, w_re as int),
                old(g).value(env, w_im as int),
            ),
{
    let ghost start = *g;
    let p1 = g.times(b_re, w_re);
    let ghost g1 = *g;
    let p2 = g.times(b_im, w_im);
    let ghost g2 = *g;
    let wb_re = g.minus(p1, p2);
    let ghost g3 = *g;
    let p3 = g.times(b_re, w_im);
    let ghost g4 = *g;
    let p4 = g.times(b_im, w_re);
    let ghost g5 = *g;
    let wb_im = g.plus(p3, p4);
    proof {
        lemma_extends(start, g1, g2);
        lemma_extends(start, g2, g3);
        lemma_extends(start, g3, g4);
        lemma_extends(start, g4, g5);
        lemma_extends(start, g5, *g);
        lemma_extends(g3, g4, g5);
        lemma_extends(g3, g5, *g);
        assert(g2.nodes@[p1 as int] == g1.nodes@[p1 as int]);
        assert(g.nodes@[wb_re as int] == g3.nodes@[wb_re as int]);
        assert(g5.nodes@[p3 as int] == g4.nodes@[p3 as int]);
        assert forall|env: Env<T>| #[trigger] g.value(env, wb_re as int) == turned_re(
            start.value(env, b_re as int),
            start.value(env, b_im as int),
            start.value(env, w_re as int),
            start.value(env, w_im as int),
        ) by {
            assert(g1.value(env, b_im as int) == start.value(env, b_im as int));
            assert(g1.value(env, w_im as int) == start.value(env, w_im as int));
            assert(g2.value(env, p1 as int) == g1.value(env, p1 as int));
            assert(g.value(env, wb_re as int) == g3.value(env, wb_re as int));
        }
        assert forall|env: Env<T>| #[trigger] g.value(env, wb_im as int) == turned_im(
            start.value(env, b_re as int),
            start.value(env, b_im as int),
            start.value(env, w_re as int),
            start.value(env, w_im as int),
        ) by {
            assert(g3.value(env, b_re as int) == start.value(env, b_re as int));
            assert(g3.value(env, w_im as int) == start.value(env, w_im as int));
            assert(g4.value(env, b_im as int) == start.value(env, b_im as int));
            assert(g4.value(env, w_re as int) == start.value(env, w_re as int));
            assert(g5.value(env, p3 as int) == g4.value(env, p3 as int));
        }
    }
    (wb_re, wb_im)
}

/// The sums and differences of upper and turned lower numbers, joined to planes again.
fn append_joined<T: Scalar>(
    g: &mut GraphPlan<T>,
    a_re: usize,
    a_im: usize,
    wb_re: usize,
    wb_im: usize,
    batch: usize,
    n: usize,
    groups: usize,
    stride: usize,
) -> (r: (usize, usize))
    requires
        old(g).well_formed(),
        a_re < old(g).nodes@.len(),
        a_im < old(g).nodes@.len(),
        wb_re < old(g).nodes@.len(),
        wb_im < old(g).nodes@.len(),
        stride > 0,
        groups * (2 * stride) == n,
        old(g).shape(a_re as int) == seq![batch, groups, 1usize, stride],
        old(g).shape(a_im as int) == seq![batch, groups, 1usize, stride],
        countable_rows(batch, n),
        old(g).shape(wb_re as int) == seq![batch, groups, 1usize, stride],
        old(g).shape(wb_im as int) == seq![batch, groups, 1usize, stride],
    ensures
        final(g).well_formed(),
        final(g).extends(*old(g)),
        r.0 < final(g).nodes@.len(),
        r.1 < final(g).nodes@.len(),
        final(g).shape(r.0 as int) == seq![batch, n],
        final(g).shape(r.1 as int) == seq![batch, n],
        forall|env: Env<T>| #[trigger]
            final(g).value(env, r.0 as int) == winged(
                added(old(g).value(env, a_re as int), old(g).value(env, wb_re as int)),
                subtracted(old(g).value(env, a_re as int), old(g).value(env, wb_re as int)),
                stride as int,
            ),
        forall|env: Env<T>| #[trigger]
            final(g).value(env, r.1 as int) == winged(
                added(old(g).value(env, a_im as int), old(g).value(env, wb_im as int)),
                subtracted(old(g).value(env, a_im as int), old(g).value(env, wb_im as int)),
                stride as int,
            ),
{
    let ghost start = *g;
    proof {
        lemma_two(batch, n);
        lemma_four(batch, groups, 2, stride);
        lemma_four(batch, groups, 1, stride);
        assert(seq![batch, groups, 1usize, stride].update(2, 2usize) =~= seq![
            batch,
            groups,
            2usize,
            stride,
        ]);
    }
    let top_re = g.plus(a_re, wb_re);
    let ghost g1 = *g;
    let top_im = g.plus(a_im, wb_im);
    let ghost g2 = *g;
    let bot_re = g.minus(a_re, wb_re);
    let ghost g3 = *g;
    let bot_im = g.minus(a_im, wb_im);
    let ghost g4 = *g;
    proof {
        lemma_extends(start, g1, g2);
        lemma_extends(start, g2, g3);
        lemma_extends(start, g3, g4);
        lemma_extends(g1, g2, g3);
        lemma_extends(g1, g3, g4);
        lemma_extends(g2, g3, g4);
        assert(g4.nodes@[top_re as int] == g1.nodes@[top_re as int]);
        assert(g4.nodes@[top_im as int] == g2.nodes@[top_im as int]);
        assert(g4.nodes@[bot_re as int] == g3.nodes@[bot_re as int]);
    }
    let parts = vec![top_re, bot_re];
    let ghost listed_re = parts@;
    assert(listed_re =~= seq![top_re, bot_re]);
    let out_re_cat = g.concat(parts, 2);
    let ghost g5 = *g;
    let parts = vec![top_im, bot_im];
    let ghost listed_im = parts@;
    assert(listed_im =~= seq![top_im, bot_im]);
    proof {
        assert(g5.nodes@[top_im as int] == g4.nodes@[top_im as int]);
        assert(g5.nodes@[bot_im as int] == g4.nodes@[bot_im as int]);
    }
    let out_im_cat = g.concat(parts, 2);
    let ghost g6 = *g;
    proof {
        lemma_extends(g4, g5, g6);
        assert(g6.nodes@[out_re_cat as int] == g5.nodes@[out_re_cat as int]);
    }
    let shape = vec![batch, n];
    assert(shape@ =~= seq![batch, n]);
    let out_re = g.reshape(out_re_cat, shape);
    let ghost g7 = *g;
    let shape = vec![batch, n];
    assert(shape@ =~= seq![batch, n]);
    assert(g7.nodes@[out_im_cat as int] == g6.nodes@[out_im_cat as int]);
    let out_im = g.reshape(out_im_cat, shape);
    proof {
        lemma_extends(g4, g6, g7);
        lemma_extends(g4, g7, *g);
        lemma_extends(start, g4, *g);
        assert(g.nodes@[out_re as int] == g7.nodes@[out_re as int]);
        assert(1 * stride == stride) by (nonlinear_arith);
        assert forall|env: Env<T>| #[trigger] g.value(env, out_re as int) == winged(
            added(start.value(env, a_re as int), start.value(env, wb_re as int)),
            subtracted(start.value(env, a_re as int), start.value(env, wb_re as int)),
            stride as int,
        ) by {
            let a = start.value(env, a_re as int);
            let w = start.value(env, wb_re as int);
            assert(g2.value(env, a_re as int) == a);
            assert(g2.value(env, wb_re as int) == w);
            assert(g4.value(env, top_re as int) == g1.value(env, top_re as int));
            assert(g4.value(env, bot_re as int) == g3.value(env, bot_re as int));
            assert(g4.values(env, listed_re) =~= seq![added(a, w), subtracted(a, w)]);
            lemma_winged(added(a, w), subtracted(a, w), stride as int);
            assert(g6.value(env, out_re_cat as int) == g5.value(env, out_re_cat as int));
            assert(g.value(env, out_re as int) == g7.value(env, out_re as int));
        }
        assert forall|env: Env<T>| #[trigger] g.value(env, out_im as int) == winged(
            added(start.value(env, a_im as int), start.value(env, wb_im as int)),
            subtracted(start.value(env, a_im as int), start.value(env, wb_im as int)),
            stride as int,
        ) by {
            let a = start.value(env, a_im as int);
            let w = start.value(env, wb_im as int);
            assert(g1.value(env, a_im as int) == a);
            assert(g1.value(env, wb_im as int) == w);
            assert(g3.value(env, a_im as int) == a);
            assert(g3.value(env, wb_im as int) == w);
            assert(g4.value(env, top_im as int) == g2.value(env, top_im as int));
            assert(g5.value(env, top_im as int) == g4.value(env, top_im as int));
            assert(g5.value(env, bot_im as int) == g4.value(env, bot_im as int));
            assert(g5.values(env, listed_im) =~= seq![added(a, w), subtracted(a, w)]);
            lemma_winged(added(a, w), subtracted(a, w), stride as int);
            assert(g7.value(env, out_im_cat as int) == g6.value(env, out_im_cat as int));
        }
    }
    (out_re, out_im)
}

/// A stage of the butterfly on two planes of a batch.
pub fn apply_butterfly_stage_vectorized<T: Scalar>(
    g: &mut GraphPlan<T>,
    re: usize,
    im: usize,
    stage: usize,
    batch: usize,
    n: usize,
    packed: usize,
) -> (r: (usize, usize))
    requires
        old(g).well_formed(),
        re < old(g).nodes@.len(),
        im < old(g).nodes@.len(),
        packed < old(g).nodes@.len(),
        n > 0,
        stage < stages_of(n),
        countable_rows(batch, n),
        old(g).shape(re as int) == seq![batch, n],
        old(g).shape(im as int) == seq![batch, n],
        old(g).shape(packed as int) == seq![
            stages_of(n) as usize,
            (n / 2) as usize,
            2usize,
        ],
    ensures
        final(g).well_formed(),
        final(g).extends(*old(g)),
        r.0 < final(g).nodes@.len(),
        r.1 < final(g).nodes@.len(),
        final(g).shape(r.0 as int) == seq![batch, n],
        final(g).shape(r.1 as int) == seq![batch, n],
        forall|env: Env<T>|
            old(g).value(env, re as int).len() == batch * n && old(g).value(env, im as int).len()
                == batch * n && old(g).value(env, packed as int).len() == stages_of(n) * ((n / 2)
                * 2) ==> #[trigger] final(g).value(env, r.0 as int) == stage_planes(
                old(g).value(env, re as int),
                old(g).value(env, im as int),
                old(g).value(env, packed as int),
                n as int,
                stage as nat,
            ).0,
        forall|env: Env<T>|
            old(g).value(env, re as int).len() == batch * n && old(g).value(env, im as int).len()
                == batch * n && old(g).value(env, packed as int).len() == stages_of(n) * ((n / 2)
                * 2) ==> #[trigger] final(g).value(env, r.1 as int) == stage_planes(
                old(g).value(env, re as int),
                old(g).value(env, im as int),
                old(g).value(env, packed as int),
                n as int,
                stage as nat,
            ).1,
{
    let ghost start = *g;
    proof {
        lemma_groups(n, stage as nat);
        lemma_stage_bound(n);
    }
    let stages: usize = crate::butterfly::num_stages(n);
    let stride: usize = power(stage, n);
    let groups: usize = n / (2 * stride);
    let (a_re, b_re, a_im, b_im) = append_wings(g, re, im, batch, n, groups, stride);
    let ghost g1 = *g;
    assert(g1.nodes@[packed as int] == start.nodes@[packed as int]);
    let (w_re, w_im) = build_stage_twiddles(g, packed, stage, stages, groups, stride);
    let ghost g2 = *g;
    proof {
        assert(g2.nodes@[b_re as int] == g1.nodes@[b_re as int]);
        assert(g2.nodes@[b_im as int] == g1.nodes@[b_im as int]);
    }
    let (wb_re, wb_im) = append_turned(g, b_re, b_im, w_re, w_im);
    let ghost g3 = *g;
    proof {
        lemma_extends(start, g1, g2);
        lemma_extends(start, g2, g3);
        lemma_extends(g1, g2, g3);
        assert(g3.nodes@[a_re as int] == g1.nodes@[a_re as int]);
        assert(g3.nodes@[a_im as int] == g1.nodes@[a_im as int]);
    }
    let (out_re, out_im) = append_joined(
        g,
        a_re,
        a_im,
        wb_re,
        wb_im,
        batch,
        n,
        groups,
        stride,
    );
    proof {
        lemma_extends(start, g3, *g);
        assert forall|env: Env<T>|
            #![trigger g.value(env, out_re as int)]
            #![trigger g.value(env, out_im as int)]
            start.value(env, re as int).len() == batch * n && start.value(env, im as int).len()
                == batch * n && start.value(env, packed as int).len() == stages_of(n) * ((n / 2)
                * 2) implies g.value(env, out_re as int) == stage_planes(
            start.value(env, re as int),
            start.value(env, im as int),
            start.value(env, packed as int),
            n as int,
            stage as nat,
        ).0 && g.value(env, out_im as int) == stage_planes(
            start.value(env, re as int),
            start.value(env, im as int),
            start.value(env, packed as int),
            n as int,
            stage as nat,
        ).1 by {
            let x = start.value(env, re as int);
            let y = start.value(env, im as int);
            let tw = start.value(env, packed as int);
            let s = stride as int;
            let half = n as int / 2;
            assert(g1.value(env, packed as int) == tw);
            assert(g2.value(env, w_re as int) == stage_twiddles(tw, stage as int, half, 0));
            assert(g2.value(env, w_im as int) == stage_twiddles(tw, stage as int, half, 1));
            assert(g1.value(env, b_re as int) == wing(x, s, 1));
            assert(g2.value(env, b_re as int) == g1.value(env, b_re as int));
            assert(g2.value(env, b_im as int) == g1.value(env, b_im as int));
            assert(g3.value(env, a_re as int) == g1.value(env, a_re as int));
            assert(g3.value(env, a_im as int) == g1.value(env, a_im as int));
            lemma_stage_of_wings(x, y, tw, n, stage as nat, batch as nat);
        }
    }
    (out_re, out_im)
}

/// Whether nodes hold the twiddles of a stage, one real and one imaginary part for each butterfly.
pub open spec fn nodes_hold<T: Scalar>(
    g: GraphPlan<T>,
    env: Env<T>,
    nodes: Seq<(usize, usize)>,
    tw: Seq<T>,
    stage: int,
    half: int,
) -> bool {
    forall|b: int|
        #![trigger nodes[b]]
        0 <= b < half ==> g.value(env, nodes[b].0 as int) == seq![
            tw[2 * twiddle_place(stage, b, half)],
        ] && g.value(env, nodes[b].1 as int) == seq![tw[2 * twiddle_place(stage, b, half) + 1]]
}

/// Whether nodes of single numbers stand for every butterfly of a stage.
pub open spec fn single_nodes<T: Scalar>(
    g: GraphPlan<T>,
    nodes: Seq<(usize, usize)>,
    half: int,
) -> bool {
    &&& nodes.len() == half
    &&& forall|b: int|
        #![trigger nodes[b]]
        0 <= b < half ==> nodes[b].0 < g.nodes@.len() && nodes[b].1 < g.nodes@.len() && g.shape(
            nodes[b].0 as int,
        ) == seq![1usize] && g.shape(nodes[b].1 as int) == seq![1usize]
}

/// The twiddles of a stage out of nodes of single numbers.
pub fn build_stage_twiddles_mapped<T: Scalar>(
    g: &mut GraphPlan<T>,
    stage: usize,
    groups: usize,
    stride: usize,
    twiddle_nodes: &Vec<Vec<(usize, usize)>>,
) -> (r: (usize, usize))
    requires
        old(g).well_formed(),
        groups * stride <= usize::MAX,
        groups * stride <= i64::MAX,
        groups * stride > 0,
        stage < twiddle_nodes@.len(),
        single_nodes(*old(g), twiddle_nodes@[stage as int]@, groups * stride),
    ensures
        final(g).well_formed(),
        final(g).extends(*old(g)),
        r.0 < final(g).nodes@.len(),
        r.1 < final(g).nodes@.len(),
        final(g).shape(r.0 as int) == seq![1usize, groups, 1usize, stride],
        final(g).shape(r.1 as int) == seq![1usize, groups, 1usize, stride],
        forall|env: Env<T>, tw: Seq<T>| #[trigger]
            nodes_hold(
                *old(g),
                env,
                twiddle_nodes@[stage as int]@,
                tw,
                stage as int,
                groups * stride,
            ) ==> {
                &&& final(g).value(env, r.0 as int) == stage_twiddles(
                    tw,
                    stage as int,
                    groups * stride,
                    0,
                )
                &&& final(g).value(env, r.1 as int) == stage_twiddles(
                    tw,
                    stage as int,
                    groups * stride,
                    1,
                )
            },
{
    let ghost start = *g;
    let half: usize = groups * stride;
    let ghost nodes = twiddle_nodes@[stage as int]@;
    let mut re_scalars: Vec<usize> = Vec::new();
    let mut im_scalars: Vec<usize> = Vec::new();
    let mut b: usize = 0;
    while b < half
        invariant
            b <= half,
            stage < twiddle_nodes@.len(),
            nodes == twiddle_nodes@[stage as int]@,
            nodes.len() == half,
            re_scalars@.len() == b,
            im_scalars@.len() == b,
            forall|k: int| 0 <= k < b ==> re_scalars@[k] == (#[trigger] nodes[k]).0,
            forall|k: int| 0 <= k < b ==> im_scalars@[k] == (#[trigger] nodes[k]).1,
        decreases half - b,
    {
        let pair: (usize, usize) = twiddle_nodes[stage][b];
        re_scalars.push(pair.0);
        im_scalars.push(pair.1);
        b += 1;
    }
    let ghost listed_re = re_scalars@;
    let ghost listed_im = im_scalars@;
    proof {
        reveal_with_fuel(inner_of, 3);
        assert(inner_of(seq![1usize], 0) == 1);
        assert(inner_of(seq![half], -1) == half * inner_of(seq![half], 0));
        assert(inner_of(seq![half], 0) == 1);
        assert(half * 1 == half) by (nonlinear_arith);
        assert(seq![1usize].update(0, half) =~= seq![half]);
        assert(1 * half == half) by (nonlinear_arith);
        lemma_four(1, groups, 1, stride);
        assert(1 * (groups * (1 * stride)) == half) by (nonlinear_arith)
            requires
                half == groups * stride,
        ;
        assert forall|j: int| 0 <= j < half implies (#[trigger] listed_re[j]) < start.nodes@.len()
            && start.shape(listed_re[j] as int) == seq![1usize] by {
            assert(listed_re[j] == nodes[j].0);
        }
        assert forall|j: int| 0 <= j < half implies (#[trigger] listed_im[j]) < start.nodes@.len()
            && start.shape(listed_im[j] as int) == seq![1usize] by {
            assert(listed_im[j] == nodes[j].1);
        }
        assert(listed_re[0] < start.nodes@.len());
        assert(listed_im[0] < start.nodes@.len());
    }
    let re_cat = g.concat(re_scalars, 0);
    let ghost g1 = *g;
    proof {
        assert forall|j: int| 0 <= j < half implies (#[trigger] listed_im[j]) < g1.nodes@.len()
            && g1.shape(listed_im[j] as int) == seq![1usize] by {
            assert(g1.nodes@[listed_im[j] as int] == start.nodes@[listed_im[j] as int]);
        }
        assert(g1.shape(listed_im[0] as int) == seq![1usize]);
    }
    let im_cat = g.concat(im_scalars, 0);
    let ghost g2 = *g;
    assert(g2.nodes@[re_cat as int] == g1.nodes@[re_cat as int]);
    let shape = vec![1, groups, 1, stride];
    assert(shape@ =~= seq![1usize, groups, 1usize, stride]);
    let w_re = g.reshape(re_cat, shape);
    let ghost g3 = *g;
    assert(g3.nodes@[im_cat as int] == g2.nodes@[im_cat as int]);
    let shape = vec![1, groups, 1, stride];
    assert(shape@ =~= seq![1usize, groups, 1usize, stride]);
    let w_im = g.reshape(im_cat, shape);
    proof {
        lemma_extends(start, g1, g2);
        lemma_extends(start, g2, g3);
        lemma_extends(start, g3, *g);
        assert(g.nodes@[w_re as int] == g3.nodes@[w_re as int]);
        assert forall|env: Env<T>, tw: Seq<T>| #[trigger]
            nodes_hold(start, env, nodes, tw, stage as int, groups * stride) implies {
            &&& g.value(env, w_re as int) == stage_twiddles(tw, stage as int, groups * stride, 0)
            &&& g.value(env, w_im as int) == stage_twiddles(tw, stage as int, groups * stride, 1)
        } by {
            let parts = start.values(env, listed_re);
            assert forall|j: int| 0 <= j < half implies #[trigger] parts[j] == seq![
                tw[2 * twiddle_place(stage as int, j, half as int)],
            ] by {
                assert(nodes[j].0 == listed_re[j]);
            }
            lemma_singles(
                parts,
                stage_twiddles(tw, stage as int, groups * stride, 0),
                half as nat,
            );
            let others = g1.values(env, listed_im);
            assert forall|j: int| 0 <= j < half implies #[trigger] others[j] == seq![
                tw[2 * twiddle_place(stage as int, j, half as int) + 1],
            ] by {
                assert(nodes[j].1 == listed_im[j]);
                assert(listed_im[j] < start.nodes@.len());
                assert(g1.value(env, listed_im[j] as int) == start.value(
                    env,
                    listed_im[j] as int,
                ));
            }
            lemma_singles(
                others,
                stage_twiddles(tw, stage as int, groups * stride, 1),
                half as nat,
            );
            assert(g2.value(env, re_cat as int) == g1.value(env, re_cat as int));
            assert(g3.value(env, im_cat as int) == g2.value(env, im_cat as int));
            assert(g.value(env, w_re as int) == g3.value(env, w_re as int));
        }
    }
    (w_re, w_im)
}

/// Single numbers side by side.
proof fn lemma_singles<T>(parts: Seq<Seq<T>>, whole: Seq<T>, k: nat)
    requires
        k > 0,
        parts.len() == k,
        whole.len() == k,
        forall|j: int| 0 <= j < k ==> #[trigger] parts[j] == seq![whole[j]],
    ensures
        side_by_side(parts, 1) == whole,
{
    let s = side_by_side(parts, 1);
    assert(parts[0].len() == 1);
    assert(k * 1 == k) by (nonlinear_arith);
    assert forall|p: int| 0 <= p < k implies s[p] == whole[p] by {
        assert(p / 1 == p && p % 1 == 0);
        vstd::arithmetic::div_mod::lemma_small_mod(p as nat, k);
        assert(1 * (k as int) == k);
        vstd::arithmetic::div_mod::lemma_basic_div(p, k as int);
        assert((p / (1 * k as int)) * 1 + p % 1 == 0);
        assert(parts[p] == seq![whole[p]]);
    }
    assert(s =~= whole);
}

/// A stage of the butterfly on two planes of a batch, with its twiddles in nodes of single numbers.
pub fn apply_butterfly_stage_vectorized_mapped<T: Scalar>(
    g: &mut GraphPlan<T>,
    re: usize,
    im: usize,
    stage: usize,
    batch: usize,
    n: usize,
    twiddle_nodes: &Vec<Vec<(usize, usize)>>,
) -> (r: (usize, usize))
    requires
        old(g).well_formed(),
        re < old(g).nodes@.len(),
        im < old(g).nodes@.len(),
        n > 0,
        stage < stages_of(n),
        countable_rows(batch, n),
        old(g).shape(re as int) == seq![batch, n],
        old(g).shape(im as int) == seq![batch, n],
        stage < twiddle_nodes@.len(),
        single_nodes(*old(g), twiddle_nodes@[stage as int]@, n as int / 2),
    ensures
        final(g).well_formed(),
        final(g).extends(*old(g)),
        r.0 < final(g).nodes@.len(),
        r.1 < final(g).nodes@.len(),
        final(g).shape(r.0 as int) == seq![batch, n],
        final(g).shape(r.1 as int) == seq![batch, n],
        forall|env: Env<T>, tw: Seq<T>|
            old(g).value(env, re as int).len() == batch * n && old(g).value(env, im as int).len()
                == batch * n && #[trigger] nodes_hold(
                *old(g),
                env,
                twiddle_nodes@[stage as int]@,
                tw,
                stage as int,
                n as int / 2,
            ) ==> {
                let planes = stage_planes(
                    old(g).value(env, re as int),
                    old(g).value(env, im as int),
                    tw,
                    n as int,
                    stage as nat,
                );
                &&& final(g).value(env, r.0 as int) == planes.0
                &&& final(g).value(env, r.1 as int) == planes.1
            },
{
    let ghost start = *g;
    proof {
        lemma_groups(n, stage as nat);
    }
    let stride: usize = power(stage, n);
    let groups: usize = n / (2 * stride);
    let (a_re, b_re, a_im, b_im) = append_wings(g, re, im, batch, n, groups, stride);
    let ghost g1 = *g;
    let ghost nodes = twiddle_nodes@[stage as int]@;
    proof {
        assert forall|b: int|
            #![trigger nodes[b]]
            0 <= b < n as int / 2 implies nodes[b].0 < g1.nodes@.len() && nodes[b].1
            < g1.nodes@.len() && g1.shape(nodes[b].0 as int) == seq![1usize] && g1.shape(
            nodes[b].1 as int,
        ) == seq![1usize] by {
            assert(g1.nodes@[nodes[b].0 as int] == start.nodes@[nodes[b].0 as int]);
            assert(g1.nodes@[nodes[b].1 as int] == start.nodes@[nodes[b].1 as int]);
        }
    }
    let (w_re, w_im) = build_stage_twiddles_mapped(g, stage, groups, stride, twiddle_nodes);
    let ghost g2 = *g;
    proof {
        assert(g2.nodes@[b_re as int] == g1.nodes@[b_re as int]);
        assert(g2.nodes@[b_im as int] == g1.nodes@[b_im as int]);
    }
    let (wb_re, wb_im) = append_turned(g, b_re, b_im, w_re, w_im);
    let ghost g3 = *g;
    proof {
        lemma_extends(start, g1, g2);
        lemma_extends(start, g2, g3);
        lemma_extends(g1, g2, g3);
        assert(g3.nodes@[a_re as int] == g1.nodes@[a_re as int]);
        assert(g3.nodes@[a_im as int] == g1.nodes@[a_im as int]);
    }
    let (out_re, out_im) = append_joined(
        g,
        a_re,
        a_im,
        wb_re,
        wb_im,
        batch,
        n,
        groups,
        stride,
    );
    proof {
        lemma_extends(start, g3, *g);
        assert forall|env: Env<T>, tw: Seq<T>|
            start.value(env, re as int).len() == batch * n && start.value(env, im as int).len()
                == batch * n && #[trigger] nodes_hold(
                start,
                env,
                nodes,
                tw,
                stage as int,
                n as int / 2,
            ) implies {
            let planes = stage_planes(
                start.value(env, re as int),
                start.value(env, im as int),
                tw,
                n as int,
                stage as nat,
            );
            &&& g.value(env, out_re as int) == planes.0
            &&& g.value(env, out_im as int) == planes.1
        } by {
            let x = start.value(env, re as int);
            let y = start.value(env, im as int);
            let s = stride as int;
            let half = n as int / 2;
            assert(nodes_hold(g1, env, nodes, tw, stage as int, groups * stride)) by {
                assert forall|b: int|
                    #![trigger nodes[b]]
                    0 <= b < half implies g1.value(env, nodes[b].0 as int) == seq![
                    tw[2 * twiddle_place(stage as int, b, half)],
                ] && g1.value(env, nodes[b].1 as int) == seq![
                    tw[2 * twiddle_place(stage as int, b, half) + 1],
                ] by {
                    assert(g1.value(env, nodes[b].0 as int) == start.value(
                        env,
                        nodes[b].0 as int,
                    ));
                    assert(g1.value(env, nodes[b].1 as int) == start.value(
                        env,
                        nodes[b].1 as int,
                    ));
                }
            }
            assert(g2.value(env, b_re as int) == g1.value(env, b_re as int));
            assert(g2.value(env, b_im as int) == g1.value(env, b_im as int));
            assert(g3.value(env, a_re as int) == g1.value(env, a_re as int));
            assert(g3.value(env, a_im as int) == g1.value(env, a_im as int));
            lemma_stage_of_wings(x, y, tw, n, stage as nat, batch as nat);
        }
    }
    (out_re, out_im)
}

// ---------------------------------------------------------------------------
// The transform
// ---------------------------------------------------------------------------

/// A row of a tensor of interleaved complex numbers.
pub open spec fn complex_row<T>(v: Seq<T>, row: int, n: int) -> Seq<T> {
    v.subrange(row * (2 * n), (row + 1) * (2 * n))
}

/// Every row of a tensor through a map of rows.
pub open spec fn by_rows<T>(v: Seq<T>, n: int, map: spec_fn(Seq<T>) -> Seq<T>) -> Seq<T> {
    Seq::new(v.len(), |p: int| map(complex_row(v, p / (2 * n), n))[p % (2 * n)])
}

/// The transform of a row.
pub open spec fn transform_map<T: Scalar>(tw: Seq<T>, n_fft: usize) -> spec_fn(Seq<T>) -> Seq<T> {
    |row: Seq<T>| transformed(row, tw, n_fft)
}

/// The inverse transform of a row.
pub open spec fn inverse_map<T: Scalar>(tw: Seq<T>, n_fft: usize) -> spec_fn(Seq<T>) -> Seq<T> {
    |row: Seq<T>| inverse_transformed(row, tw, n_fft)
}

/// The bit reversal of a row.
pub open spec fn permute_map<T>(n_fft: usize) -> spec_fn(Seq<T>) -> Seq<T> {
    |row: Seq<T>| permuted(row, n_fft)
}

/// Two planes after the first `k` stages.
pub open spec fn planes_after<T: Scalar>(
    re: Seq<T>,
    im: Seq<T>,
    tw: Seq<T>,
    n: int,
    k: nat,
) -> (Seq<T>, Seq<T>)
    decreases k,
{
    if k == 0 {
        (re, im)
    } else {
        let before = planes_after(re, im, tw, n, (k - 1) as nat);
        stage_planes(before.0, before.1, tw, n, (k - 1) as nat)
    }
}

proof fn lemma_planes_len<T: Scalar>(re: Seq<T>, im: Seq<T>, tw: Seq<T>, n: int, k: nat)
    ensures
        planes_after(re, im, tw, n, k).0.len() == re.len(),
        planes_after(re, im, tw, n, k).1.len() == im.len(),
    decreases k,
{
    if k > 0 {
        lemma_planes_len(re, im, tw, n, (k - 1) as nat);
    }
}

/// A row of the planes after some stages is that row after those stages.
proof fn lemma_row_after<T: Scalar>(
    re: Seq<T>,
    im: Seq<T>,
    tw: Seq<T>,
    n: int,
    k: nat,
    row: int,
    rows: int,
)
    requires
        n > 0,
        0 <= row < rows,
        re.len() == rows * n,
        im.len() == rows * n,
    ensures
        ({
            let p = planes_after(re, im, tw, n, k);
            row_of_planes(p.0, p.1, row, n) == after_stages(
                row_of_planes(re, im, row, n),
                tw,
                n,
                k,
            )
        }),
    decreases k,
{
    if k > 0 {
        let h = (k - 1) as nat;
        lemma_row_after(re, im, tw, n, h, row, rows);
        lemma_planes_len(re, im, tw, n, h);
        let b = planes_after(re, im, tw, n, h);
        let p = planes_after(re, im, tw, n, k);
        let line = row_of_planes(b.0, b.1, row, n);
        let out = row_of_planes(p.0, p.1, row, n);
        let want = staged(line, tw, n, h);
        assert forall|i: int| 0 <= i < 2 * n implies out[i] == want[i] by {
            let c = i / 2;
            assert(row * n + n <= rows * n) by (nonlinear_arith)
                requires
                    row + 1 <= rows,
                    n >= 0,
            ;
            assert(0 <= row * n) by (nonlinear_arith)
                requires
                    row >= 0,
                    n >= 0,
            ;
            assert(row * n + c == n * row + c) by (nonlinear_arith);
            vstd::arithmetic::div_mod::lemma_fundamental_div_mod_converse(
                row * n + c,
                n,
                row,
                c,
            );
        }
        assert(out =~= want);
    }
}

/// Where a number of a tensor stands: its row, and its place in the row.
pub(crate) proof fn lemma_row_place(p: int, n: int, rows: int)
    requires
        n > 0,
        0 <= p < rows * (2 * n),
    ensures
        ({
            let row = p / (2 * n);
            let i = p % (2 * n);
            &&& 0 <= row < rows
            &&& 0 <= i < 2 * n
            &&& p == row * (2 * n) + i
            &&& 0 <= row * (2 * n)
            &&& (row + 1) * (2 * n) == row * (2 * n) + 2 * n
            &&& (row + 1) * (2 * n) <= rows * (2 * n)
            &&& p % 2 == i % 2
            &&& p / 2 == row * n + i / 2
            &&& (p / 2) % n == i / 2
            &&& 0 <= row * n
            &&& row * n + n <= rows * n
        }),
{
    let two = 2 * n;
    let row = p / two;
    let i = p % two;
    vstd::arithmetic::div_mod::lemma_fundamental_div_mod(p, two);
    vstd::arithmetic::div_mod::lemma_mod_bound(p, two);
    assert(row < rows) by (nonlinear_arith)
        requires
            p == two * row + i,
            p < rows * two,
            i >= 0,
            two > 0,
    ;
    assert(row >= 0) by (nonlinear_arith)
        requires
            p == two * row + i,
            p >= 0,
            i < two,
            two > 0,
    ;
    assert(two * row == row * two) by (nonlinear_arith);
    assert(0 <= row * two) by (nonlinear_arith)
        requires
            row >= 0,
            two >= 0,
    ;
    assert((row + 1) * two == row * two + two) by (nonlinear_arith);
    assert((row + 1) * two <= rows * two) by (nonlinear_arith)
        requires
            row + 1 <= rows,
            two >= 0,
    ;
    assert(p == 2 * (row * n) + i) by (nonlinear_arith)
        requires
            p == row * two + i,
            two == 2 * n,
    ;
    assert(p / 2 == row * n + i / 2);
    assert(p / 2 == n * row + i / 2) by (nonlinear_arith)
        requires
            p / 2 == row * n + i / 2,
    ;
    vstd::arithmetic::div_mod::lemma_fundamental_div_mod_converse(p / 2, n, row, i / 2);
    assert(0 <= row * n) by (nonlinear_arith)
        requires
            row >= 0,
            n >= 0,
    ;
    assert(row * n + n <= rows * n) by (nonlinear_arith)
        requires
            row + 1 <= rows,
            n >= 0,
    ;
}

/// Slices of every complex number, in bit-reversed order, side by side are the bit reversal.
proof fn lemma_reordered<T>(v: Seq<T>, parts: Seq<Seq<T>>, n_fft: usize, rows: nat)
    requires
        n_fft > 0,
        power_of_two(n_fft as nat),
        v.len() == rows * (2 * n_fft),
        parts.len() == n_fft,
        forall|i: int|
            0 <= i < n_fft ==> #[trigger] parts[i] == narrowed(
                v,
                n_fft as nat,
                2,
                reversed(i as nat, stages_of(n_fft)),
                1,
            ),
    ensures
        side_by_side(parts, 2) == by_rows(v, n_fft as int, permute_map(n_fft)),
{
    let n = n_fft as int;
    let bits = stages_of(n_fft);
    twos_of_power(n_fft as nat);
    let s = side_by_side(parts, 2);
    let want = by_rows(v, n, permute_map(n_fft));
    assert((1nat * 2nat) as int == 2) by (nonlinear_arith);
    assert(n_fft as nat * 2 == 2 * n);
    assert(v.len() as int / (2 * n) == rows) by {
        assert(v.len() == (2 * n) * rows + 0) by (nonlinear_arith)
            requires
                v.len() == rows * (2 * n),
        ;
        vstd::arithmetic::div_mod::lemma_fundamental_div_mod_converse(
            v.len() as int,
            2 * n,
            rows as int,
            0,
        );
    }
    assert(parts[0].len() == 2 * rows) by {
        let size = n_fft as nat;
        assert(parts[0] == narrowed(v, size, 2, reversed(0, bits), 1));
        let whole = (size * 2) as int;
        assert(whole == 2 * n);
        let q = v.len() as int / whole;
        assert(v.len() == whole * rows + 0) by (nonlinear_arith)
            requires
                v.len() == rows * (2 * n),
                whole == 2 * n,
        ;
        vstd::arithmetic::div_mod::lemma_fundamental_div_mod_converse(
            v.len() as int,
            whole,
            rows as int,
            0,
        );
        assert(q == rows);
        let block = (1nat * 2nat) as int;
        assert(block == 2);
        assert(parts[0].len() == (q * block) as nat);
        assert(q * block == 2 * rows) by (nonlinear_arith)
            requires
                q == rows,
                block == 2,
        ;
    }
    assert(n * (2 * rows) == rows * (2 * n)) by (nonlinear_arith);
    assert(s.len() == v.len());
    assert forall|p: int| 0 <= p < v.len() implies s[p] == want[p] by {
        lemma_row_place(p, n, rows as int);
        let row = p / (2 * n);
        let i = p % (2 * n);
        let c = i / 2;
        let part = parts[c];
        assert((p / 2) % n == c);
        assert(2 * n == 2 * parts.len());
        let at = row * 2 + p % 2;
        assert(at / 2 == row && at % 2 == p % 2);
        assert(0 <= at < 2 * rows);
        let j = reversed(c as nat, bits) as int;
        assert(part[at] == v[row * (2 * n) + j * 2 + p % 2]) by {
            assert(n_fft as nat * 2 == 2 * n);
            assert(j * 2 == (j as nat) * 2);
        }
        crate::butterfly::reversal_is_its_own_inverse(c as nat, bits);
        let line = complex_row(v, row, n);
        assert(source_place(c, n_fft) == j);
        assert(permuted(line, n_fft)[i] == line[j * 2 + i % 2]);
        assert(line[j * 2 + i % 2] == v[row * (2 * n) + (j * 2 + i % 2)]);
    }
    assert(s =~= want);
}

/// Splitting a bit-reversed tensor, running all stages on its planes and merging them again is the
/// transform of every row.
proof fn lemma_whole<T: Scalar>(v: Seq<T>, tw: Seq<T>, n_fft: usize, rows: nat)
    requires
        n_fft > 0,
        v.len() == rows * (2 * n_fft),
    ensures
        ({
            let n = n_fft as int;
            let state = by_rows(v, n, permute_map(n_fft));
            let p = planes_after(
                even_places(state),
                odd_places(state),
                tw,
                n,
                stages_of(n_fft),
            );
            interleaved(p.0, p.1) == by_rows(v, n, transform_map(tw, n_fft))
        }),
{
    let n = n_fft as int;
    let state = by_rows(v, n, permute_map(n_fft));
    let re = even_places(state);
    let im = odd_places(state);
    let k = stages_of(n_fft);
    let p = planes_after(re, im, tw, n, k);
    let out = interleaved(p.0, p.1);
    let want = by_rows(v, n, transform_map(tw, n_fft));
    assert(rows * (2 * n) == 2 * (rows * n)) by (nonlinear_arith);
    lemma_planes_len(re, im, tw, n, k);
    assert(out.len() == want.len());
    assert forall|q: int| 0 <= q < v.len() implies out[q] == want[q] by {
        lemma_row_place(q, n, rows as int);
        let row = q / (2 * n);
        let i = q % (2 * n);
        lemma_row_after(re, im, tw, n, k, row, rows as int);
        let line = complex_row(v, row, n);
        let start = row_of_planes(re, im, row, n);
        assert(start =~= permuted(line, n_fft)) by {
            assert forall|x: int| 0 <= x < 2 * n implies start[x] == permuted(line, n_fft)[x] by {
                let at = row * (2 * n) + x;
                lemma_row_place(at, n, rows as int);
                assert(at / (2 * n) == row && at % (2 * n) == x) by {
                    assert(at == (2 * n) * row + x) by (nonlinear_arith)
                        requires
                            at == row * (2 * n) + x,
                    ;
                    vstd::arithmetic::div_mod::lemma_fundamental_div_mod_converse(
                        at,
                        2 * n,
                        row,
                        x,
                    );
                }
                assert(state[at] == permuted(line, n_fft)[x]);
                let h = row * n + x / 2;
                assert(at == 2 * h + x % 2) by (nonlinear_arith)
                    requires
                        at == row * (2 * n) + x,
                        h == row * n + x / 2,
                        x == 2 * (x / 2) + x % 2,
                ;
            }
        }
        assert(out[q] == row_of_planes(p.0, p.1, row, n)[i]);
    }
    assert(out =~= want);
}

/// The transform of a tensor of interleaved complex numbers, with the twiddles of one packed
/// parameter.
pub fn append_forward_butterfly<T: Scalar>(
    g: &mut GraphPlan<T>,
    cfg: &FftLearnConfig,
    state: usize,
    tw_name: &str,
) -> (r: (Vec<ParamSlot>, usize))
    requires
        old(g).well_formed(),
        cfg.well_formed(),
        countable_rows(cfg.batch, cfg.n_fft),
        state < old(g).nodes@.len(),
        old(g).shape(state as int) == seq![cfg.batch, cfg.n_fft, 2usize],
    ensures
        final(g).well_formed(),
        final(g).extends(*old(g)),
        r.1 < final(g).nodes@.len(),
        final(g).shape(r.1 as int) == seq![cfg.batch, cfg.n_fft, 2usize],
        r.0@.len() == 1,
        r.0@[0].name@ == tw_name@,
        r.0@[0].grad is None,
        r.0@[0].param < final(g).nodes@.len(),
        final(g).nodes@[r.0@[0].param as int].op matches GraphOp::Param { name } && name@
            == tw_name@,
        forall|env: Env<T>|
            old(g).value(env, state as int).len() == cfg.batch * (2 * cfg.n_fft) && (env.leaf)(
                tw_name@,
            ).len() == stages_of(cfg.n_fft) * ((cfg.n_fft / 2) * 2) ==> #[trigger] final(g).value(
                env,
                r.1 as int,
            ) == by_rows(
                old(g).value(env, state as int),
                cfg.n_fft as int,
                transform_map((env.leaf)(tw_name@), cfg.n_fft),
            ),
{
    let ghost start = *g;
    let n: usize = cfg.n_fft;
    let batch: usize = cfg.batch;
    let half: usize = n / 2;
    let stages: usize = cfg.num_stages();
    proof {
        twos_of_power(n as nat);
        lemma_stage_bound(n);
        lemma_three(batch, n, 2);
        assert(seq![batch, n, 2usize].update(1, 1usize) =~= seq![batch, 1usize, 2usize]);
        lemma_three(batch, 1, 2);
        assert(seq![batch, 1usize, 2usize].update(1, n) =~= seq![batch, n, 2usize]);
    }
    // The complex numbers, one slice each, in bit-reversed order.
    let mut slices: Vec<usize> = Vec::new();
    let mut i: usize = 0;
    while i < n
        invariant
            i <= n,
            n == cfg.n_fft,
            cfg.well_formed(),
            stages == stages_of(n),
            stages <= usize::BITS,
            n == pow2(stages_of(n)),
            g.well_formed(),
            g.extends(start),
            state < start.nodes@.len(),
            start.shape(state as int) == seq![batch, n, 2usize],
            inner_of(seq![batch, n, 2usize], 1) == 2,
            seq![batch, n, 2usize].update(1, 1usize) == seq![batch, 1usize, 2usize],
            slices.len() == i,
            forall|k: int|
                0 <= k < i ==> (#[trigger] slices@[k]) < g.nodes@.len() && g.shape(
                    slices@[k] as int,
                ) == seq![batch, 1usize, 2usize],
            forall|env: Env<T>, k: int|
                0 <= k < i ==> #[trigger] g.value(env, slices@[k] as int) == narrowed(
                    start.value(env, state as int),
                    n as nat,
                    2,
                    reversed(k as nat, stages_of(n)),
                    1,
                ),
        decreases n - i,
    {
        let j: usize = bit_reverse(i, stages);
        proof {
            crate::butterfly::reversal_is_its_own_inverse(i as nat, stages as nat);
            assert(g.nodes@[state as int] == start.nodes@[state as int]);
        }
        let ghost before = *g;
        let slice = g.narrow(state, 1, j, 1);
        let ghost old_slices = slices@;
        slices.push(slice);
        proof {
            lemma_extends(start, before, *g);
            assert forall|k: int| 0 <= k < i + 1 implies (#[trigger] slices@[k]) < g.nodes@.len()
                && g.shape(slices@[k] as int) == seq![batch, 1usize, 2usize] by {
                if k < i {
                    assert(slices@[k] == old_slices[k]);
                    assert(g.nodes@[old_slices[k] as int] == before.nodes@[old_slices[k] as int]);
                }
            }
            assert forall|env: Env<T>, k: int| 0 <= k < i + 1 implies #[trigger] g.value(
                env,
                slices@[k] as int,
            ) == narrowed(
                start.value(env, state as int),
                n as nat,
                2,
                reversed(k as nat, stages_of(n)),
                1,
            ) by {
                if k < i {
                    assert(slices@[k] == old_slices[k]);
                    assert(before.value(env, old_slices[k] as int) == narrowed(
                        start.value(env, state as int),
                        n as nat,
                        2,
                        reversed(k as nat, stages_of(n)),
                        1,
                    ));
                } else {
                    assert(before.value(env, state as int) == start.value(env, state as int));
                }
            }
        }
        i += 1;
    }
    let ghost g1 = *g;
    let ghost listed = slices@;
    proof {
        assert(listed[0] < g1.nodes@.len());
        assert(1 * n == n) by (nonlinear_arith);
    }
    let reordered = g.concat(slices, 1);
    let ghost g2 = *g;
    proof {
        lemma_extends(start, g1, g2);
    }
    let (re0, im0) = split_complex_planes(g, reordered, batch, n);
    let ghost g3 = *g;
    proof {
        lemma_extends(start, g2, g3);
    }
    let shape = vec![stages, half, 2];
    assert(shape@ =~= seq![stages, half, 2usize]);
    let packed = g.param(tw_name, shape);
    let ghost g4 = *g;
    proof {
        lemma_extends(start, g3, g4);
        assert(g4.nodes@[re0 as int] == g3.nodes@[re0 as int]);
        assert(g4.nodes@[im0 as int] == g3.nodes@[im0 as int]);
        assert forall|env: Env<T>|
            #![trigger g4.value(env, re0 as int)]
            start.value(env, state as int).len() == batch * (2 * n) implies g4.value(
            env,
            re0 as int,
        ) == even_places(
            by_rows(start.value(env, state as int), n as int, permute_map(n)),
        ) && g4.value(env, im0 as int) == odd_places(
            by_rows(start.value(env, state as int), n as int, permute_map(n)),
        ) by {
            let v = start.value(env, state as int);
            let parts = g1.values(env, listed);
            assert forall|k: int| 0 <= k < n implies #[trigger] parts[k] == narrowed(
                v,
                n as nat,
                2,
                reversed(k as nat, stages_of(n)),
                1,
            ) by {
                assert(g1.value(env, listed[k] as int) == narrowed(
                    v,
                    n as nat,
                    2,
                    reversed(k as nat, stages_of(n)),
                    1,
                ));
            }
            lemma_reordered(v, parts, n, batch as nat);
            assert((1usize * 2nat) as int == 2) by (nonlinear_arith);
            assert(g2.value(env, reordered as int) == by_rows(v, n as int, permute_map(n)));
            assert(g4.value(env, re0 as int) == g3.value(env, re0 as int));
            assert(g4.value(env, im0 as int) == g3.value(env, im0 as int));
        }
    }
    let mut re: usize = re0;
    let mut im: usize = im0;
    let mut s: usize = 0;
    while s < stages
        invariant
            s <= stages,
            n == cfg.n_fft,
            n > 0,
            half == n / 2,
            countable_rows(batch, n),
            stages == stages_of(n),
            g.well_formed(),
            g.extends(g4),
            re < g.nodes@.len(),
            im < g.nodes@.len(),
            packed < g4.nodes@.len(),
            g4.shape(packed as int) == seq![stages, half, 2usize],
            g.shape(re as int) == seq![batch, n],
            g.shape(im as int) == seq![batch, n],
            forall|env: Env<T>|
                #![trigger g.value(env, re as int)]
                #![trigger g.value(env, im as int)]
                g4.value(env, re0 as int).len() == batch * n && g4.value(env, im0 as int).len()
                    == batch * n && g4.value(env, packed as int).len() == stages * (half * 2)
                    ==> g.value(env, re as int) == planes_after(
                    g4.value(env, re0 as int),
                    g4.value(env, im0 as int),
                    g4.value(env, packed as int),
                    n as int,
                    s as nat,
                ).0 && g.value(env, im as int) == planes_after(
                    g4.value(env, re0 as int),
                    g4.value(env, im0 as int),
                    g4.value(env, packed as int),
                    n as int,
                    s as nat,
                ).1,
        decreases stages - s,
    {
        let ghost before = *g;
        let ghost was_re = re;
        let ghost was_im = im;
        assert(g.nodes@[packed as int] == g4.nodes@[packed as int]);
        let (next_re, next_im) = apply_butterfly_stage_vectorized(g, re, im, s, batch, n, packed);
        re = next_re;
        im = next_im;
        proof {
            lemma_extends(g4, before, *g);
            assert forall|env: Env<T>|
                #![trigger g.value(env, re as int)]
                #![trigger g.value(env, im as int)]
                g4.value(env, re0 as int).len() == batch * n && g4.value(env, im0 as int).len()
                    == batch * n && g4.value(env, packed as int).len() == stages * (half
                    * 2) implies g.value(env, re as int) == planes_after(
                g4.value(env, re0 as int),
                g4.value(env, im0 as int),
                g4.value(env, packed as int),
                n as int,
                (s + 1) as nat,
            ).0 && g.value(env, im as int) == planes_after(
                g4.value(env, re0 as int),
                g4.value(env, im0 as int),
                g4.value(env, packed as int),
                n as int,
                (s + 1) as nat,
            ).1 by {
                let x = g4.value(env, re0 as int);
                let y = g4.value(env, im0 as int);
                let tw = g4.value(env, packed as int);
                lemma_planes_len(x, y, tw, n as int, s as nat);
                assert(before.value(env, was_re as int) == planes_after(
                    x,
                    y,
                    tw,
                    n as int,
                    s as nat,
                ).0);
                assert(before.value(env, was_im as int) == planes_after(
                    x,
                    y,
                    tw,
                    n as int,
                    s as nat,
                ).1);
                assert(before.value(env, packed as int) == tw);
            }
        }
        s += 1;
    }
    let ghost g5 = *g;
    let r = merge_complex_planes(g, re, im, batch, n);
    let params = vec![ParamSlot { name: tw_name.to_owned(), param: packed, grad: None }];
    proof {
        lemma_extends(start, g4, g5);
        lemma_extends(g4, g5, *g);
        assert(g.nodes@[packed as int] == g4.nodes@[packed as int]);
        lemma_extends(start, g5, *g);
        assert forall|env: Env<T>|
            start.value(env, state as int).len() == batch * (2 * n) && (env.leaf)(tw_name@).len()
                == stages_of(n) * ((n / 2) * 2) implies #[trigger] g.value(env, r as int)
            == by_rows(
            start.value(env, state as int),
            n as int,
            transform_map((env.leaf)(tw_name@), n),
        ) by {
            let v = start.value(env, state as int);
            let tw = (env.leaf)(tw_name@);
            let sv = by_rows(v, n as int, permute_map(n));
            assert(g4.value(env, re0 as int) == even_places(sv));
            assert(g4.value(env, packed as int) == tw);
            assert(batch * (2 * n) == 2 * (batch * n)) by (nonlinear_arith);
            lemma_planes_len(even_places(sv), odd_places(sv), tw, n as int, stages as nat);
            assert(g5.value(env, re as int) == planes_after(
                even_places(sv),
                odd_places(sv),
                tw,
                n as int,
                stages as nat,
            ).0);
            lemma_whole(v, tw, n, batch as nat);
        }
    }
    (params, r)
}

// ---------------------------------------------------------------------------
// Whole graphs
// ---------------------------------------------------------------------------

/// A parameter of a graph.
#[derive(Debug, Clone)]
pub struct ParamSlot {
    pub name: String,
    pub param: usize,
    pub grad: Option<usize>,
}

/// A transform as a graph, with the place of its input and of its result.
#[derive(Debug)]
pub struct ButterflyGraph<T> {
    pub graph: GraphPlan<T>,
    pub params: Vec<ParamSlot>,
    pub signal_in: usize,
    pub spectrum_out: usize,
}

impl<T: Scalar> ButterflyGraph<T> {
    /// What the graph gives.
    pub open spec fn result(&self, env: Env<T>) -> Seq<T> {
        self.graph.value(env, self.spectrum_out as int)
    }

    /// Whether the graph reads an input and the packed twiddles, and gives one result.
    pub open spec fn well_formed(
        &self,
        name: Seq<char>,
        input: Seq<char>,
        twiddles: Seq<char>,
        shape: Seq<usize>,
    ) -> bool {
        &&& self.graph.well_formed()
        &&& self.graph.name@ == name
        &&& self.signal_in < self.graph.nodes@.len()
        &&& self.graph.nodes@[self.signal_in as int].op matches GraphOp::Input { name } && name@
            == input
        &&& self.spectrum_out < self.graph.nodes@.len()
        &&& self.graph.shape(self.spectrum_out as int) == shape
        &&& self.graph.outputs@ == seq![self.spectrum_out]
        &&& self.params@.len() == 1
        &&& self.params@[0].name@ == twiddles
        &&& self.params@[0].grad is None
        &&& self.params@[0].param < self.graph.nodes@.len()
        &&& self.graph.nodes@[self.params@[0].param as int].op matches GraphOp::Param { name }
            && name@ == twiddles
    }
}

/// Real rows as rows of complex numbers, whose imaginary parts are a number less itself.
pub open spec fn made_complex<T: Scalar>(signal: Seq<T>) -> Seq<T> {
    interleaved(signal, subtracted(signal, signal))
}

/// The rows of a transform, place by place.
pub(crate) proof fn lemma_forward_at<T: Scalar>(signal: Seq<T>, tw: Seq<T>, n_fft: usize, k: nat, p: int)
    requires
        n_fft > 0,
        0 <= p < k * (2 * n_fft),
    ensures
        forward_rows(signal, tw, n_fft, k).len() == k * (2 * n_fft),
        forward_rows(signal, tw, n_fft, k)[p] == transformed(
            as_complex(signal, (p / (2 * n_fft as int)) * n_fft, n_fft as int),
            tw,
            n_fft,
        )[p % (2 * n_fft as int)],
    decreases k,
{
    let two = 2 * n_fft as int;
    lemma_row_place(p, n_fft as int, k as int);
    lemma_forward_len(signal, tw, n_fft, k);
    if k > 0 {
        let h = (k - 1) as nat;
        lemma_forward_len(signal, tw, n_fft, h);
        let line = as_complex(signal, h * n_fft, n_fft as int);
        lemma_transformed_len(line, tw, n_fft);
        assert(k * two == h * two + two) by (nonlinear_arith)
            requires
                k == h + 1,
        ;
        if p < h * two {
            lemma_forward_at(signal, tw, n_fft, h, p);
        } else {
            assert(p == two * h + (p - h * two)) by (nonlinear_arith);
            vstd::arithmetic::div_mod::lemma_fundamental_div_mod_converse(
                p,
                two,
                h as int,
                p - h * two,
            );
        }
    }
}

proof fn lemma_forward_len<T: Scalar>(signal: Seq<T>, tw: Seq<T>, n_fft: usize, k: nat)
    ensures
        forward_rows(signal, tw, n_fft, k).len() == k * (2 * n_fft),
    decreases k,
{
    let two = 2 * n_fft as int;
    if k > 0 {
        let h = (k - 1) as nat;
        lemma_forward_len(signal, tw, n_fft, h);
        lemma_transformed_len(as_complex(signal, h * n_fft, n_fft as int), tw, n_fft);
        assert(k * two == h * two + two) by (nonlinear_arith)
            requires
                k == h + 1,
        ;
    } else {
        assert(0 * two == 0) by (nonlinear_arith);
    }
}

/// The rows of an inverse transform, one after the other, are the transform row by row.
proof fn lemma_inverse_by_rows<T: Scalar>(v: Seq<T>, tw: Seq<T>, n_fft: usize, k: nat)
    requires
        n_fft > 0,
        k * (2 * n_fft) <= v.len(),
    ensures
        inverse_rows(v, tw, n_fft, k) == by_rows(v, n_fft as int, inverse_map(tw, n_fft)).take(
            k * (2 * n_fft),
        ),
    decreases k,
{
    let two = 2 * n_fft as int;
    let whole = by_rows(v, n_fft as int, inverse_map(tw, n_fft));
    assert(0 * two == 0) by (nonlinear_arith);
    if k == 0 {
        assert(whole.take(0) =~= Seq::<T>::empty());
    } else {
        let h = (k - 1) as nat;
        assert(k * two == h * two + two) by (nonlinear_arith)
            requires
                k == h + 1,
        ;
        assert(0 <= h * two) by (nonlinear_arith)
            requires
                h >= 0,
                two >= 0,
        ;
        lemma_inverse_by_rows(v, tw, n_fft, h);
        let line = complex_row(v, h as int, n_fft as int);
        assert((h + 1) * two == k * two);
        assert(line == v.subrange((k - 1) * (2 * n_fft), k * (2 * n_fft)));
        let last = inverse_transformed(line, tw, n_fft);
        lemma_transformed_len(conjugated(line, n_fft as int), tw, n_fft);
        assert(whole.take(h * two) + last =~= whole.take(k * two)) by {
            assert forall|p: int| h * two <= p < k * two implies #[trigger] whole[p] == last[p - h
                * two] by {
                assert(p == two * h + (p - h * two)) by (nonlinear_arith);
                vstd::arithmetic::div_mod::lemma_fundamental_div_mod_converse(
                    p,
                    two,
                    h as int,
                    p - h * two,
                );
            }
        }
    }
}

/// The rows that are given to the graph of the forward transform are what
/// [`crate::butterfly::butterfly_forward_real_batch`] works on: over the numbers of a ring a
/// number less itself is nought, so that the graph computes the same transforms.
pub proof fn forward_graph_transforms_the_batch<T: Ring>(
    signal: Seq<T>,
    tw: Seq<T>,
    n_fft: usize,
    batch: nat,
)
    requires
        n_fft > 0,
        signal.len() == batch * n_fft,
        all_valid(signal),
    ensures
        by_rows(made_complex(signal), n_fft as int, transform_map(tw, n_fft)) == forward_rows(
            signal,
            tw,
            n_fft,
            batch,
        ),
{
    let n = n_fft as int;
    let two = 2 * n;
    let m = made_complex(signal);
    let left = by_rows(m, n, transform_map(tw, n_fft));
    let right = forward_rows(signal, tw, n_fft, batch);
    lemma_forward_len(signal, tw, n_fft, batch);
    assert(batch * two == 2 * (batch * n)) by (nonlinear_arith)
        requires
            two == 2 * n,
    ;
    assert forall|p: int| 0 <= p < left.len() implies left[p] == right[p] by {
        lemma_row_place(p, n, batch as int);
        lemma_forward_at(signal, tw, n_fft, batch, p);
        let row = p / two;
        let line = complex_row(m, row, n);
        let want = as_complex(signal, row * n, n);
        assert(line =~= want) by {
            assert forall|i: int| 0 <= i < two implies line[i] == want[i] by {
                let at = row * two + i;
                assert(at == 2 * (row * n + i / 2) + i % 2) by (nonlinear_arith)
                    requires
                        at == row * two + i,
                        two == 2 * n,
                        i == 2 * (i / 2) + i % 2,
                ;
                let h = row * n + i / 2;
                assert(at / 2 == h && at % 2 == i % 2);
                vstd::arithmetic::div_mod::lemma_small_mod(h as nat, signal.len());
                let x = signal[h];
                assert(T::valid(x));
                T::difference_adds_the_opposite(x, x);
                T::opposite_cancels(x);
            }
        }
    }
    assert(left =~= right);
}

/// The graph of the forward transform of a batch of real rows.
pub fn build_butterfly_forward_graph<T: Scalar>(cfg: &FftLearnConfig, tw_name: &str) -> (r:
    ButterflyGraph<T>)
    requires
        cfg.well_formed(),
        countable_rows(cfg.batch, cfg.n_fft),
    ensures
        r.well_formed(
            "fft_butterfly"@,
            "signal"@,
            tw_name@,
            seq![cfg.batch, cfg.n_fft, 2usize],
        ),
        forall|env: Env<T>|
            (env.leaf)("signal"@).len() == cfg.batch * cfg.n_fft && (env.leaf)(tw_name@).len()
                == stages_of(cfg.n_fft) * ((cfg.n_fft / 2) * 2) ==> #[trigger] r.result(env)
                == by_rows(
                made_complex((env.leaf)("signal"@)),
                cfg.n_fft as int,
                transform_map((env.leaf)(tw_name@), cfg.n_fft),
            ),
{
    let n: usize = cfg.n_fft;
    let batch: usize = cfg.batch;
    let mut g: GraphPlan<T> = GraphPlan::new("fft_butterfly");
    let shape = vec![batch, n];
    assert(shape@ =~= seq![batch, n]);
    let signal_in = g.input("signal", shape);
    let ghost g1 = g;
    let zeros = g.minus(signal_in, signal_in);
    let ghost g2 = g;
    assert(g2.nodes@[signal_in as int] == g1.nodes@[signal_in as int]);
    let state = merge_complex_planes(&mut g, signal_in, zeros, batch, n);
    let ghost g3 = g;
    let (params, out) = append_forward_butterfly(&mut g, cfg, state, tw_name);
    let ghost g4 = g;
    proof {
        lemma_extends(g1, g2, g3);
        lemma_extends(g1, g3, g4);
        assert(g4.nodes@[signal_in as int] == g1.nodes@[signal_in as int]);
    }
    let outputs = vec![out];
    assert(outputs@ =~= seq![out]);
    g.set_outputs(outputs);
    let r = ButterflyGraph { graph: g, params, signal_in, spectrum_out: out };
    proof {
        assert forall|env: Env<T>|
            (env.leaf)("signal"@).len() == batch * n && (env.leaf)(tw_name@).len() == stages_of(n)
                * ((n / 2) * 2) implies #[trigger] r.result(env) == by_rows(
            made_complex((env.leaf)("signal"@)),
            n as int,
            transform_map((env.leaf)(tw_name@), n),
        ) by {
            let s = (env.leaf)("signal"@);
            assert(g1.value(env, signal_in as int) == s);
            assert(g2.value(env, signal_in as int) == s);
            assert(g2.value(env, zeros as int) == subtracted(s, s));
            assert(g3.value(env, state as int) == made_complex(s));
            assert(batch * (2 * n) == 2 * (batch * n)) by (nonlinear_arith);
            assert(r.result(env) == g4.value(env, out as int));
        }
    }
    r
}

/// A tensor of complex numbers with the imaginary parts turned around.
fn append_conjugate<T: Scalar>(g: &mut GraphPlan<T>, state: usize, batch: usize, n: usize) -> (r:
    usize)
    requires
        old(g).well_formed(),
        state < old(g).nodes@.len(),
        old(g).shape(state as int) == seq![batch, n, 2usize],
    ensures
        final(g).well_formed(),
        final(g).extends(*old(g)),
        r < final(g).nodes@.len(),
        final(g).shape(r as int) == seq![batch, n, 2usize],
        forall|env: Env<T>|
            old(g).value(env, state as int).len() % 2 == 0 ==> #[trigger] final(g).value(
                env,
                r as int,
            ) == conjugated(
                old(g).value(env, state as int),
                old(g).value(env, state as int).len() as int,
            ),
{
    let ghost start = *g;
    proof {
        lemma_three(batch, n, 2);
        lemma_three(batch, n, 1);
        assert(seq![batch, n, 2usize].update(2, 1usize) =~= seq![batch, n, 1usize]);
        assert(seq![batch, n, 1usize].update(2, 2usize) =~= seq![batch, n, 2usize]);
    }
    let re = g.narrow(state, 2, 0, 1);
    let ghost g1 = *g;
    assert(g1.nodes@[state as int] == start.nodes@[state as int]);
    let im = g.narrow(state, 2, 1, 1);
    let ghost g2 = *g;
    let conj_im = g.neg(im);
    let ghost g3 = *g;
    proof {
        lemma_extends(start, g1, g2);
        lemma_extends(start, g2, g3);
        lemma_extends(g1, g2, g3);
        assert(g3.nodes@[re as int] == g1.nodes@[re as int]);
    }
    let parts = vec![re, conj_im];
    let ghost listed = parts@;
    assert(listed =~= seq![re, conj_im]);
    let r = g.concat(parts, 2);
    proof {
        lemma_extends(start, g3, *g);
        assert forall|env: Env<T>|
            start.value(env, state as int).len() % 2 == 0 implies #[trigger] g.value(env, r as int)
            == conjugated(
            start.value(env, state as int),
            start.value(env, state as int).len() as int,
        ) by {
            let v = start.value(env, state as int);
            lemma_narrow_pairs(v);
            assert(g1.value(env, state as int) == v);
            assert(g3.value(env, re as int) == g1.value(env, re as int));
            assert(g3.value(env, conj_im as int) == negated(odd_places(v)));
            assert(g3.values(env, listed) =~= seq![even_places(v), negated(odd_places(v))]);
            lemma_join_pairs(even_places(v), negated(odd_places(v)));
            assert(interleaved(even_places(v), negated(odd_places(v))) =~= conjugated(
                v,
                v.len() as int,
            ));
        }
    }
    r
}

/// Turning around, transforming and turning around again is the inverse transform of every row.
proof fn lemma_turned_around<T: Scalar>(v: Seq<T>, tw: Seq<T>, n_fft: usize, rows: nat)
    requires
        n_fft > 0,
        v.len() == rows * (2 * n_fft),
    ensures
        ({
            let n = n_fft as int;
            let len = v.len() as int;
            conjugated(
                by_rows(conjugated(v, len), n, transform_map(tw, n_fft)),
                len,
            ) == inverse_rows(v, tw, n_fft, rows)
        }),
{
    let n = n_fft as int;
    let len = v.len() as int;
    let c = conjugated(v, len);
    let left = conjugated(by_rows(c, n, transform_map(tw, n_fft)), len);
    let right = by_rows(v, n, inverse_map(tw, n_fft));
    assert forall|p: int| 0 <= p < len implies left[p] == right[p] by {
        lemma_row_place(p, n, rows as int);
        let row = p / (2 * n);
        let i = p % (2 * n);
        let line = complex_row(v, row, n);
        assert(complex_row(c, row, n) =~= conjugated(line, n)) by {
            assert forall|x: int| 0 <= x < 2 * n implies complex_row(c, row, n)[x] == conjugated(
                line,
                n,
            )[x] by {
                let at = row * (2 * n) + x;
                assert(at == 2 * (row * n) + x) by (nonlinear_arith)
                    requires
                        at == row * (2 * n) + x,
                ;
            }
        }
        lemma_transformed_len(conjugated(line, n), tw, n_fft);
    }
    assert(left =~= right);
    lemma_inverse_by_rows(v, tw, n_fft, rows);
    assert(right.take(len) =~= right);
}

/// The graph of the inverse transform of a batch of spectra: it computes what
/// [`crate::butterfly::butterfly_inverse_complex_batch`] gives.
pub fn build_butterfly_inverse_graph<T: Scalar>(cfg: &FftLearnConfig, tw_name: &str) -> (r:
    ButterflyGraph<T>)
    requires
        cfg.well_formed(),
        countable_rows(cfg.batch, cfg.n_fft),
    ensures
        r.well_formed(
            "ifft_butterfly"@,
            "spectrum"@,
            tw_name@,
            seq![cfg.batch, cfg.n_fft, 2usize],
        ),
        forall|env: Env<T>|
            (env.leaf)("spectrum"@).len() == cfg.batch * (2 * cfg.n_fft) && (env.leaf)(
                tw_name@,
            ).len() == stages_of(cfg.n_fft) * ((cfg.n_fft / 2) * 2) ==> #[trigger] r.result(env)
                == inverse_rows(
                (env.leaf)("spectrum"@),
                (env.leaf)(tw_name@),
                cfg.n_fft,
                cfg.batch as nat,
            ),
{
    let n: usize = cfg.n_fft;
    let batch: usize = cfg.batch;
    let mut g: GraphPlan<T> = GraphPlan::new("ifft_butterfly");
    let shape = vec![batch, n, 2];
    assert(shape@ =~= seq![batch, n, 2usize]);
    let spectrum_in = g.input("spectrum", shape);
    let ghost g1 = g;
    let state = append_conjugate(&mut g, spectrum_in, batch, n);
    let ghost g2 = g;
    let (params, turned) = append_forward_butterfly(&mut g, cfg, state, tw_name);
    let ghost g3 = g;
    let output = append_conjugate(&mut g, turned, batch, n);
    let ghost g4 = g;
    proof {
        lemma_extends(g1, g2, g3);
        lemma_extends(g1, g3, g4);
        assert(g4.nodes@[spectrum_in as int] == g1.nodes@[spectrum_in as int]);
        assert(g4.nodes@[params@[0].param as int] == g3.nodes@[params@[0].param as int]);
    }
    let outputs = vec![output];
    assert(outputs@ =~= seq![output]);
    g.set_outputs(outputs);
    let r = ButterflyGraph { graph: g, params, signal_in: spectrum_in, spectrum_out: output };
    proof {
        assert forall|env: Env<T>|
            (env.leaf)("spectrum"@).len() == batch * (2 * n) && (env.leaf)(tw_name@).len()
                == stages_of(n) * ((n / 2) * 2) implies #[trigger] r.result(env) == inverse_rows(
            (env.leaf)("spectrum"@),
            (env.leaf)(tw_name@),
            n,
            batch as nat,
        ) by {
            let v = (env.leaf)("spectrum"@);
            let tw = (env.leaf)(tw_name@);
            assert(batch * (2 * n) == 2 * (batch * n)) by (nonlinear_arith);
            assert(g1.value(env, spectrum_in as int) == v);
            assert(g2.value(env, state as int) == conjugated(v, v.len() as int));
            let t = by_rows(conjugated(v, v.len() as int), n as int, transform_map(tw, n));
            assert(g3.value(env, turned as int) == t);
            assert(g4.value(env, output as int) == conjugated(t, t.len() as int));
            lemma_turned_around(v, tw, n, batch as nat);
            assert(r.result(env) == g4.value(env, output as int));
        }
    }
    r
}

} // verus!
