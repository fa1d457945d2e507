//! The graphs that are deployed: windows, corrections and mel heads around a transform.

use crate::butterfly::{as_interleaved, as_planes, stages_of};
use crate::butterfly_graph::{
    build_butterfly_forward_graph, by_rows, countable_rows, even_places, interleaved,
    lemma_extends, lemma_row_place, lemma_three, lemma_two, made_complex, merge_complex_planes,
    odd_places, split_complex_planes, transform_map, ButterflyGraph,
};
use crate::config::FftLearnConfig;
use crate::graph::{
    added, inner_of, matrix_product, multiplied, narrowed, ones_up_to, repeats_in, side_by_side,
    size_of, small, subtracted, Env, GraphNode, GraphOp, GraphPlan,
};
use crate::scalar::Scalar;
use crate::text::texts;
use vstd::prelude::*;

verus! {

proof fn lemma_one(a: usize)
    ensures
        size_of(seq![a]) == a,
        1 <= a <= i64::MAX ==> small(seq![a]),
{
    reveal_with_fuel(inner_of, 3);
    assert(inner_of(seq![a], 0) == 1);
    assert(inner_of(seq![a], -1) == a * inner_of(seq![a], 0));
    assert(a * 1 == a) by (nonlinear_arith);
}

proof fn lemma_single(batch: usize, n: usize)
    requires
        batch >= 1,
        batch * n <= i64::MAX,
    ensures
        n <= i64::MAX,
{
    assert(n <= batch * n) by (nonlinear_arith)
        requires
            batch >= 1,
            n >= 0,
    ;
}

/// A batch whose spectra can be laid out can be laid out itself.
proof fn lemma_half_rows(batch: usize, n: usize)
    requires
        n >= 1,
        2 * n <= usize::MAX,
        countable_rows(batch, (2 * n) as usize),
    ensures
        countable_rows(batch, n),
{
    assert(batch * n <= batch * (2 * n)) by (nonlinear_arith)
        requires
            batch >= 0,
            n >= 0,
    ;
}

/// A row, with or without a dimension before it, repeats within a batch of rows.
proof fn lemma_row_repeats(batch: usize, n: usize)
    ensures
        repeats_in(seq![n], seq![batch, n]),
        repeats_in(seq![1usize, n], seq![batch, n]),
{
    let row = seq![1usize, n];
    let whole = seq![batch, n];
    assert forall|k: int| 0 <= k < row.len() implies #[trigger] row[k] == whole[k + whole.len()
        - row.len()] || ones_up_to(row, k) by {
        if k == 0 {
            assert(ones_up_to(row, 0));
        }
    }
}

/// Weighs the rows of a signal with the parameter `hann`.
pub fn append_hann_window<T: Scalar>(
    g: &mut GraphPlan<T>,
    signal: usize,
    batch: usize,
    n_fft: usize,
) -> (r: (usize, &'static str))
    requires
        old(g).well_formed(),
        signal < old(g).nodes@.len(),
        1 <= n_fft <= i64::MAX,
        old(g).shape(signal as int) == seq![batch, n_fft],
    ensures
        r.1@ == "hann"@,
        final(g).well_formed(),
        final(g).extends(*old(g)),
        r.0 < final(g).nodes@.len(),
        final(g).shape(r.0 as int) == old(g).shape(signal as int),
        forall|env: Env<T>| #[trigger]
            final(g).value(env, r.0 as int) == multiplied(
                old(g).value(env, signal as int),
                (env.leaf)("hann"@),
            ),
{
    let ghost start = *g;
    proof {
        lemma_one(n_fft);
        lemma_two(1, n_fft);
        assert(1 * n_fft == n_fft) by (nonlinear_arith);
    }
    let shape = vec![n_fft];
    assert(shape@ =~= seq![n_fft]);
    let hann = g.param("hann", shape);
    let ghost g1 = *g;
    let shape = vec![1, n_fft];
    assert(shape@ =~= seq![1usize, n_fft]);
    let hann_bc = g.reshape(hann, shape);
    let ghost g2 = *g;
    proof {
        lemma_extends(start, g1, g2);
        assert(g2.nodes@[signal as int] == start.nodes@[signal as int]);
        lemma_row_repeats(batch, n_fft);
    }
    let windowed = g.times(signal, hann_bc);
    proof {
        lemma_extends(start, g2, *g);
        assert forall|env: Env<T>| #[trigger] g.value(env, windowed as int) == multiplied(
            start.value(env, signal as int),
            (env.leaf)("hann"@),
        ) by {
            assert(g2.value(env, signal as int) == start.value(env, signal as int));
            assert(g1.value(env, hann as int) == (env.leaf)("hann"@));
        }
    }
    (windowed, "hann")
}

/// Whether the spectra of a batch can be laid out: there are some, and their numbers can be counted.
pub open spec fn spectra_fit(cfg: FftLearnConfig) -> bool {
    cfg.n_fft >= 1 && 2 * cfg.n_fft <= usize::MAX && countable_rows(
        cfg.batch,
        (2 * cfg.n_fft) as usize,
    )
}

/// A gain and a bias for every number of a spectrum.
pub open spec fn affine<T: Scalar>(v: Seq<T>, gain: Seq<T>, bias: Seq<T>) -> Seq<T> {
    added(multiplied(v, gain), bias)
}

/// Corrects a spectrum by the parameters `corr.gain` and `corr.bias`.
pub fn append_spectrum_correction<T: Scalar>(
    g: &mut GraphPlan<T>,
    spectrum: usize,
    cfg: &FftLearnConfig,
    param_names: &mut Vec<String>,
) -> (r: usize)
    requires
        old(g).well_formed(),
        spectrum < old(g).nodes@.len(),
        spectra_fit(*cfg),
        small(old(g).shape(spectrum as int)),
        size_of(old(g).shape(spectrum as int)) == cfg.batch * (2 * cfg.n_fft),
    ensures
        final(g).well_formed(),
        final(g).extends(*old(g)),
        r < final(g).nodes@.len(),
        final(g).shape(r as int) == seq![cfg.batch, (2 * cfg.n_fft) as usize],
        texts(final(param_names)@) == texts(old(param_names)@) + seq!["corr.gain"@, "corr.bias"@],
        forall|env: Env<T>| #[trigger]
            final(g).value(env, r as int) == affine(
                old(g).value(env, spectrum as int),
                (env.leaf)("corr.gain"@),
                (env.leaf)("corr.bias"@),
            ),
{
    let ghost start = *g;
    let ghost named = param_names@;
    let flat_len: usize = 2 * cfg.n_fft;
    let batch: usize = cfg.batch;
    proof {
        lemma_two(batch, flat_len);
        lemma_row_repeats(batch, flat_len);
    }
    let shape = vec![batch, flat_len];
    assert(shape@ =~= seq![batch, flat_len]);
    let flat = g.reshape(spectrum, shape);
    let ghost g1 = *g;
    let row = vec![flat_len];
    assert(row@ =~= seq![flat_len]);
    let gain = g.param("corr.gain", row);
    let ghost g2 = *g;
    let row = vec![flat_len];
    assert(row@ =~= seq![flat_len]);
    let bias = g.param("corr.bias", row);
    let ghost g3 = *g;
    param_names.push("corr.gain".to_owned());
    param_names.push("corr.bias".to_owned());
    proof {
        assert(texts(param_names@) =~= texts(named) + seq!["corr.gain"@, "corr.bias"@]);
        lemma_extends(start, g1, g2);
        lemma_extends(start, g2, g3);
        lemma_extends(g1, g2, g3);
        assert(g3.nodes@[flat as int] == g1.nodes@[flat as int]);
    }
    let scaled = g.times(flat, gain);
    let ghost g4 = *g;
    let r = g.plus(scaled, bias);
    proof {
        lemma_extends(start, g3, g4);
        lemma_extends(start, g4, *g);
        assert forall|env: Env<T>| #[trigger] g.value(env, r as int) == affine(
            start.value(env, spectrum as int),
            (env.leaf)("corr.gain"@),
            (env.leaf)("corr.bias"@),
        ) by {
            assert(g3.value(env, flat as int) == g1.value(env, flat as int));
            assert(g3.value(env, gain as int) == g2.value(env, gain as int));
            assert(g4.value(env, bias as int) == g3.value(env, bias as int));
        }
    }
    r
}

/// Corrects a spectrum by the matrix `<prefix>.band_rhs` and the bias `<prefix>.bias`.
pub fn append_banded_spectrum_correction<T: Scalar>(
    g: &mut GraphPlan<T>,
    spectrum: usize,
    cfg: &FftLearnConfig,
    prefix: &str,
    param_names: &mut Vec<String>,
) -> (r: usize)
    requires
        old(g).well_formed(),
        spectrum < old(g).nodes@.len(),
        spectra_fit(*cfg),
        small(old(g).shape(spectrum as int)),
        size_of(old(g).shape(spectrum as int)) == cfg.batch * (2 * cfg.n_fft),
    ensures
        final(g).well_formed(),
        final(g).extends(*old(g)),
        r < final(g).nodes@.len(),
        final(g).shape(r as int) == seq![cfg.batch, (2 * cfg.n_fft) as usize],
        texts(final(param_names)@) == texts(old(param_names)@) + seq![
            prefix@ + ".band_rhs"@,
            prefix@ + ".bias"@,
        ],
        forall|env: Env<T>| #[trigger]
            final(g).value(env, r as int) == added(
                matrix_product(
                    old(g).value(env, spectrum as int),
                    (env.leaf)(prefix@ + ".band_rhs"@),
                    2 * cfg.n_fft,
                    2 * cfg.n_fft,
                ),
                (env.leaf)(prefix@ + ".bias"@),
            ),
{
    let ghost start = *g;
    let ghost named = param_names@;
    let flat_len: usize = 2 * cfg.n_fft;
    let batch: usize = cfg.batch;
    proof {
        lemma_one(flat_len);
        lemma_row_repeats(batch, flat_len);
        lemma_single(batch, flat_len);
        lemma_two(batch, flat_len);
        lemma_two(1, flat_len);
        assert(1 * flat_len == flat_len) by (nonlinear_arith);
    }
    let shape = vec![batch, flat_len];
    assert(shape@ =~= seq![batch, flat_len]);
    let flat = g.reshape(spectrum, shape);
    let ghost g1 = *g;
    let mut w_name: String = prefix.to_owned();
    w_name.push_str(".band_rhs");
    let mut b_name: String = prefix.to_owned();
    b_name.push_str(".bias");
    let shape = vec![flat_len, flat_len];
    assert(shape@ =~= seq![flat_len, flat_len]);
    let w = g.param(w_name.as_str(), shape);
    let ghost g2 = *g;
    let shape = vec![flat_len];
    assert(shape@ =~= seq![flat_len]);
    let bias = g.param(b_name.as_str(), shape);
    let ghost g3 = *g;
    param_names.push(w_name);
    param_names.push(b_name);
    proof {
        assert(texts(param_names@) =~= texts(named) + seq![
            prefix@ + ".band_rhs"@,
            prefix@ + ".bias"@,
        ]);
        lemma_extends(start, g1, g2);
        lemma_extends(start, g2, g3);
        lemma_extends(g1, g2, g3);
        assert(g3.nodes@[flat as int] == g1.nodes@[flat as int]);
        assert(g3.nodes@[w as int] == g2.nodes@[w as int]);
    }
    let mixed = g.matmul(flat, w);
    let ghost g4 = *g;
    assert(g4.nodes@[bias as int] == g3.nodes@[bias as int]);
    let shape = vec![1, flat_len];
    assert(shape@ =~= seq![1usize, flat_len]);
    let bias_bc = g.reshape(bias, shape);
    let ghost g5 = *g;
    assert(g5.nodes@[mixed as int] == g4.nodes@[mixed as int]);
    let r = g.plus(mixed, bias_bc);
    proof {
        lemma_extends(start, g3, g4);
        lemma_extends(start, g4, g5);
        lemma_extends(start, g5, *g);
        assert(seq![batch, flat_len] =~= seq![cfg.batch, (2 * cfg.n_fft) as usize]);
        assert forall|env: Env<T>| #[trigger] g.value(env, r as int) == added(
            matrix_product(
                start.value(env, spectrum as int),
                (env.leaf)(prefix@ + ".band_rhs"@),
                2 * cfg.n_fft,
                2 * cfg.n_fft,
            ),
            (env.leaf)(prefix@ + ".bias"@),
        ) by {
            assert(g3.value(env, flat as int) == g1.value(env, flat as int));
            assert(g3.value(env, w as int) == g2.value(env, w as int));
            assert(g4.value(env, bias as int) == g3.value(env, bias as int));
            assert(g5.value(env, mixed as int) == g4.value(env, mixed as int));
        }
    }
    r
}

/// The mel energies of a spectrum, by the parameter `mel.filters`.
pub fn append_log_mel_head<T: Scalar>(
    g: &mut GraphPlan<T>,
    corrected: usize,
    cfg: &FftLearnConfig,
    n_mels: usize,
    param_names: &mut Vec<String>,
) -> (r: usize)
    requires
        old(g).well_formed(),
        corrected < old(g).nodes@.len(),
        old(g).shape(corrected as int).len() == 2,
        old(g).shape(corrected as int)[1] == 2 * cfg.n_fft,
    ensures
        final(g).well_formed(),
        final(g).extends(*old(g)),
        r < final(g).nodes@.len(),
        final(g).shape(r as int) == seq![old(g).shape(corrected as int)[0], n_mels],
        texts(final(param_names)@) == texts(old(param_names)@) + seq!["mel.filters"@],
        forall|env: Env<T>| #[trigger]
            final(g).value(env, r as int) == (env.log_mel)(
                old(g).value(env, corrected as int),
                (env.leaf)("mel.filters"@),
            ),
{
    let ghost start = *g;
    let ghost named = param_names@;
    let n_bins: usize = cfg.n_fft / 2 + 1;
    let shape = vec![n_mels, n_bins];
    assert(shape@ =~= seq![n_mels, n_bins]);
    let filters = g.param("mel.filters", shape);
    let ghost g1 = *g;
    param_names.push("mel.filters".to_owned());
    assert(texts(param_names@) =~= texts(named) + seq!["mel.filters"@]);
    assert(g1.nodes@[corrected as int] == start.nodes@[corrected as int]);
    let r = g.log_mel(corrected, filters);
    proof {
        lemma_extends(start, g1, *g);
        assert forall|env: Env<T>| #[trigger] g.value(env, r as int) == (env.log_mel)(
            start.value(env, corrected as int),
            (env.leaf)("mel.filters"@),
        ) by {
            assert(g1.value(env, corrected as int) == start.value(env, corrected as int));
        }
    }
    r
}

// ---------------------------------------------------------------------------
// Layouts
// ---------------------------------------------------------------------------

/// Two planes of a row as interleaved numbers.
pub open spec fn interleave_map<T>(n_fft: int) -> spec_fn(Seq<T>) -> Seq<T> {
    |row: Seq<T>| as_interleaved(row, n_fft)
}

/// The interleaved numbers of a row as two planes.
pub open spec fn planes_map<T>(n_fft: int) -> spec_fn(Seq<T>) -> Seq<T> {
    |row: Seq<T>| as_planes(row, n_fft)
}

proof fn lemma_halves<T>(v: Seq<T>, n: nat, rows: nat)
    requires
        n > 0,
        v.len() == rows * (2 * n),
    ensures
        narrowed(v, 2 * n, 1, 0, n).len() == rows * n,
        narrowed(v, 2 * n, 1, n, n).len() == rows * n,
        interleaved(narrowed(v, 2 * n, 1, 0, n), narrowed(v, 2 * n, 1, n, n)) == by_rows(
            v,
            n as int,
            interleave_map(n as int),
        ),
{
    let a = narrowed(v, 2 * n, 1, 0, n);
    let b = narrowed(v, 2 * n, 1, n, n);
    let out = by_rows(v, n as int, interleave_map(n as int));
    let two = 2 * n as int;
    assert((2 * n) * 1 == two) by (nonlinear_arith)
        requires
            two == 2 * n,
    ;
    assert(n * 1 == n) by (nonlinear_arith);
    assert(v.len() == two * rows + 0) by (nonlinear_arith)
        requires
            v.len() == rows * two,
    ;
    vstd::arithmetic::div_mod::lemma_fundamental_div_mod_converse(
        v.len() as int,
        two,
        rows as int,
        0,
    );
    assert(rows * two == 2 * (rows * n)) by (nonlinear_arith)
        requires
            two == 2 * n,
    ;
    let got = interleaved(a, b);
    assert forall|p: int| 0 <= p < v.len() implies got[p] == out[p] by {
        lemma_row_place(p, n as int, rows as int);
        let row = p / two;
        let i = p % two;
        let h = p / 2;
        assert(h == n * row + i / 2) by (nonlinear_arith)
            requires
                h == row * n + i / 2,
        ;
        vstd::arithmetic::div_mod::lemma_fundamental_div_mod_converse(h, n as int, row, i / 2);
        assert(0 * 1 == 0);
    }
    assert(got =~= out);
}

/// Rows of two planes as rows of interleaved complex numbers.
pub fn append_block_to_interleaved<T: Scalar>(
    g: &mut GraphPlan<T>,
    block: usize,
    batch: usize,
    n_fft: usize,
) -> (r: usize)
    requires
        old(g).well_formed(),
        block < old(g).nodes@.len(),
        n_fft > 0,
        2 * n_fft <= usize::MAX,
        countable_rows(batch, (2 * n_fft) as usize),
        old(g).shape(block as int) == seq![batch, (2 * n_fft) as usize],
    ensures
        final(g).well_formed(),
        final(g).extends(*old(g)),
        r < final(g).nodes@.len(),
        final(g).shape(r as int) == seq![batch, (2 * n_fft) as usize],
        forall|env: Env<T>|
            old(g).value(env, block as int).len() == batch * (2 * n_fft) ==> #[trigger] final(g).value(env, r as int) == by_rows(
                old(g).value(env, block as int),
                n_fft as int,
                interleave_map(n_fft as int),
            ),
{
    let ghost start = *g;
    let two: usize = 2 * n_fft;
    proof {
        lemma_two(batch, two);
        lemma_two(batch, n_fft);
        lemma_three(batch, n_fft, 2);
        assert(seq![batch, two].update(1, n_fft) =~= seq![batch, n_fft]);
        assert(batch * (n_fft * 2) == batch * two) by (nonlinear_arith)
            requires
                two == 2 * n_fft,
        ;
    }
    proof {
        lemma_half_rows(batch, n_fft);
    }
    let re_plane = g.narrow(block, 1, 0, n_fft);
    let ghost g1 = *g;
    assert(g1.nodes@[block as int] == start.nodes@[block as int]);
    let im_plane = g.narrow(block, 1, n_fft, n_fft);
    let ghost g2 = *g;
    assert(g2.nodes@[re_plane as int] == g1.nodes@[re_plane as int]);
    let merged = merge_complex_planes(g, re_plane, im_plane, batch, n_fft);
    let ghost g3 = *g;
    let shape = vec![batch, two];
    assert(shape@ =~= seq![batch, two]);
    let r = g.reshape(merged, shape);
    proof {
        lemma_extends(start, g1, g2);
        lemma_extends(start, g2, g3);
        lemma_extends(start, g3, *g);
        assert forall|env: Env<T>|
            start.value(env, block as int).len() == batch * (2 * n_fft) implies #[trigger] g.value(
            env,
            r as int,
        ) == by_rows(
            start.value(env, block as int),
            n_fft as int,
            interleave_map(n_fft as int),
        ) by {
            let v = start.value(env, block as int);
            lemma_halves(v, n_fft as nat, batch as nat);
            assert(g1.value(env, block as int) == v);
            assert(g2.value(env, re_plane as int) == g1.value(env, re_plane as int));
        }
    }
    r
}

proof fn lemma_side_planes<T>(v: Seq<T>, n: nat, rows: nat)
    requires
        n > 0,
        v.len() == rows * (2 * n),
    ensures
        side_by_side(seq![even_places(v), odd_places(v)], n as int) == by_rows(
            v,
            n as int,
            planes_map(n as int),
        ),
{
    let a = even_places(v);
    let b = odd_places(v);
    let parts = seq![a, b];
    let got = side_by_side(parts, n as int);
    let out = by_rows(v, n as int, planes_map(n as int));
    let two = 2 * n as int;
    assert(parts[0] == a && parts[1] == b);
    assert(rows * two == 2 * (rows * n)) by (nonlinear_arith)
        requires
            two == 2 * n,
    ;
    assert forall|p: int| 0 <= p < v.len() implies got[p] == out[p] by {
        lemma_row_place(p, n as int, rows as int);
        let row = p / two;
        let i = p % two;
        assert((n as int) * 2 == two);
        let upper = i >= n;
        let c = if upper {
            i - n
        } else {
            i
        };
        let q = if upper {
            2 * row + 1
        } else {
            2 * row
        };
        assert(p == n * q + c) by (nonlinear_arith)
            requires
                p == row * two + i,
                two == 2 * n,
                upper ==> c == i - n && q == 2 * row + 1,
                !upper ==> c == i && q == 2 * row,
        ;
        vstd::arithmetic::div_mod::lemma_fundamental_div_mod_converse(p, n as int, q, c);
        let at = row * n + c;
        assert(2 * at == row * two + 2 * c) by (nonlinear_arith)
            requires
                at == row * n + c,
                two == 2 * n,
        ;
        assert(0 <= at < rows * n);
    }
    assert(got =~= out);
}

/// Rows of interleaved complex numbers as rows of two planes.
pub fn append_interleaved_to_block<T: Scalar>(
    g: &mut GraphPlan<T>,
    state: usize,
    batch: usize,
    n_fft: usize,
) -> (r: usize)
    requires
        old(g).well_formed(),
        state < old(g).nodes@.len(),
        n_fft > 0,
        2 * n_fft <= usize::MAX,
        countable_rows(batch, n_fft),
        old(g).shape(state as int) == seq![batch, n_fft, 2usize],
    ensures
        final(g).well_formed(),
        final(g).extends(*old(g)),
        r < final(g).nodes@.len(),
        final(g).shape(r as int) == seq![batch, (2 * n_fft) as usize],
        forall|env: Env<T>|
            old(g).value(env, state as int).len() == batch * (2 * n_fft) ==> #[trigger] final(g).value(env, r as int) == by_rows(
                old(g).value(env, state as int),
                n_fft as int,
                planes_map(n_fft as int),
            ),
{
    let ghost start = *g;
    proof {
        lemma_two(batch, n_fft);
        assert(seq![batch, n_fft].update(1, (n_fft * 2) as usize) =~= seq![
            batch,
            (2 * n_fft) as usize,
        ]);
    }
    let (re, im) = split_complex_planes(g, state, batch, n_fft);
    let ghost g1 = *g;
    let parts = vec![re, im];
    let ghost listed = parts@;
    assert(listed =~= seq![re, im]);
    let r = g.concat(parts, 1);
    proof {
        lemma_extends(start, g1, *g);
        assert(n_fft * 1 == n_fft) by (nonlinear_arith);
        assert forall|env: Env<T>|
            start.value(env, state as int).len() == batch * (2 * n_fft) implies #[trigger] g.value(
            env,
            r as int,
        ) == by_rows(start.value(env, state as int), n_fft as int, planes_map(n_fft as int)) by {
            let v = start.value(env, state as int);
            assert(g1.values(env, listed) =~= seq![even_places(v), odd_places(v)]);
            lemma_side_planes(v, n_fft as nat, batch as nat);
        }
    }
    r
}

/// Correcting the rows of two planes, with the gain and the bias in planes too, and interleaving
/// them is interleaving them and correcting then: a deployed graph that never interleaves gives the
/// corrected spectrum.
pub proof fn correction_commutes_with_the_layout<T: Scalar>(
    block: Seq<T>,
    gain: Seq<T>,
    bias: Seq<T>,
    n_fft: int,
    batch: nat,
)
    requires
        n_fft > 0,
        block.len() == batch * (2 * n_fft),
        gain.len() == 2 * n_fft,
        bias.len() == 2 * n_fft,
    ensures
        by_rows(
            affine(block, as_planes(gain, n_fft), as_planes(bias, n_fft)),
            n_fft,
            interleave_map(n_fft),
        ) == affine(by_rows(block, n_fft, interleave_map(n_fft)), gain, bias),
{
    let two = 2 * n_fft;
    let pg = as_planes(gain, n_fft);
    let pb = as_planes(bias, n_fft);
    let done = affine(block, pg, pb);
    let left = by_rows(done, n_fft, interleave_map(n_fft));
    let rows = by_rows(block, n_fft, interleave_map(n_fft));
    let right = affine(rows, gain, bias);
    assert forall|p: int| 0 <= p < block.len() implies left[p] == right[p] by {
        lemma_row_place(p, n_fft, batch as int);
        let row = p / two;
        let i = p % two;
        let c = if i % 2 == 0 {
            i / 2
        } else {
            n_fft + i / 2
        };
        let at = row * two + c;
        assert(0 <= c < two);
        assert(at == two * row + c) by (nonlinear_arith)
            requires
                at == row * two + c,
        ;
        vstd::arithmetic::div_mod::lemma_fundamental_div_mod_converse(at, two, row, c);
        assert(left[p] == done[at]);
        assert(rows[p] == block[at]);
        assert(pg[c] == gain[i]);
        assert(pb[c] == bias[i]);
    }
    assert(left =~= right);
}

// ---------------------------------------------------------------------------
// Whole graphs
// ---------------------------------------------------------------------------

/// What a learned spectrum is after its mask and its denoiser.
pub open spec fn denoised<T: Scalar>(env: Env<T>, v: Seq<T>) -> Seq<T> {
    added(
        multiplied(multiplied(v, (env.leaf)("freq_mask"@)), (env.leaf)("denoise.scale"@)),
        (env.leaf)("denoise.bias"@),
    )
}

/// The parameters of a mask and a denoiser.
pub open spec fn denoiser_names() -> Seq<Seq<char>> {
    seq!["freq_mask"@, "denoise.scale"@, "denoise.bias"@]
}

/// Masks and denoises a spectrum, and makes that the result of the graph.
pub fn append_mask_denoiser<T: Scalar>(
    g: &mut GraphPlan<T>,
    spectrum: usize,
    cfg: &FftLearnConfig,
    param_names: &mut Vec<String>,
) -> (r: usize)
    requires
        old(g).well_formed(),
        spectrum < old(g).nodes@.len(),
        spectra_fit(*cfg),
        small(old(g).shape(spectrum as int)),
        size_of(old(g).shape(spectrum as int)) == cfg.batch * (2 * cfg.n_fft),
    ensures
        final(g).well_formed(),
        final(g).name@ == old(g).name@,
        r < final(g).nodes@.len(),
        final(g).outputs@ == seq![r],
        final(g).shape(r as int) == seq![cfg.batch, (2 * cfg.n_fft) as usize],
        texts(final(param_names)@) == texts(old(param_names)@) + denoiser_names(),
        forall|env: Env<T>| #[trigger]
            final(g).value(env, r as int) == denoised(env, old(g).value(env, spectrum as int)),
{
    let ghost start = *g;
    let ghost named = param_names@;
    let flat_len: usize = 2 * cfg.n_fft;
    let batch: usize = cfg.batch;
    proof {
        lemma_two(batch, flat_len);
        lemma_row_repeats(batch, flat_len);
    }
    let shape = vec![batch, flat_len];
    assert(shape@ =~= seq![batch, flat_len]);
    let flat = g.reshape(spectrum, shape);
    let ghost g1 = *g;
    let row = vec![flat_len];
    assert(row@ =~= seq![flat_len]);
    let mask = g.param("freq_mask", row);
    let ghost g2 = *g;
    let row = vec![flat_len];
    assert(row@ =~= seq![flat_len]);
    let scale = g.param("denoise.scale", row);
    let ghost g3 = *g;
    let row = vec![flat_len];
    assert(row@ =~= seq![flat_len]);
    let bias = g.param("denoise.bias", row);
    let ghost g4 = *g;
    param_names.push("freq_mask".to_owned());
    param_names.push("denoise.scale".to_owned());
    param_names.push("denoise.bias".to_owned());
    proof {
        assert(texts(param_names@) =~= texts(named) + denoiser_names());
        lemma_extends(g1, g2, g3);
        lemma_extends(g1, g3, g4);
        lemma_extends(g2, g3, g4);
        assert(g4.nodes@[flat as int] == g1.nodes@[flat as int]);
    }
    let masked = g.times(flat, mask);
    let ghost g5 = *g;
    let scaled = g.times(masked, scale);
    let ghost g6 = *g;
    let r = g.plus(scaled, bias);
    let ghost g7 = *g;
    let outputs = vec![r];
    assert(outputs@ =~= seq![r]);
    g.set_outputs(outputs);
    proof {
        assert forall|env: Env<T>| #[trigger] g.value(env, r as int) == denoised(
            env,
            start.value(env, spectrum as int),
        ) by {
            assert(g4.value(env, flat as int) == g1.value(env, flat as int));
            assert(g4.value(env, mask as int) == g2.value(env, mask as int));
            assert(g4.value(env, scale as int) == g3.value(env, scale as int));
            assert(g5.value(env, scale as int) == g4.value(env, scale as int));
            assert(g5.value(env, bias as int) == g4.value(env, bias as int));
            assert(g6.value(env, bias as int) == g5.value(env, bias as int));
            assert(g.value(env, r as int) == g7.value(env, r as int));
        }
    }
    r
}

/// Rows of real numbers with a plane of imaginary parts behind each, all a number less itself.
pub open spec fn with_imaginary_plane<T: Scalar>(v: Seq<T>, n_fft: int) -> Seq<T> {
    side_by_side(seq![v, subtracted(v, v)], n_fft)
}

/// Whether the last nodes take real rows, set a plane of their differences from themselves beside
/// them, and transform the planes.
pub open spec fn transforms_planes(nodes: Seq<GraphNode>, signal: usize, batch: usize, n: usize) -> bool {
    let zeros = (nodes.len() - 3) as usize;
    let block = (nodes.len() - 2) as usize;
    &&& nodes[nodes.len() - 3].op == (GraphOp::Sub { a: signal, b: signal })
    &&& nodes[nodes.len() - 3].shape@ == seq![batch, n]
    &&& nodes[nodes.len() - 2].op matches GraphOp::Concat { parts, axis } && parts@ == seq![
        signal,
        zeros,
    ] && axis == 1
    &&& nodes[nodes.len() - 2].shape@ == seq![batch, (2 * n) as usize]
    &&& nodes[nodes.len() - 1].op == (GraphOp::Fft { a: block, inverse: false })
    &&& nodes[nodes.len() - 1].shape@ == seq![batch, (2 * n) as usize]
}

/// The transform of a backend on real rows: a plane of real and a plane of imaginary parts for each.
fn append_planes_fft<T: Scalar>(g: &mut GraphPlan<T>, signal: usize, batch: usize, n: usize) -> (r:
    usize)
    requires
        old(g).well_formed(),
        signal < old(g).nodes@.len(),
        n > 0,
        2 * n <= usize::MAX,
        countable_rows(batch, (2 * n) as usize),
        old(g).shape(signal as int) == seq![batch, n],
    ensures
        final(g).well_formed(),
        final(g).extends(*old(g)),
        r < final(g).nodes@.len(),
        final(g).shape(r as int) == seq![batch, (2 * n) as usize],
        r == old(g).nodes@.len() + 2,
        final(g).nodes@.len() == r + 1,
        transforms_planes(final(g).nodes@, signal, batch, n),
        forall|env: Env<T>| #[trigger]
            final(g).value(env, r as int) == (env.fft)(
                with_imaginary_plane(old(g).value(env, signal as int), n as int),
                false,
            ),
{
    let ghost start = *g;
    let two: usize = 2 * n;
    proof {
        lemma_two(batch, n);
        lemma_two(batch, two);
        assert(n * 2 == two);
        assert(seq![batch, n].update(1, two) =~= seq![batch, two]);
        assert(n * 1 == n) by (nonlinear_arith);
    }
    let zeros = g.minus(signal, signal);
    let ghost g1 = *g;
    assert(g1.nodes@[signal as int] == start.nodes@[signal as int]);
    let parts = vec![signal, zeros];
    let ghost listed = parts@;
    assert(listed =~= seq![signal, zeros]);
    let block = g.concat(parts, 1);
    let ghost g2 = *g;
    let r = g.fft(block, false);
    proof {
        lemma_extends(start, g1, g2);
        lemma_extends(start, g2, *g);
        assert forall|env: Env<T>| #[trigger] g.value(env, r as int) == (env.fft)(
            with_imaginary_plane(start.value(env, signal as int), n as int),
            false,
        ) by {
            let v = start.value(env, signal as int);
            assert(g1.value(env, signal as int) == v);
            assert(g1.values(env, listed) =~= seq![v, subtracted(v, v)]);
        }
    }
    r
}

/// The same, shaped as rows of two planes.
fn append_backend_fft<T: Scalar>(g: &mut GraphPlan<T>, signal: usize, batch: usize, n: usize) -> (r:
    usize)
    requires
        old(g).well_formed(),
        signal < old(g).nodes@.len(),
        n > 0,
        2 * n <= usize::MAX,
        countable_rows(batch, (2 * n) as usize),
        old(g).shape(signal as int) == seq![batch, n],
    ensures
        final(g).well_formed(),
        final(g).extends(*old(g)),
        r < final(g).nodes@.len(),
        final(g).shape(r as int) == seq![batch, (2 * n) as usize],
        forall|env: Env<T>| #[trigger]
            final(g).value(env, r as int) == (env.fft)(
                with_imaginary_plane(old(g).value(env, signal as int), n as int),
                false,
            ),
{
    let ghost start = *g;
    let two: usize = 2 * n;
    proof {
        lemma_two(batch, two);
    }
    let fft_out = append_planes_fft(g, signal, batch, n);
    let ghost g1 = *g;
    let shape = vec![batch, two];
    assert(shape@ =~= seq![batch, two]);
    let r = g.reshape(fft_out, shape);
    proof {
        lemma_extends(start, g1, *g);
    }
    r
}

/// A graph with one result and the parameters that it needs, in order.
pub struct DeployGraph<T> {
    pub graph: GraphPlan<T>,
    pub params: Vec<String>,
    pub output: usize,
}

impl<T: Scalar> DeployGraph<T> {
    /// What the graph gives.
    pub open spec fn result(&self, env: Env<T>) -> Seq<T> {
        self.graph.value(env, self.output as int)
    }

    pub open spec fn well_formed(&self, name: Seq<char>, shape: Seq<usize>) -> bool {
        &&& self.graph.well_formed()
        &&& self.graph.name@ == name
        &&& self.output < self.graph.nodes@.len()
        &&& self.graph.outputs@ == seq![self.output]
        &&& self.graph.shape(self.output as int) == shape
    }
}

/// The graph of the transform of a backend on real rows, in planes.
pub fn build_distilled_spectrum_graph<T: Scalar>(cfg: &FftLearnConfig) -> (r: DeployGraph<T>)
    requires
        cfg.well_formed(),
        spectra_fit(*cfg),
    ensures
        r.well_formed("rlx_fft_forward"@, seq![cfg.batch, (2 * cfg.n_fft) as usize]),
        r.params@.len() == 0,
        forall|env: Env<T>| #[trigger]
            r.result(env) == (env.fft)(
                with_imaginary_plane((env.leaf)("signal"@), cfg.n_fft as int),
                false,
            ),
{
    let mut g: GraphPlan<T> = GraphPlan::new("rlx_fft_forward");
    let shape = vec![cfg.batch, cfg.n_fft];
    assert(shape@ =~= seq![cfg.batch, cfg.n_fft]);
    let signal = g.input("signal", shape);
    let ghost g1 = g;
    let output = append_backend_fft(&mut g, signal, cfg.batch, cfg.n_fft);
    let ghost g2 = g;
    let outputs = vec![output];
    assert(outputs@ =~= seq![output]);
    g.set_outputs(outputs);
    let r = DeployGraph { graph: g, params: Vec::new(), output };
    proof {
        assert forall|env: Env<T>| #[trigger] r.result(env) == (env.fft)(
            with_imaginary_plane((env.leaf)("signal"@), cfg.n_fft as int),
            false,
        ) by {
            assert(g1.value(env, signal as int) == (env.leaf)("signal"@));
            assert(r.result(env) == g2.value(env, output as int));
        }
    }
    r
}

/// The graph of the inverse transform of a backend on spectra in planes.
pub fn build_backend_inverse_graph<T: Scalar>(cfg: &FftLearnConfig) -> (r: DeployGraph<T>)
    requires
        cfg.well_formed(),
        spectra_fit(*cfg),
    ensures
        r.well_formed("rlx_fft_inverse"@, seq![cfg.batch, (2 * cfg.n_fft) as usize]),
        r.params@.len() == 0,
        forall|env: Env<T>| #[trigger]
            r.result(env) == (env.fft)((env.leaf)("spectrum"@), true),
{
    let two: usize = 2 * cfg.n_fft;
    let mut g: GraphPlan<T> = GraphPlan::new("rlx_fft_inverse");
    let shape = vec![cfg.batch, two];
    assert(shape@ =~= seq![cfg.batch, two]);
    let spectrum = g.input("spectrum", shape);
    let ghost g1 = g;
    let output = g.fft(spectrum, true);
    let ghost g2 = g;
    let outputs = vec![output];
    assert(outputs@ =~= seq![output]);
    g.set_outputs(outputs);
    let r = DeployGraph { graph: g, params: Vec::new(), output };
    proof {
        assert forall|env: Env<T>| #[trigger] r.result(env) == (env.fft)(
            (env.leaf)("spectrum"@),
            true,
        ) by {
            assert(g1.value(env, spectrum as int) == (env.leaf)("spectrum"@));
            assert(r.result(env) == g2.value(env, output as int));
        }
    }
    r
}

/// The graph of the transform of a backend alone, on real rows: segments of a signal, or signals.
pub fn build_fft_only_graph<T: Scalar>(rows: usize, n_fft: usize) -> (r: DeployGraph<T>)
    requires
        n_fft > 0,
        2 * n_fft <= usize::MAX,
        countable_rows(rows, (2 * n_fft) as usize),
    ensures
        r.well_formed("fft_only"@, seq![rows, (2 * n_fft) as usize]),
        r.params@.len() == 0,
        r.output == 3,
        r.graph.nodes@.len() == 4,
        r.graph.nodes@[0].op matches GraphOp::Input { name } && name@ == "segs"@,
        r.graph.nodes@[0].shape@ == seq![rows, n_fft],
        transforms_planes(r.graph.nodes@, 0, rows, n_fft),
        forall|env: Env<T>| #[trigger]
            r.result(env) == (env.fft)(
                with_imaginary_plane((env.leaf)("segs"@), n_fft as int),
                false,
            ),
{
    proof {
        lemma_two(rows, n_fft);
        lemma_two(rows, (2 * n_fft) as usize);
    }
    let mut g: GraphPlan<T> = GraphPlan::new("fft_only");
    let shape = vec![rows, n_fft];
    assert(shape@ =~= seq![rows, n_fft]);
    let segs = g.input("segs", shape);
    let ghost g1 = g;
    let output = append_planes_fft(&mut g, segs, rows, n_fft);
    let ghost g2 = g;
    let outputs = vec![output];
    assert(outputs@ =~= seq![output]);
    g.set_outputs(outputs);
    let r = DeployGraph { graph: g, params: Vec::new(), output };
    proof {
        assert forall|env: Env<T>| #[trigger] r.result(env) == (env.fft)(
            with_imaginary_plane((env.leaf)("segs"@), n_fft as int),
            false,
        ) by {
            assert(g1.value(env, segs as int) == (env.leaf)("segs"@));
            assert(r.result(env) == g2.value(env, output as int));
        }
    }
    r
}

/// The graph that masks and denoises the transform of a backend.
pub fn build_native_fft_post_graph<T: Scalar>(cfg: &FftLearnConfig) -> (r: DeployGraph<T>)
    requires
        cfg.well_formed(),
        spectra_fit(*cfg),
    ensures
        r.well_formed("learned_fft_post"@, seq![cfg.batch, (2 * cfg.n_fft) as usize]),
        texts(r.params@) == denoiser_names(),
        forall|env: Env<T>|
            ({
                let block = (env.fft)(
                    with_imaginary_plane((env.leaf)("signal"@), cfg.n_fft as int),
                    false,
                );
                block.len() == cfg.batch * (2 * cfg.n_fft) ==> #[trigger] r.result(env) == denoised(
                    env,
                    by_rows(block, cfg.n_fft as int, interleave_map(cfg.n_fft as int)),
                )
            }),
{
    let n: usize = cfg.n_fft;
    let batch: usize = cfg.batch;
    let two: usize = 2 * n;
    proof {
        crate::arith::twos_of_power(n as nat);
        lemma_two(batch, two);
    }
    let mut g: GraphPlan<T> = GraphPlan::new("learned_fft_post");
    let shape = vec![batch, n];
    assert(shape@ =~= seq![batch, n]);
    let signal = g.input("signal", shape);
    let ghost g1 = g;
    let flat = append_backend_fft(&mut g, signal, batch, n);
    let ghost g2 = g;
    let rows = append_block_to_interleaved(&mut g, flat, batch, n);
    let ghost g3 = g;
    let mut params: Vec<String> = Vec::new();
    let output = append_mask_denoiser(&mut g, rows, cfg, &mut params);
    assert(texts(params@) =~= denoiser_names());
    let r = DeployGraph { graph: g, params, output };
    proof {
        assert forall|env: Env<T>|
            ({
                let block = (env.fft)(
                    with_imaginary_plane((env.leaf)("signal"@), n as int),
                    false,
                );
                block.len() == batch * (2 * n) ==> #[trigger] r.result(env) == denoised(
                    env,
                    by_rows(block, n as int, interleave_map(n as int)),
                )
            }) by {
            assert(g1.value(env, signal as int) == (env.leaf)("signal"@));
            let block = g2.value(env, flat as int);
            assert(block == (env.fft)(
                with_imaginary_plane((env.leaf)("signal"@), n as int),
                false,
            ));
            if block.len() == batch * (2 * n) {
                assert(g3.value(env, rows as int) == by_rows(
                    block,
                    n as int,
                    interleave_map(n as int),
                ));
                assert(r.result(env) == g.value(env, output as int));
            }
        }
    }
    r
}

/// The mel energies of windowed rows: transform of a backend, correction in planes and mel head.
pub open spec fn corrected_mel<T: Scalar>(env: Env<T>, windowed: Seq<T>, n_fft: int) -> Seq<T> {
    (env.log_mel)(
        affine(
            (env.fft)(with_imaginary_plane(windowed, n_fft), false),
            (env.leaf)("corr.gain"@),
            (env.leaf)("corr.bias"@),
        ),
        (env.leaf)("mel.filters"@),
    )
}

/// The graph from a signal to its mel energies: window, transform of a backend, correction in
/// planes and mel head.
pub fn build_distilled_mel_graph<T: Scalar>(cfg: &FftLearnConfig, n_mels: usize) -> (r:
    DeployGraph<T>)
    requires
        cfg.well_formed(),
        spectra_fit(*cfg),
    ensures
        r.well_formed("distilled_mel_fused"@, seq![cfg.batch, n_mels]),
        texts(r.params@) == seq!["hann"@, "corr.gain"@, "corr.bias"@, "mel.filters"@],
        forall|env: Env<T>| #[trigger]
            r.result(env) == corrected_mel(
                env,
                multiplied((env.leaf)("signal"@), (env.leaf)("hann"@)),
                cfg.n_fft as int,
            ),
{
    let n: usize = cfg.n_fft;
    let batch: usize = cfg.batch;
    let two: usize = 2 * n;
    proof {
        lemma_two(batch, two);
    }
    let mut g: GraphPlan<T> = GraphPlan::new("distilled_mel_fused");
    let shape = vec![batch, n];
    assert(shape@ =~= seq![batch, n]);
    let signal = g.input("signal", shape);
    let ghost g1 = g;
    let (windowed, hann) = append_hann_window(&mut g, signal, batch, n);
    let ghost g2 = g;
    let mut params: Vec<String> = Vec::new();
    params.push(hann.to_owned());
    let flat = append_backend_fft(&mut g, windowed, batch, n);
    let ghost g3 = g;
    let corrected = append_spectrum_correction(&mut g, flat, cfg, &mut params);
    let ghost g4 = g;
    let output = append_log_mel_head(&mut g, corrected, cfg, n_mels, &mut params);
    let ghost g5 = g;
    assert(texts(params@) =~= seq!["hann"@, "corr.gain"@, "corr.bias"@, "mel.filters"@]);
    let outputs = vec![output];
    assert(outputs@ =~= seq![output]);
    g.set_outputs(outputs);
    let r = DeployGraph { graph: g, params, output };
    proof {
        assert forall|env: Env<T>| #[trigger] r.result(env) == corrected_mel(
            env,
            multiplied((env.leaf)("signal"@), (env.leaf)("hann"@)),
            n as int,
        ) by {
            assert(g1.value(env, signal as int) == (env.leaf)("signal"@));
            assert(g2.value(env, windowed as int) == multiplied(
                (env.leaf)("signal"@),
                (env.leaf)("hann"@),
            ));
            assert(g3.value(env, flat as int) == (env.fft)(
                with_imaginary_plane(g2.value(env, windowed as int), n as int),
                false,
            ));
            assert(g4.value(env, corrected as int) == affine(
                g3.value(env, flat as int),
                (env.leaf)("corr.gain"@),
                (env.leaf)("corr.bias"@),
            ));
            assert(r.result(env) == g5.value(env, output as int));
        }
    }
    r
}

/// The graph from a windowed signal to its mel energies: that of the fused graph without the window.
pub fn build_windowed_mel_graph<T: Scalar>(cfg: &FftLearnConfig, n_mels: usize) -> (r:
    DeployGraph<T>)
    requires
        cfg.well_formed(),
        spectra_fit(*cfg),
    ensures
        r.well_formed("distilled_mel_windowed"@, seq![cfg.batch, n_mels]),
        texts(r.params@) == seq!["corr.gain"@, "corr.bias"@, "mel.filters"@],
        forall|env: Env<T>| #[trigger]
            r.result(env) == corrected_mel(
                env,
                (env.leaf)("signal"@),
                cfg.n_fft as int,
            ),
{
    let n: usize = cfg.n_fft;
    let batch: usize = cfg.batch;
    let two: usize = 2 * n;
    proof {
        lemma_two(batch, two);
    }
    let mut g: GraphPlan<T> = GraphPlan::new("distilled_mel_windowed");
    let shape = vec![batch, n];
    assert(shape@ =~= seq![batch, n]);
    let signal = g.input("signal", shape);
    let ghost g1 = g;
    let mut params: Vec<String> = Vec::new();
    let flat = append_backend_fft(&mut g, signal, batch, n);
    let ghost g3 = g;
    let corrected = append_spectrum_correction(&mut g, flat, cfg, &mut params);
    let ghost g4 = g;
    let output = append_log_mel_head(&mut g, corrected, cfg, n_mels, &mut params);
    let ghost g5 = g;
    assert(texts(params@) =~= seq!["corr.gain"@, "corr.bias"@, "mel.filters"@]);
    let outputs = vec![output];
    assert(outputs@ =~= seq![output]);
    g.set_outputs(outputs);
    let r = DeployGraph { graph: g, params, output };
    proof {
        assert forall|env: Env<T>| #[trigger] r.result(env) == corrected_mel(
            env,
            (env.leaf)("signal"@),
            n as int,
        ) by {
            assert(g1.value(env, signal as int) == (env.leaf)("signal"@));
            assert(g3.value(env, flat as int) == (env.fft)(
                with_imaginary_plane(g1.value(env, signal as int), n as int),
                false,
            ));
            assert(g4.value(env, corrected as int) == affine(
                g3.value(env, flat as int),
                (env.leaf)("corr.gain"@),
                (env.leaf)("corr.bias"@),
            ));
            assert(r.result(env) == g5.value(env, output as int));
        }
    }
    r
}

/// On rows that are already windowed, the graph without a window gives what the fused graph gives on
/// the rows as they were.
pub proof fn windowed_graphs_skip_the_window<T: Scalar>(raw: Env<T>, windowed: Env<T>, n_fft: int)
    requires
        windowed.fft == raw.fft,
        windowed.log_mel == raw.log_mel,
        (windowed.leaf)("corr.gain"@) == (raw.leaf)("corr.gain"@),
        (windowed.leaf)("corr.bias"@) == (raw.leaf)("corr.bias"@),
        (windowed.leaf)("mel.filters"@) == (raw.leaf)("mel.filters"@),
        (windowed.leaf)("signal"@) == multiplied((raw.leaf)("signal"@), (raw.leaf)("hann"@)),
    ensures
        corrected_mel(windowed, (windowed.leaf)("signal"@), n_fft) == corrected_mel(
            raw,
            multiplied((raw.leaf)("signal"@), (raw.leaf)("hann"@)),
            n_fft,
        ),
{
}

/// The graph that masks and denoises the learned transform, where every butterfly is active.
pub fn build_learned_spectrum_graph<T: Scalar>(cfg: &FftLearnConfig, tw_name: &str) -> (r:
    DeployGraph<T>)
    requires
        cfg.well_formed(),
        spectra_fit(*cfg),
    ensures
        r.well_formed("fft_butterfly"@, seq![cfg.batch, (2 * cfg.n_fft) as usize]),
        texts(r.params@) == seq![tw_name@] + denoiser_names(),
        forall|env: Env<T>|
            (env.leaf)("signal"@).len() == cfg.batch * cfg.n_fft && (env.leaf)(tw_name@).len()
                == stages_of(cfg.n_fft) * ((cfg.n_fft / 2) * 2) ==> #[trigger] r.result(env)
                == denoised(
                env,
                by_rows(
                    made_complex((env.leaf)("signal"@)),
                    cfg.n_fft as int,
                    transform_map((env.leaf)(tw_name@), cfg.n_fft),
                ),
            ),
{
    let n: usize = cfg.n_fft;
    let batch: usize = cfg.batch;
    proof {
        lemma_three(batch, n, 2);
        lemma_half_rows(batch, n);
        assert(batch * (n * 2) == batch * (2 * n)) by (nonlinear_arith);
    }
    let built: ButterflyGraph<T> = build_butterfly_forward_graph(cfg, tw_name);
    let ghost first = built;
    let mut params: Vec<String> = Vec::new();
    params.push(tw_name.to_owned());
    let mut g = built.graph;
    let ghost g1 = g;
    let output = append_mask_denoiser(&mut g, built.spectrum_out, cfg, &mut params);
    assert(texts(params@) =~= seq![tw_name@] + denoiser_names());
    let r = DeployGraph { graph: g, params, output };
    proof {
        assert forall|env: Env<T>|
            (env.leaf)("signal"@).len() == batch * n && (env.leaf)(tw_name@).len() == stages_of(n)
                * ((n / 2) * 2) implies #[trigger] r.result(env) == denoised(
            env,
            by_rows(
                made_complex((env.leaf)("signal"@)),
                n as int,
                transform_map((env.leaf)(tw_name@), n),
            ),
        ) by {
            assert(first.result(env) == g1.value(env, first.spectrum_out as int));
            assert(r.result(env) == g.value(env, output as int));
        }
    }
    r
}

} // verus!
