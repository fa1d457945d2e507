//! Transforms whose twiddles and intermediate results are kept on a coarser grid of numbers, and
//! twiddles split in two parts on that grid.

use crate::butterfly::{
    after_stages, apply_conj, apply_stage, as_complex, bit_reverse_permute, conjugated,
    countable_batch, forward_rows, inverse_rows, num_stages, permuted, push_all, staged, stages_of,
    transformed, twiddles_needed, ButterflyError,
};
use crate::butterfly_train::{
    add_squares, backward, backward_butterfly_twiddles, buffers, complex_row, copy_buffer, descend,
    descended, error_gradient, lemma_backward_len, make_error_gradient, part_of, rows_progress,
    signal_rows, squared_error, stage_buffers, stage_start, zeros, ButterflyTrace, Progress,
};
use crate::scalar::{Divisible, Residue, Scalar};
use vstd::prelude::*;

verus! {

/// A number with a coarser grid of numbers to round to.
pub trait Rounded: Scalar {
    spec fn near(a: Self) -> Self;

    fn round(self) -> (r: Self)
        ensures
            r == Self::near(self),
    ;
}

/// A grid whose numbers are rounded to themselves.
pub trait Grid: Rounded {
    proof fn settled(a: Self)
        ensures
            Self::near(Self::near(a)) == Self::near(a),
    ;
}

impl Rounded for Residue {
    open spec fn near(a: Residue) -> Residue {
        Residue { value: (a.value - a.value % 16) as u64 }
    }

    fn round(self) -> (r: Residue) {
        Residue { value: self.value - self.value % 16 }
    }
}

impl Grid for Residue {
    proof fn settled(a: Residue) {
    }
}

/// Numbers on the grid.
pub open spec fn rounded<T: Rounded>(v: Seq<T>) -> Seq<T> {
    Seq::new(v.len(), |i: int| T::near(v[i]))
}

/// Puts numbers on the grid.
pub fn round_all<T: Rounded>(v: &Vec<T>) -> (r: Vec<T>)
    ensures
        r@ == rounded(v@),
{
    let mut out: Vec<T> = Vec::new();
    let mut i: usize = 0;
    while i < v.len()
        invariant
            i <= v.len(),
            out@.len() == i,
            forall|k: int| 0 <= k < i ==> #[trigger] out@[k] == rounded(v@)[k],
        decreases v.len() - i,
    {
        out.push(v[i].round());
        i += 1;
    }
    assert(out@ =~= rounded(v@));
    out
}

// ---------------------------------------------------------------------------
// Limbs
// ---------------------------------------------------------------------------

/// What is left of numbers beside others, on the grid.
pub open spec fn residual<T: Rounded>(v: Seq<T>, hi: Seq<T>) -> Seq<T> {
    Seq::new(v.len(), |i: int| T::near(T::difference(v[i], hi[i])))
}

/// The part of numbers that others leave, on the grid.
pub fn residual_limbs<T: Rounded>(v: &Vec<T>, hi: &Vec<T>) -> (r: Vec<T>)
    requires
        hi@.len() == v@.len(),
    ensures
        r@ == residual(v@, hi@),
{
    let mut out: Vec<T> = Vec::new();
    let mut i: usize = 0;
    while i < v.len()
        invariant
            i <= v.len(),
            hi@.len() == v@.len(),
            out@.len() == i,
            forall|k: int| 0 <= k < i ==> #[trigger] out@[k] == residual(v@, hi@)[k],
        decreases v.len() - i,
    {
        out.push(v[i].minus(hi[i]).round());
        i += 1;
    }
    assert(out@ =~= residual(v@, hi@));
    out
}

/// Splits numbers into a part on the grid and what that leaves.
pub fn split_f16_limbs<T: Rounded>(w: &Vec<T>) -> (r: (Vec<T>, Vec<T>))
    ensures
        r.0@ == rounded(w@),
        r.1@ == residual(w@, rounded(w@)),
{
    let hi = round_all(w);
    let lo = residual_limbs(w, &hi);
    (hi, lo)
}

/// Two parts put together, as far as both go.
pub open spec fn rejoined<T: Scalar>(hi: Seq<T>, lo: Seq<T>) -> Seq<T> {
    Seq::new(
        if hi.len() < lo.len() {
            hi.len()
        } else {
            lo.len()
        },
        |i: int| T::sum(hi[i], lo[i]),
    )
}

/// Puts two parts together.
pub fn recon_limbs<T: Scalar>(hi: &Vec<T>, lo: &Vec<T>) -> (r: Vec<T>)
    ensures
        r@ == rejoined(hi@, lo@),
{
    let mut out: Vec<T> = Vec::new();
    let mut i: usize = 0;
    while i < hi.len() && i < lo.len()
        invariant
            i <= hi.len(),
            i <= lo.len(),
            out@.len() == i,
            forall|k: int| 0 <= k < i ==> #[trigger] out@[k] == T::sum(hi@[k], lo@[k]),
        decreases hi.len() - i,
    {
        out.push(hi[i].plus(lo[i]));
        i += 1;
    }
    assert(out@ =~= rejoined(hi@, lo@));
    out
}

/// The high parts of a split are a model on the grid of their own: splitting them again gives them
/// back.
pub proof fn high_limbs_stand_alone<T: Grid>(w: Seq<T>)
    ensures
        rounded(rounded(w)) == rounded(w),
{
    assert forall|i: int| 0 <= i < w.len() implies rounded(rounded(w))[i] == rounded(w)[i] by {
        T::settled(w[i]);
    }
    assert(rounded(rounded(w)) =~= rounded(w));
}

/// Over numbers where a difference added back gives the number, a split whose low parts lie on the
/// grid loses nothing.
pub proof fn limbs_on_the_grid_lose_nothing<T: crate::fourier::Ring + Rounded>(w: Seq<T>)
    requires
        crate::fourier::all_valid(w),
        crate::fourier::all_valid(rounded(w)),
        forall|i: int|
            0 <= i < w.len() ==> T::near(T::difference(#[trigger] w[i], T::near(w[i])))
                == T::difference(w[i], T::near(w[i])),
    ensures
        rejoined(rounded(w), residual(w, rounded(w))) == w,
{
    let hi = rounded(w);
    let lo = residual(w, hi);
    T::closed();
    assert forall|i: int| 0 <= i < w.len() implies rejoined(hi, lo)[i] == w[i] by {
        let x = w[i];
        let h = hi[i];
        assert(T::valid(x));
        assert(T::valid(h));
        T::difference_adds_the_opposite(x, h);
        T::sum_commutes(x, T::opposite(h));
        T::sum_associates(h, T::opposite(h), x);
        T::opposite_cancels(h);
        T::sum_commutes(T::nought(), x);
        T::sum_with_nought(x);
    }
    assert(rejoined(hi, lo) =~= w);
}

// ---------------------------------------------------------------------------
// Transforms
// ---------------------------------------------------------------------------

/// A buffer after a stage with its twiddles and its results on the grid.
pub open spec fn coarse_stage<T: Rounded>(buf: Seq<T>, tw: Seq<T>, n_fft: int, stage: nat) -> Seq<T> {
    rounded(staged(buf, rounded(tw), n_fft, stage))
}

/// Applies one stage with its twiddles and its results on the grid.
pub fn apply_stage_f16<T: Rounded>(buf: &Vec<T>, twiddles: &Vec<T>, n_fft: usize, stage: usize) -> (r:
    Vec<T>)
    requires
        n_fft > 0,
        buf.len() == 2 * n_fft,
        stage < stages_of(n_fft),
        twiddles.len() >= twiddles_needed(n_fft),
    ensures
        r@ == coarse_stage(buf@, twiddles@, n_fft as int, stage as nat),
{
    let coarse = round_all(twiddles);
    let next = apply_stage(buf, &coarse, n_fft, stage);
    round_all(&next)
}

/// A buffer after the first `k` stages on the grid.
pub open spec fn after_coarse_stages<T: Rounded>(buf: Seq<T>, tw: Seq<T>, n_fft: int, k: nat) -> Seq<T>
    decreases k,
{
    if k == 0 {
        buf
    } else {
        coarse_stage(
            after_coarse_stages(buf, tw, n_fft, (k - 1) as nat),
            tw,
            n_fft,
            (k - 1) as nat,
        )
    }
}

/// The buffers before each stage on the grid.
pub open spec fn coarse_buffers<T: Rounded>(start: Seq<T>, tw: Seq<T>, n_fft: usize) -> Seq<Seq<T>> {
    Seq::new(stages_of(n_fft), |s: int| after_coarse_stages(start, tw, n_fft as int, s as nat))
}

/// The transform on the grid.
pub open spec fn coarse_transform<T: Rounded>(input: Seq<T>, tw: Seq<T>, n_fft: usize) -> Seq<T> {
    after_coarse_stages(
        rounded(permuted(input, n_fft)),
        tw,
        n_fft as int,
        stages_of(n_fft),
    )
}

/// Runs a transform on the grid and keeps the buffer before each stage.
pub fn forward_butterfly_traced_f16<T: Rounded>(
    buf: Vec<T>,
    twiddles: &Vec<T>,
    n_fft: usize,
    bit_reverse_input: bool,
) -> (r: Result<ButterflyTrace<T>, ButterflyError>)
    requires
        0 < n_fft,
        2 * n_fft <= usize::MAX,
        twiddles.len() >= twiddles_needed(n_fft),
    ensures
        if buf@.len() != 2 * n_fft {
            r matches Err(e) && e == (ButterflyError::InputLength {
                found: buf@.len() as usize,
                expected: (2 * n_fft) as usize,
            })
        } else {
            let start = rounded(stage_start(buf@, n_fft, bit_reverse_input));
            r matches Ok(t) && t.fits(n_fft) && t.output.len() == 2 * n_fft && buffers(
                t.stage_inputs@,
            ) == coarse_buffers(start, twiddles@, n_fft) && t.output@ == after_coarse_stages(
                start,
                twiddles@,
                n_fft as int,
                stages_of(n_fft),
            )
        },
{
    if buf.len() != n_fft * 2 {
        return Err(ButterflyError::InputLength { found: buf.len(), expected: n_fft * 2 });
    }
    let mut state = buf;
    if bit_reverse_input {
        bit_reverse_permute(&mut state, n_fft);
    }
    state = round_all(&state);
    let ghost start = state@;
    let stages: usize = num_stages(n_fft);
    let mut stage_inputs: Vec<Vec<T>> = Vec::new();
    let mut s: usize = 0;
    while s < stages
        invariant
            s <= stages,
            0 < n_fft,
            stages == stages_of(n_fft),
            twiddles.len() >= twiddles_needed(n_fft),
            state.len() == 2 * n_fft,
            state@ == after_coarse_stages(start, twiddles@, n_fft as int, s as nat),
            stage_inputs.len() == s,
            forall|k: int|
                0 <= k < s ==> (#[trigger] stage_inputs@[k]).len() == 2 * n_fft
                    && stage_inputs@[k]@ == after_coarse_stages(
                    start,
                    twiddles@,
                    n_fft as int,
                    k as nat,
                ),
        decreases stages - s,
    {
        stage_inputs.push(copy_buffer(&state));
        state = apply_stage_f16(&state, twiddles, n_fft, s);
        s += 1;
    }
    assert(buffers(stage_inputs@) =~= coarse_buffers(start, twiddles@, n_fft));
    Ok(ButterflyTrace { stage_inputs, output: state })
}

/// The transforms of the first `k` real rows on the grid, one after the other.
pub open spec fn coarse_forward_rows<T: Rounded>(signal: Seq<T>, tw: Seq<T>, n_fft: usize, k: nat) -> Seq<
    T,
>
    decreases k,
{
    if k == 0 {
        Seq::empty()
    } else {
        coarse_forward_rows(signal, tw, n_fft, (k - 1) as nat) + coarse_transform(
            as_complex(signal, (k - 1) * n_fft, n_fft as int),
            tw,
            n_fft,
        )
    }
}

/// The inverse transforms of the first `k` rows on the grid, one after the other.
pub open spec fn coarse_inverse_rows<T: Rounded>(
    spectrum: Seq<T>,
    tw: Seq<T>,
    n_fft: usize,
    k: nat,
) -> Seq<T>
    decreases k,
{
    if k == 0 {
        Seq::empty()
    } else {
        coarse_inverse_rows(spectrum, tw, n_fft, (k - 1) as nat) + conjugated(
            coarse_transform(
                conjugated(
                    spectrum.subrange((k - 1) * (2 * n_fft), k * (2 * n_fft)),
                    n_fft as int,
                ),
                tw,
                n_fft,
            ),
            n_fft as int,
        )
    }
}

/// The transforms of a batch of real rows on the grid.
pub fn butterfly_forward_real_batch_f16<T: Rounded>(
    signal: &Vec<T>,
    twiddles: &Vec<T>,
    batch: usize,
    n_fft: usize,
) -> (r: Result<Vec<T>, ButterflyError>)
    requires
        0 < n_fft,
        countable_batch(batch, n_fft),
        twiddles.len() >= twiddles_needed(n_fft),
    ensures
        if signal@.len() != batch * n_fft {
            r == Err::<Vec<T>, ButterflyError>(
                ButterflyError::InputLength {
                    found: signal@.len() as usize,
                    expected: (batch * n_fft) as usize,
                },
            )
        } else {
            r matches Ok(v) && v@ == coarse_forward_rows(
                signal@,
                twiddles@,
                n_fft,
                batch as nat,
            )
        },
{
    proof {
        assert(batch * n_fft <= batch * n_fft * 2) by (nonlinear_arith)
            requires
                batch >= 0,
                n_fft >= 0,
        ;
    }
    let expected: usize = batch * n_fft;
    if signal.len() != expected {
        return Err(ButterflyError::InputLength { found: signal.len(), expected });
    }
    let mut out: Vec<T> = Vec::new();
    let mut b: usize = 0;
    while b < batch
        invariant
            b <= batch,
            0 < n_fft,
            countable_batch(batch, n_fft),
            twiddles.len() >= twiddles_needed(n_fft),
            signal.len() == batch * n_fft,
            out@ == coarse_forward_rows(signal@, twiddles@, n_fft, b as nat),
        decreases batch - b,
    {
        let len: usize = signal.len();
        proof {
            assert(b * n_fft + n_fft <= batch * n_fft) by (nonlinear_arith)
                requires
                    b + 1 <= batch,
                    n_fft >= 0,
            ;
            assert(0 <= b * n_fft) by (nonlinear_arith)
                requires
                    b >= 0,
                    n_fft >= 0,
            ;
        }
        let complex = complex_row(signal, b * n_fft, n_fft);
        match forward_butterfly_traced_f16(complex, twiddles, n_fft, true) {
            Err(e) => {
                return Err(e);
            },
            Ok(trace) => {
                push_all(&mut out, &trace.output);
            },
        }
        b += 1;
    }
    Ok(out)
}

/// The inverse transforms of a batch of spectra on the grid.
pub fn butterfly_inverse_complex_batch_f16<T: Rounded>(
    spectrum: &Vec<T>,
    twiddles: &Vec<T>,
    batch: usize,
    n_fft: usize,
) -> (r: Result<Vec<T>, ButterflyError>)
    requires
        0 < n_fft,
        countable_batch(batch, n_fft),
        twiddles.len() >= twiddles_needed(n_fft),
    ensures
        if spectrum@.len() != batch * n_fft * 2 {
            r == Err::<Vec<T>, ButterflyError>(
                ButterflyError::InputLength {
                    found: spectrum@.len() as usize,
                    expected: (batch * n_fft * 2) as usize,
                },
            )
        } else {
            r matches Ok(v) && v@ == coarse_inverse_rows(
                spectrum@,
                twiddles@,
                n_fft,
                batch as nat,
            )
        },
{
    proof {
        assert(batch * n_fft <= batch * n_fft * 2) by (nonlinear_arith)
            requires
                batch >= 0,
                n_fft >= 0,
        ;
    }
    let expected: usize = batch * n_fft * 2;
    if spectrum.len() != expected {
        return Err(ButterflyError::InputLength { found: spectrum.len(), expected });
    }
    let two: usize = 2 * n_fft;
    let mut out: Vec<T> = Vec::new();
    let mut b: usize = 0;
    while b < batch
        invariant
            b <= batch,
            0 < n_fft,
            two == 2 * n_fft,
            countable_batch(batch, n_fft),
            twiddles.len() >= twiddles_needed(n_fft),
            spectrum.len() == batch * n_fft * 2,
            out@ == coarse_inverse_rows(spectrum@, twiddles@, n_fft, b as nat),
        decreases batch - b,
    {
        let len: usize = spectrum.len();
        proof {
            assert(batch * n_fft * 2 == batch * two) by (nonlinear_arith)
                requires
                    two == 2 * n_fft,
            ;
            assert(b * two + two <= batch * two) by (nonlinear_arith)
                requires
                    b + 1 <= batch,
                    two >= 0,
            ;
            assert((b + 1) * two == b * two + two) by (nonlinear_arith);
            assert(0 <= b * two) by (nonlinear_arith)
                requires
                    b >= 0,
                    two >= 0,
            ;
        }
        let from: usize = b * two;
        let mut line = part_of(spectrum, from, from + two);
        apply_conj(&mut line, n_fft);
        match forward_butterfly_traced_f16(line, twiddles, n_fft, true) {
            Err(e) => {
                return Err(e);
            },
            Ok(trace) => {
                let mut y = copy_buffer(&trace.output);
                apply_conj(&mut y, n_fft);
                push_all(&mut out, &y);
            },
        }
        b += 1;
    }
    Ok(out)
}

// ---------------------------------------------------------------------------
// Training
// ---------------------------------------------------------------------------

/// What training on the first `k` rows on the grid accumulates.
pub open spec fn coarse_progress<T: Divisible + Rounded>(
    signal: Seq<T>,
    targets: Seq<T>,
    hi: Seq<T>,
    n_fft: usize,
    norm: T,
    k: nat,
) -> Progress<T>
    decreases k,
{
    if k == 0 {
        Progress {
            loss: T::nought(),
            grads: Seq::new(twiddles_needed(n_fft), |i: int| T::nought()),
        }
    } else {
        let before = coarse_progress(signal, targets, hi, n_fft, norm, (k - 1) as nat);
        let start = rounded(
            permuted(as_complex(signal, (k - 1) * n_fft, n_fft as int), n_fft),
        );
        let out = after_coarse_stages(start, hi, n_fft as int, stages_of(n_fft));
        let from = (k - 1) * (2 * n_fft);
        Progress {
            loss: squared_error(before.loss, out, targets, from, out.len()),
            grads: backward(
                error_gradient(out, targets, from, norm),
                before.grads,
                coarse_buffers(start, hi, n_fft),
                hi,
                n_fft as int,
                stages_of(n_fft),
            ).1,
        }
    }
}

/// One step of training twiddles for the grid: gradients are taken where the rounded transform
/// operates and applied to the twiddles themselves. Returns the mean loss of a row.
pub fn qat_train_step_f16<T: Divisible + Rounded>(
    signal: &Vec<T>,
    targets: &Vec<T>,
    master: &mut Vec<T>,
    batch: usize,
    n_fft: usize,
    lr: T,
) -> (r: T)
    requires
        0 < n_fft,
        countable_batch(batch, n_fft),
        signal.len() == batch * n_fft,
        targets.len() == batch * n_fft * 2,
        old(master).len() == twiddles_needed(n_fft),
    ensures
        ({
            let done = coarse_progress(
                signal@,
                targets@,
                rounded(old(master)@),
                n_fft,
                T::counted((batch * n_fft * 2) as usize),
                batch as nat,
            );
            &&& r == T::quotient(done.loss, T::counted(batch))
            &&& final(master)@ == descended(old(master)@, done.grads, lr)
        }),
{
    let hi = round_all(master);
    proof {
        assert(batch * n_fft <= batch * n_fft * 2) by (nonlinear_arith)
            requires
                batch >= 0,
                n_fft >= 0,
        ;
    }
    let two: usize = 2 * n_fft;
    let norm = T::count(batch * n_fft * 2);
    let mut grads: Vec<T> = zeros(master.len());
    let mut loss = T::zero();
    let ghost given = master@;
    let mut b: usize = 0;
    while b < batch
        invariant
            b <= batch,
            0 < n_fft,
            two == 2 * n_fft,
            countable_batch(batch, n_fft),
            signal.len() == batch * n_fft,
            targets.len() == batch * n_fft * 2,
            hi@ == rounded(given),
            hi.len() == twiddles_needed(n_fft),
            master@ == given,
            grads.len() == twiddles_needed(n_fft),
            norm == T::counted((batch * n_fft * 2) as usize),
            (Progress { loss, grads: grads@ }) == coarse_progress(
                signal@,
                targets@,
                hi@,
                n_fft,
                norm,
                b as nat,
            ),
        decreases batch - b,
    {
        let len: usize = targets.len();
        proof {
            assert(b * n_fft + n_fft <= batch * n_fft) by (nonlinear_arith)
                requires
                    b + 1 <= batch,
                    n_fft >= 0,
            ;
            assert(0 <= b * n_fft) by (nonlinear_arith)
                requires
                    b >= 0,
                    n_fft >= 0,
            ;
            assert(batch * n_fft * 2 == batch * two) by (nonlinear_arith)
                requires
                    two == 2 * n_fft,
            ;
            assert(b * two + two <= batch * two) by (nonlinear_arith)
                requires
                    b + 1 <= batch,
                    two >= 0,
            ;
            assert(0 <= b * two) by (nonlinear_arith)
                requires
                    b >= 0,
                    two >= 0,
            ;
        }
        let from: usize = b * two;
        let input = complex_row(signal, b * n_fft, n_fft);
        match forward_butterfly_traced_f16(input, &hi, n_fft, true) {
            Err(_) => {},
            Ok(trace) => {
                loss = add_squares(loss, &trace.output, targets, from);
                let grad = make_error_gradient(&trace.output, targets, from, norm);
                proof {
                    lemma_backward_len(
                        grad@,
                        grads@,
                        buffers(trace.stage_inputs@),
                        hi@,
                        n_fft as int,
                        stages_of(n_fft),
                    );
                }
                let _rest = backward_butterfly_twiddles(grad, &trace, &hi, n_fft, &mut grads, false);
            },
        }
        b += 1;
    }
    descend(master, &grads, lr);
    loss.over(T::count(batch))
}

// ---------------------------------------------------------------------------
// Grids
// ---------------------------------------------------------------------------

/// Whether every number is on the grid.
pub open spec fn all_on_the_grid<T: Rounded>() -> bool {
    forall|a: T| #[trigger] T::near(a) == a
}

proof fn lemma_rounding_keeps<T: Rounded>(v: Seq<T>)
    requires
        all_on_the_grid::<T>(),
    ensures
        rounded(v) == v,
{
    assert(rounded(v) =~= v);
}

proof fn lemma_fine_stages<T: Rounded>(buf: Seq<T>, tw: Seq<T>, n_fft: int, k: nat)
    requires
        all_on_the_grid::<T>(),
    ensures
        after_coarse_stages(buf, tw, n_fft, k) == after_stages(buf, tw, n_fft, k),
    decreases k,
{
    if k > 0 {
        let j = (k - 1) as nat;
        lemma_fine_stages(buf, tw, n_fft, j);
        lemma_rounding_keeps(tw);
        lemma_rounding_keeps(staged(after_stages(buf, tw, n_fft, j), tw, n_fft, j));
    }
}

/// Where every number is on the grid, transforms on the grid are the plain ones.
pub proof fn fine_grids_transform_alike<T: Rounded>(v: Seq<T>, tw: Seq<T>, n_fft: usize, k: nat)
    requires
        all_on_the_grid::<T>(),
    ensures
        coarse_transform(v, tw, n_fft) == transformed(v, tw, n_fft),
        coarse_forward_rows(v, tw, n_fft, k) == forward_rows(v, tw, n_fft, k),
        coarse_inverse_rows(v, tw, n_fft, k) == inverse_rows(v, tw, n_fft, k),
    decreases k,
{
    lemma_fine_transform(v, tw, n_fft);
    if k > 0 {
        fine_grids_transform_alike(v, tw, n_fft, (k - 1) as nat);
        lemma_fine_transform(as_complex(v, (k - 1) * n_fft, n_fft as int), tw, n_fft);
        lemma_fine_transform(
            conjugated(v.subrange((k - 1) * (2 * n_fft), k * (2 * n_fft)), n_fft as int),
            tw,
            n_fft,
        );
    }
}

proof fn lemma_fine_transform<T: Rounded>(v: Seq<T>, tw: Seq<T>, n_fft: usize)
    requires
        all_on_the_grid::<T>(),
    ensures
        coarse_transform(v, tw, n_fft) == transformed(v, tw, n_fft),
{
    lemma_rounding_keeps(permuted(v, n_fft));
    lemma_fine_stages(permuted(v, n_fft), tw, n_fft as int, stages_of(n_fft));
}

/// Where every number is on the grid, training for the grid is training the plain transform: the same
/// losses, and the same gradients.
pub proof fn fine_grids_train_alike<T: Divisible + Rounded>(
    signal: Seq<T>,
    targets: Seq<T>,
    master: Seq<T>,
    n_fft: usize,
    norm: T,
    k: nat,
)
    requires
        all_on_the_grid::<T>(),
    ensures
        coarse_progress(signal, targets, rounded(master), n_fft, norm, k) == rows_progress(
            signal_rows(signal, n_fft as int),
            targets,
            master,
            n_fft,
            norm,
            false,
            k,
        ),
    decreases k,
{
    lemma_rounding_keeps(master);
    if k > 0 {
        fine_grids_train_alike(signal, targets, master, n_fft, norm, (k - 1) as nat);
        let input = as_complex(signal, (k - 1) * n_fft, n_fft as int);
        let start = permuted(input, n_fft);
        lemma_rounding_keeps(start);
        lemma_fine_stages(start, master, n_fft as int, stages_of(n_fft));
        assert(coarse_buffers(start, master, n_fft) =~= stage_buffers(start, master, n_fft)) by {
            assert forall|s: int| 0 <= s < stages_of(n_fft) implies coarse_buffers(
                start,
                master,
                n_fft,
            )[s] == stage_buffers(start, master, n_fft)[s] by {
                lemma_fine_stages(start, master, n_fft as int, s as nat);
            }
        }
    }
}

/// What a step of training for the grid takes from twiddles depends on what they are rounded to: of
/// twiddles that are rounded alike, the same is taken.
pub proof fn twiddles_rounded_alike_step_alike<T: Divisible + Rounded>(
    signal: Seq<T>,
    targets: Seq<T>,
    a: Seq<T>,
    b: Seq<T>,
    n_fft: usize,
    norm: T,
    k: nat,
    lr: T,
    i: int,
)
    requires
        rounded(a) == rounded(b),
        a.len() == b.len(),
        0 <= i < a.len(),
        a[i] == b[i],
    ensures
        descended(a, coarse_progress(signal, targets, rounded(a), n_fft, norm, k).grads, lr)[i]
            == descended(
            b,
            coarse_progress(signal, targets, rounded(b), n_fft, norm, k).grads,
            lr,
        )[i],
{
}

/// What a transform on the grid gives is on the grid.
pub proof fn coarse_results_are_on_the_grid<T: Grid>(v: Seq<T>, tw: Seq<T>, n_fft: usize)
    ensures
        rounded(coarse_transform(v, tw, n_fft)) == coarse_transform(v, tw, n_fft),
{
    let start = rounded(permuted(v, n_fft));
    let k = stages_of(n_fft);
    if k == 0 {
        high_limbs_stand_alone(permuted(v, n_fft));
    } else {
        let j = (k - 1) as nat;
        high_limbs_stand_alone(
            staged(after_coarse_stages(start, tw, n_fft as int, j), rounded(tw), n_fft as int, j),
        );
    }
}

} // verus!
