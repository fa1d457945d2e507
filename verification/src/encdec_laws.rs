//! What training an encoder with a decoder is for: over the numbers of a ring, the twiddles of both
//! move against derivatives of the errors that the round trip makes.

use crate::butterfly::{
    after_stages, as_complex, conjugated, forward_rows, inverse_rows, inverse_transformed,
    lemma_source_place, permuted, permuting_twice_changes_nothing, source_place, stages_of,
    transformed, twiddles_needed,
};
use crate::butterfly_train::{
    backward, descended, encdec_batch, encdec_losses, encdec_row, encdec_rows, recovery_gradient,
    recovery_loss, stage_buffers, with_spectrum_gradient, EncDecProgress,
};
use crate::fourier::{all_valid, lemma_exchange, lemma_less_nought, lemma_product_nought, Ring};
use crate::gate_logits::product_sum;
use crate::gradients::{
    lemma_conjugated_valid, lemma_conjugation_crosses, lemma_passed_back, lemma_product_sum_valid,
    lemma_slope_of, lemma_sum_times, lemma_three, raised,
};
use crate::scalar::{Divisible, Scalar};
use crate::training_laws::{
    counts_two, descends, distance, divides, lemma_descends, lemma_distance_valid, lemma_join,
    lemma_permuted_valid, lemma_row_error, lemma_signal_row, lemma_squared_error, lemma_taken,
    lemma_transformed_valid,
};
use vstd::prelude::*;

verus! {

// ---------------------------------------------------------------------------
// Stacks of rows
// ---------------------------------------------------------------------------

/// Rows, one after the other.
pub open spec fn stacked<T>(row: spec_fn(int) -> Seq<T>, k: nat) -> Seq<T>
    decreases k,
{
    if k == 0 {
        Seq::empty()
    } else {
        stacked(row, (k - 1) as nat) + row(k - 1)
    }
}

proof fn lemma_stacked_len<T>(row: spec_fn(int) -> Seq<T>, two: nat, k: nat)
    requires
        forall|r: int| 0 <= r < k ==> (#[trigger] row(r)).len() == two,
    ensures
        stacked(row, k).len() == k * two,
    decreases k,
{
    if k == 0 {
        assert(0 * two == 0);
    } else {
        lemma_stacked_len(row, two, (k - 1) as nat);
        assert(k * two == (k - 1) * two + two) by (nonlinear_arith);
        assert(row(k - 1).len() == two);
    }
}

proof fn lemma_stacked_at<T>(row: spec_fn(int) -> Seq<T>, two: nat, k: nat, r: int, j: int)
    requires
        forall|q: int| 0 <= q < k ==> (#[trigger] row(q)).len() == two,
        0 <= r < k,
        0 <= j < two,
    ensures
        0 <= r * two + j < stacked(row, k).len(),
        stacked(row, k)[r * two + j] == row(r)[j],
    decreases k,
{
    lemma_stacked_len(row, two, k);
    lemma_stacked_len(row, two, (k - 1) as nat);
    assert(k * two == (k - 1) * two + two) by (nonlinear_arith);
    assert(0 <= r * two) by (nonlinear_arith)
        requires
            r >= 0,
            two >= 0,
    ;
    assert(row(k - 1).len() == two);
    if r < k - 1 {
        assert(r * two + two <= (k - 1) * two) by (nonlinear_arith)
            requires
                r + 1 <= k - 1,
                two >= 0,
        ;
        lemma_stacked_at(row, two, (k - 1) as nat, r, j);
    }
}

proof fn lemma_stacked_row<T>(row: spec_fn(int) -> Seq<T>, two: nat, k: nat, r: int)
    requires
        forall|q: int| 0 <= q < k ==> (#[trigger] row(q)).len() == two,
        0 <= r < k,
    ensures
        0 <= r * two,
        r * two + two <= k * two,
        (r + 1) * two == r * two + two,
        stacked(row, k).len() == k * two,
        stacked(row, k).subrange(r * two, (r + 1) * two) == row(r),
{
    lemma_stacked_len(row, two, k);
    assert((r + 1) * two == r * two + two) by (nonlinear_arith);
    assert(r * two + two <= k * two) by (nonlinear_arith)
        requires
            r + 1 <= k,
            two >= 0,
    ;
    assert(0 <= r * two) by (nonlinear_arith)
        requires
            r >= 0,
            two >= 0,
    ;
    let part = stacked(row, k).subrange(r * two, (r + 1) * two);
    assert(row(r).len() == two);
    assert forall|j: int| 0 <= j < two implies part[j] == row(r)[j] by {
        lemma_stacked_at(row, two, k, r, j);
    }
    assert(part =~= row(r));
}

proof fn lemma_stacked_valid<T: Ring>(row: spec_fn(int) -> Seq<T>, k: nat)
    requires
        forall|q: int| 0 <= q < k ==> all_valid(#[trigger] row(q)),
    ensures
        all_valid(stacked(row, k)),
    decreases k,
{
    if k > 0 {
        lemma_stacked_valid(row, (k - 1) as nat);
        let a = stacked(row, (k - 1) as nat);
        let b = row(k - 1);
        assert(all_valid(b));
        assert forall|i: int| 0 <= i < (a + b).len() implies T::valid(#[trigger] (a + b)[i]) by {
            if i < a.len() {
                assert(T::valid(a[i]));
            } else {
                assert(T::valid(b[i - a.len()]));
            }
        }
    }
}

spec fn encoded_row<T: Scalar>(signal: Seq<T>, tw: Seq<T>, n_fft: usize) -> spec_fn(int) -> Seq<T> {
    |r: int| transformed(as_complex(signal, r * n_fft, n_fft as int), tw, n_fft)
}

spec fn decoded_row<T: Scalar>(v: Seq<T>, tw: Seq<T>, n_fft: usize) -> spec_fn(int) -> Seq<T> {
    |r: int| inverse_transformed(v.subrange(r * (2 * n_fft), (r + 1) * (2 * n_fft)), tw, n_fft)
}

pub open spec fn turned_row<T: Scalar>(v: Seq<T>, tw: Seq<T>, n_fft: usize) -> spec_fn(int) -> Seq<T> {
    |r: int|
        inverse_transformed(
            permuted(v.subrange(r * (2 * n_fft), (r + 1) * (2 * n_fft)), n_fft),
            tw,
            n_fft,
        )
}

/// The inverse transforms of the rows of spectra, each with its numbers in bit-reversed order.
pub open spec fn turned_back<T: Scalar>(v: Seq<T>, tw: Seq<T>, n_fft: usize, k: nat) -> Seq<T> {
    stacked(turned_row(v, tw, n_fft), k)
}

proof fn lemma_forward_stacked<T: Scalar>(signal: Seq<T>, tw: Seq<T>, n_fft: usize, k: nat)
    ensures
        forward_rows(signal, tw, n_fft, k) == stacked(encoded_row(signal, tw, n_fft), k),
    decreases k,
{
    if k > 0 {
        lemma_forward_stacked(signal, tw, n_fft, (k - 1) as nat);
    }
}

proof fn lemma_inverse_stacked<T: Scalar>(v: Seq<T>, tw: Seq<T>, n_fft: usize, k: nat)
    ensures
        inverse_rows(v, tw, n_fft, k) == stacked(decoded_row(v, tw, n_fft), k),
    decreases k,
{
    if k > 0 {
        lemma_inverse_stacked(v, tw, n_fft, (k - 1) as nat);
        assert((k - 1) + 1 == k);
    }
}

// ---------------------------------------------------------------------------
// Leaning
// ---------------------------------------------------------------------------

/// How far numbers lean towards errors: the first of some numbers, each times the difference between
/// what is given and its target, added.
pub open spec fn leaning<T: Scalar>(given: Seq<T>, target: Seq<T>, y: Seq<T>, k: nat) -> T
    decreases k,
{
    if k == 0 {
        T::nought()
    } else {
        T::sum(
            leaning(given, target, y, (k - 1) as nat),
            T::product(T::difference(given[k - 1], target[k - 1]), y[k - 1]),
        )
    }
}

proof fn lemma_leaning_valid<T: Ring>(a: Seq<T>, t: Seq<T>, y: Seq<T>, k: nat)
    requires
        all_valid(a),
        all_valid(t),
        all_valid(y),
        k <= a.len(),
        k <= t.len(),
        k <= y.len(),
    ensures
        T::valid(leaning(a, t, y, k)),
    decreases k,
{
    T::closed();
    if k > 0 {
        lemma_leaning_valid(a, t, y, (k - 1) as nat);
        assert(T::valid(a[k - 1]) && T::valid(t[k - 1]) && T::valid(y[k - 1]));
    }
}

/// A row adds its own leaning.
proof fn lemma_leaning_row<T: Ring>(
    a: Seq<T>,
    t: Seq<T>,
    y: Seq<T>,
    ra: Seq<T>,
    rt: Seq<T>,
    ry: Seq<T>,
    from: nat,
    m: nat,
)
    requires
        all_valid(a),
        all_valid(t),
        all_valid(y),
        from + m <= a.len(),
        from + m <= t.len(),
        from + m <= y.len(),
        m <= ra.len(),
        m <= rt.len(),
        m <= ry.len(),
        forall|j: int|
            0 <= j < m ==> (#[trigger] ra[j]) == a[from + j] && rt[j] == t[from + j] && ry[j] == y[from
                + j],
    ensures
        leaning(a, t, y, from + m) == T::sum(leaning(a, t, y, from), leaning(ra, rt, ry, m)),
        T::valid(leaning(ra, rt, ry, m)),
    decreases m,
{
    lemma_leaning_valid(a, t, y, from);
    if m == 0 {
        T::closed();
        T::sum_with_nought(leaning(a, t, y, from));
    } else {
        lemma_leaning_row(a, t, y, ra, rt, ry, from, (m - 1) as nat);
        let j = m - 1;
        let at = from + j;
        assert(ra[j] == a[from + j]);
        assert(rt[j] == t[from + j]);
        assert(ry[j] == y[from + j]);
        T::closed();
        assert(T::valid(a[at]) && T::valid(t[at]) && T::valid(y[at]));
        T::sum_associates(
            leaning(a, t, y, from),
            leaning(ra, rt, ry, (m - 1) as nat),
            T::product(T::difference(a[at], t[at]), y[at]),
        );
    }
}

/// A row adds its own distance.
proof fn lemma_distance_row<T: Ring>(
    a: Seq<T>,
    b: Seq<T>,
    ra: Seq<T>,
    rb: Seq<T>,
    from: nat,
    m: nat,
)
    requires
        all_valid(a),
        all_valid(b),
        from + m <= a.len(),
        from + m <= b.len(),
        m <= ra.len(),
        m <= rb.len(),
        forall|j: int| 0 <= j < m ==> (#[trigger] ra[j]) == a[from + j] && rb[j] == b[from + j],
    ensures
        distance(a, b, from + m) == T::sum(distance(a, b, from), distance(ra, rb, m)),
        T::valid(distance(ra, rb, m)),
    decreases m,
{
    lemma_distance_valid(a, b, from);
    if m == 0 {
        T::closed();
        T::sum_with_nought(distance(a, b, from));
    } else {
        lemma_distance_row(a, b, ra, rb, from, (m - 1) as nat);
        let j = m - 1;
        let at = from + j;
        assert(ra[j] == a[from + j]);
        assert(rb[j] == b[from + j]);
        T::closed();
        assert(T::valid(a[at]) && T::valid(b[at]));
        let d = T::difference(a[at], b[at]);
        T::sum_associates(distance(a, b, from), distance(ra, rb, (m - 1) as nat), T::product(d, d));
    }
}

/// A gradient that is a multiple of an error over a norm pairs as the error leans.
proof fn lemma_leans<T: Ring + Divisible>(
    g: Seq<T>,
    factor: T,
    a: Seq<T>,
    t: Seq<T>,
    y: Seq<T>,
    norm: T,
    m: nat,
)
    requires
        all_valid(g),
        all_valid(a),
        all_valid(t),
        all_valid(y),
        m <= g.len(),
        m <= a.len(),
        m <= t.len(),
        m <= y.len(),
        T::valid(factor),
        divides(norm),
        forall|j: int|
            0 <= j < m ==> #[trigger] g[j] == T::quotient(
                T::product(factor, T::difference(a[j], t[j])),
                norm,
            ),
    ensures
        T::product(norm, product_sum(g, y, m)) == T::product(factor, leaning(a, t, y, m)),
    decreases m,
{
    T::closed();
    if m == 0 {
        lemma_product_nought(norm);
        lemma_product_nought(factor);
    } else {
        let k = (m - 1) as nat;
        lemma_leans(g, factor, a, t, y, norm, k);
        lemma_product_sum_valid(g, y, k);
        lemma_leaning_valid(a, t, y, k);
        assert(T::valid(g[m - 1]) && T::valid(a[m - 1]) && T::valid(t[m - 1]) && T::valid(y[m - 1]));
        let d = T::difference(a[m - 1], t[m - 1]);
        T::product_distributes(norm, product_sum(g, y, k), T::product(g[m - 1], y[m - 1]));
        T::product_associates(norm, g[m - 1], y[m - 1]);
        T::product_associates(factor, d, y[m - 1]);
        T::product_distributes(factor, leaning(a, t, y, k), T::product(d, y[m - 1]));
    }
}

proof fn lemma_product_sum_adds<T: Ring>(a: Seq<T>, b: Seq<T>, c: Seq<T>, y: Seq<T>, m: nat)
    requires
        all_valid(a),
        all_valid(b),
        all_valid(y),
        m <= a.len(),
        m <= b.len(),
        m <= c.len(),
        m <= y.len(),
        forall|j: int| 0 <= j < m ==> #[trigger] c[j] == T::sum(a[j], b[j]),
    ensures
        product_sum(c, y, m) == T::sum(product_sum(a, y, m), product_sum(b, y, m)),
    decreases m,
{
    T::closed();
    if m == 0 {
        T::sum_with_nought(T::nought());
    } else {
        let k = (m - 1) as nat;
        lemma_product_sum_adds(a, b, c, y, k);
        lemma_product_sum_valid(a, y, k);
        lemma_product_sum_valid(b, y, k);
        assert(T::valid(a[m - 1]) && T::valid(b[m - 1]) && T::valid(y[m - 1]));
        assert(c[m - 1] == T::sum(a[m - 1], b[m - 1]));
        lemma_sum_times(a[m - 1], b[m - 1], y[m - 1]);
        lemma_exchange(
            product_sum(a, y, k),
            product_sum(b, y, k),
            T::product(a[m - 1], y[m - 1]),
            T::product(b[m - 1], y[m - 1]),
        );
    }
}

// ---------------------------------------------------------------------------
// The round trip
// ---------------------------------------------------------------------------

/// What the round trip is to give: the real numbers of the signal, scaled, and no imaginary parts.
pub open spec fn scaled_signal<T: Scalar>(signal: Seq<T>, scale: T, count: nat) -> Seq<T> {
    Seq::new(
        count,
        |j: int|
            if j % 2 == 0 {
                T::product(signal[j / 2], scale)
            } else {
                T::nought()
            },
    )
}

/// What a batch holds: as many numbers as its rows need, all of them valid.
pub open spec fn trainable<T: Ring + Divisible>(
    signal: Seq<T>,
    reference: Seq<T>,
    encoder: Seq<T>,
    decoder: Seq<T>,
    batch: usize,
    n_fft: usize,
    weight: Option<T>,
) -> bool {
    &&& n_fft > 0
    &&& signal.len() == batch * n_fft
    &&& all_valid(signal)
    &&& reference.len() >= batch * (2 * n_fft)
    &&& all_valid(reference)
    &&& encoder.len() >= twiddles_needed(n_fft)
    &&& all_valid(encoder)
    &&& decoder.len() >= twiddles_needed(n_fft)
    &&& all_valid(decoder)
    &&& weight matches Some(w) ==> T::valid(w)
    &&& T::valid(T::counted(n_fft))
    &&& divides(T::counted((batch * n_fft * 2) as usize))
    &&& counts_two::<T>()
}

proof fn lemma_inverse_valid<T: Ring>(v: Seq<T>, tw: Seq<T>, n_fft: usize)
    requires
        n_fft > 0,
        v.len() == 2 * n_fft,
        all_valid(v),
        tw.len() >= twiddles_needed(n_fft),
        all_valid(tw),
    ensures
        all_valid(inverse_transformed(v, tw, n_fft)),
        inverse_transformed(v, tw, n_fft).len() == 2 * n_fft,
{
    let n = n_fft as int;
    lemma_conjugated_valid(v, n);
    lemma_transformed_valid(conjugated(v, n), tw, n_fft);
    lemma_conjugated_valid(transformed(conjugated(v, n), tw, n_fft), n);
}

proof fn lemma_raised_valid<T: Ring>(v: Seq<T>, i: int, h: T)
    requires
        all_valid(v),
        T::valid(h),
        0 <= i < v.len(),
    ensures
        all_valid(raised(v, i, h)),
        raised(v, i, h).len() == v.len(),
{
    T::closed();
    assert(T::valid(v[i]));
}

proof fn lemma_places_of_row(r: int, batch: int, n: int)
    requires
        0 <= r < batch,
        n > 0,
    ensures
        0 <= r * (2 * n),
        r * (2 * n) + 2 * n <= batch * (2 * n),
        (r + 1) * (2 * n) == r * (2 * n) + 2 * n,
        r * (2 * n) == 2 * (r * n),
        0 <= r * n,
        r * n + n <= batch * n,
{
    assert((r + 1) * (2 * n) == r * (2 * n) + 2 * n) by (nonlinear_arith);
    assert(r * (2 * n) == 2 * (r * n)) by (nonlinear_arith);
    assert(0 <= r * n) by (nonlinear_arith)
        requires
            r >= 0,
            n >= 0,
    ;
    assert(r * n + n <= batch * n) by (nonlinear_arith)
        requires
            r + 1 <= batch,
            n >= 0,
    ;
    assert(batch * (2 * n) == 2 * (batch * n)) by (nonlinear_arith);
}

/// The spectra of the rows.
proof fn lemma_spectra<T: Ring>(signal: Seq<T>, tw: Seq<T>, batch: usize, n_fft: usize)
    requires
        n_fft > 0,
        signal.len() == batch * n_fft,
        all_valid(signal),
        tw.len() >= twiddles_needed(n_fft),
        all_valid(tw),
    ensures
        ({
            let s = forward_rows(signal, tw, n_fft, batch as nat);
            &&& all_valid(s)
            &&& s.len() == batch * (2 * n_fft)
            &&& forall|r: int|
                0 <= r < batch ==> {
                    let row = #[trigger] encoded_row(signal, tw, n_fft)(r);
                    &&& row == s.subrange(r * (2 * n_fft), (r + 1) * (2 * n_fft))
                    &&& row.len() == 2 * n_fft
                    &&& all_valid(row)
                }
        }),
{
    let row = encoded_row(signal, tw, n_fft);
    let two = (2 * n_fft) as nat;
    let k = batch as nat;
    assert forall|r: int| 0 <= r < k implies (#[trigger] row(r)).len() == two && all_valid(row(r)) by {
        lemma_signal_row(signal, n_fft, k, r);
        lemma_transformed_valid(as_complex(signal, r * n_fft, n_fft as int), tw, n_fft);
    }
    lemma_forward_stacked(signal, tw, n_fft, k);
    lemma_stacked_len(row, two, k);
    lemma_stacked_valid(row, k);
    assert forall|r: int| 0 <= r < batch implies {
        let own = #[trigger] encoded_row(signal, tw, n_fft)(r);
        &&& own == forward_rows(signal, tw, n_fft, k).subrange(
            r * (2 * n_fft),
            (r + 1) * (2 * n_fft),
        )
        &&& own.len() == 2 * n_fft
        &&& all_valid(own)
    } by {
        lemma_stacked_row(row, two, k, r);
        assert(row(r).len() == two && all_valid(row(r)));
    }
}

/// What the decoder gives for the rows of spectra, as they are or in bit-reversed order.
proof fn lemma_decoded<T: Ring>(v: Seq<T>, tw: Seq<T>, batch: usize, n_fft: usize)
    requires
        n_fft > 0,
        v.len() == batch * (2 * n_fft),
        all_valid(v),
        tw.len() >= twiddles_needed(n_fft),
        all_valid(tw),
    ensures
        ({
            let d = inverse_rows(v, tw, n_fft, batch as nat);
            let t = turned_back(v, tw, n_fft, batch as nat);
            &&& all_valid(d)
            &&& d.len() == batch * (2 * n_fft)
            &&& all_valid(t)
            &&& t.len() == batch * (2 * n_fft)
            &&& forall|r: int|
                0 <= r < batch ==> {
                    let row = #[trigger] decoded_row(v, tw, n_fft)(r);
                    &&& row == d.subrange(r * (2 * n_fft), (r + 1) * (2 * n_fft))
                    &&& row.len() == 2 * n_fft
                    &&& all_valid(row)
                }
            &&& forall|r: int|
                0 <= r < batch ==> {
                    let row = #[trigger] turned_row(v, tw, n_fft)(r);
                    &&& row == t.subrange(r * (2 * n_fft), (r + 1) * (2 * n_fft))
                    &&& row.len() == 2 * n_fft
                    &&& all_valid(row)
                }
        }),
{
    let row = decoded_row(v, tw, n_fft);
    let turn = turned_row(v, tw, n_fft);
    let two = (2 * n_fft) as nat;
    let k = batch as nat;
    assert forall|r: int| 0 <= r < k implies (#[trigger] row(r)).len() == two && all_valid(row(r)) by {
        lemma_part_valid(v, batch, n_fft, r);
        lemma_inverse_valid(v.subrange(r * (2 * n_fft), (r + 1) * (2 * n_fft)), tw, n_fft);
    }
    assert forall|r: int| 0 <= r < k implies (#[trigger] turn(r)).len() == two && all_valid(turn(r)) by {
        lemma_part_valid(v, batch, n_fft, r);
        let part = v.subrange(r * (2 * n_fft), (r + 1) * (2 * n_fft));
        lemma_permuted_valid(part, n_fft);
        lemma_inverse_valid(permuted(part, n_fft), tw, n_fft);
    }
    lemma_inverse_stacked(v, tw, n_fft, k);
    lemma_stacked_len(row, two, k);
    lemma_stacked_valid(row, k);
    lemma_stacked_len(turn, two, k);
    lemma_stacked_valid(turn, k);
    assert forall|r: int| 0 <= r < batch implies {
        let own = #[trigger] decoded_row(v, tw, n_fft)(r);
        &&& own == inverse_rows(v, tw, n_fft, k).subrange(r * (2 * n_fft), (r + 1) * (2 * n_fft))
        &&& own.len() == 2 * n_fft
        &&& all_valid(own)
    } by {
        lemma_stacked_row(row, two, k, r);
        assert(row(r).len() == two && all_valid(row(r)));
    }
    assert forall|r: int| 0 <= r < batch implies {
        let own = #[trigger] turned_row(v, tw, n_fft)(r);
        &&& own == turned_back(v, tw, n_fft, k).subrange(r * (2 * n_fft), (r + 1) * (2 * n_fft))
        &&& own.len() == 2 * n_fft
        &&& all_valid(own)
    } by {
        lemma_stacked_row(turn, two, k, r);
        assert(turn(r).len() == two && all_valid(turn(r)));
    }
}

proof fn lemma_part_valid<T: Ring>(v: Seq<T>, batch: usize, n_fft: usize, r: int)
    requires
        n_fft > 0,
        v.len() == batch * (2 * n_fft),
        all_valid(v),
        0 <= r < batch,
    ensures
        all_valid(v.subrange(r * (2 * n_fft), (r + 1) * (2 * n_fft))),
        v.subrange(r * (2 * n_fft), (r + 1) * (2 * n_fft)).len() == 2 * n_fft,
{
    lemma_places_of_row(r, batch as int, n_fft as int);
    let part = v.subrange(r * (2 * n_fft), (r + 1) * (2 * n_fft));
    assert forall|j: int| 0 <= j < part.len() implies T::valid(#[trigger] part[j]) by {
        assert(T::valid(v[r * (2 * n_fft) + j]));
    }
}

/// The targets of a row of the round trip.
spec fn scaled_row<T: Scalar>(signal: Seq<T>, scale: T, at: int, n: int) -> Seq<T> {
    Seq::new(
        (2 * n) as nat,
        |j: int|
            if j % 2 == 0 {
                T::product(signal[at + j / 2], scale)
            } else {
                T::nought()
            },
    )
}

proof fn lemma_scaled_row<T: Ring>(signal: Seq<T>, scale: T, batch: usize, n_fft: usize, r: int)
    requires
        n_fft > 0,
        signal.len() == batch * n_fft,
        all_valid(signal),
        T::valid(scale),
        0 <= r < batch,
    ensures
        ({
            let all = scaled_signal(signal, scale, (batch * (2 * n_fft)) as nat);
            let row = scaled_row(signal, scale, r * n_fft, n_fft as int);
            &&& all_valid(all)
            &&& all_valid(row)
            &&& forall|j: int| 0 <= j < 2 * n_fft ==> (#[trigger] row[j]) == all[r * (2 * n_fft) + j]
        }),
{
    T::closed();
    let n = n_fft as int;
    lemma_places_of_row(r, batch as int, n);
    let all = scaled_signal(signal, scale, (batch * (2 * n_fft)) as nat);
    let row = scaled_row(signal, scale, r * n, n);
    assert(batch * (2 * n) == 2 * (batch * n)) by (nonlinear_arith);
    assert forall|j: int| 0 <= j < all.len() implies T::valid(#[trigger] all[j]) by {
        if j % 2 == 0 {
            assert(T::valid(signal[j / 2]));
        }
    }
    assert forall|j: int| 0 <= j < 2 * n implies (#[trigger] row[j]) == all[r * (2 * n) + j]
        && T::valid(row[j]) by {
        let at = r * (2 * n) + j;
        assert(at == 2 * (r * n) + j);
        assert(at / 2 == r * n + j / 2);
        assert(at % 2 == j % 2);
        assert(T::valid(all[at]));
    }
}

/// The gradient of the reconstruction is twice the error over the norm.
proof fn lemma_recovery_gradient<T: Ring + Divisible>(
    rec: Seq<T>,
    signal: Seq<T>,
    at: int,
    scale: T,
    norm: T,
    n: int,
)
    requires
        n > 0,
        rec.len() == 2 * n,
        all_valid(rec),
        all_valid(scaled_row(signal, scale, at, n)),
        divides(norm),
        T::valid(T::counted(2)),
    ensures
        ({
            let g = recovery_gradient(rec, signal, at, scale, norm);
            let t = scaled_row(signal, scale, at, n);
            &&& g.len() == 2 * n
            &&& all_valid(g)
            &&& forall|j: int|
                0 <= j < 2 * n ==> #[trigger] g[j] == T::quotient(
                    T::product(T::counted(2), T::difference(rec[j], t[j])),
                    norm,
                )
        }),
{
    T::closed();
    let g = recovery_gradient(rec, signal, at, scale, norm);
    let t = scaled_row(signal, scale, at, n);
    assert forall|j: int| 0 <= j < 2 * n implies #[trigger] g[j] == T::quotient(
        T::product(T::counted(2), T::difference(rec[j], t[j])),
        norm,
    ) && T::valid(g[j]) by {
        assert(T::valid(rec[j]) && T::valid(t[j]));
        if j % 2 == 0 {
            assert(2 * (j / 2) == j);
        } else {
            lemma_less_nought(rec[j]);
        }
        assert(T::valid(T::product(T::counted(2), T::difference(rec[j], t[j]))));
    }
}

proof fn lemma_recovery_loss<T: Ring>(
    loss: T,
    rec: Seq<T>,
    signal: Seq<T>,
    at: int,
    scale: T,
    n: int,
    k: nat,
)
    requires
        T::valid(loss),
        rec.len() == 2 * n,
        all_valid(rec),
        all_valid(scaled_row(signal, scale, at, n)),
        k <= n,
    ensures
        recovery_loss(loss, rec, signal, at, scale, k) == T::sum(
            loss,
            distance(rec, scaled_row(signal, scale, at, n), 2 * k),
        ),
    decreases k,
{
    T::closed();
    let t = scaled_row(signal, scale, at, n);
    if k == 0 {
        T::sum_with_nought(loss);
    } else {
        let q = (k - 1) as nat;
        lemma_recovery_loss(loss, rec, signal, at, scale, n, q);
        lemma_distance_valid(rec, t, 2 * q);
        let c = q as int;
        assert(T::valid(rec[2 * c]) && T::valid(rec[2 * c + 1]));
        assert(T::valid(t[2 * c]) && T::valid(t[2 * c + 1]));
        assert((2 * c) % 2 == 0 && (2 * c) / 2 == c && (2 * c + 1) % 2 == 1);
        let re = T::difference(rec[2 * c], t[2 * c]);
        let im = rec[2 * c + 1];
        lemma_less_nought(im);
        reveal_with_fuel(distance, 3);
        let base = distance(rec, t, 2 * q);
        T::sum_associates(loss, base, T::sum(T::product(re, re), T::product(im, im)));
        T::sum_associates(base, T::product(re, re), T::product(im, im));
    }
}

/// Whether what training accumulated is made of valid numbers.
spec fn sound<T: Ring>(p: EncDecProgress<T>, n_fft: usize) -> bool {
    &&& T::valid(p.reconstruction)
    &&& T::valid(p.spectrum)
    &&& p.encoder.len() == twiddles_needed(n_fft)
    &&& all_valid(p.encoder)
    &&& p.decoder.len() == twiddles_needed(n_fft)
    &&& all_valid(p.decoder)
}

/// Conjugating and reversing can be exchanged.
proof fn lemma_conjugated_permuted<T: Scalar>(q: Seq<T>, n_fft: usize)
    requires
        q.len() == 2 * n_fft,
    ensures
        conjugated(permuted(q, n_fft), n_fft as int) == permuted(
            conjugated(q, n_fft as int),
            n_fft,
        ),
        permuted(conjugated(permuted(q, n_fft), n_fft as int), n_fft) == conjugated(
            q,
            n_fft as int,
        ),
{
    let n = n_fft as int;
    let a = conjugated(permuted(q, n_fft), n);
    let b = permuted(conjugated(q, n), n_fft);
    assert forall|i: int| 0 <= i < a.len() implies a[i] == b[i] by {
        lemma_source_place(i / 2, n_fft);
        let from = source_place(i / 2, n_fft) * 2 + i % 2;
        assert(from % 2 == i % 2);
        assert(from / 2 == source_place(i / 2, n_fft));
    }
    assert(a =~= b);
    permuting_twice_changes_nothing(conjugated(q, n), n_fft);
}

/// The gradient that is handed to the encoder, paired with spectra, is that of the reconstruction,
/// paired with what the decoder gives for those spectra in bit-reversed order.
proof fn lemma_handed<T: Ring>(
    g: Seq<T>,
    sums: Seq<T>,
    start: Seq<T>,
    dec: Seq<T>,
    q: Seq<T>,
    n_fft: usize,
)
    requires
        n_fft > 0,
        g.len() == 2 * n_fft,
        all_valid(g),
        sums.len() == twiddles_needed(n_fft),
        all_valid(sums),
        start.len() == 2 * n_fft,
        all_valid(start),
        dec.len() >= twiddles_needed(n_fft),
        all_valid(dec),
        q.len() == 2 * n_fft,
        all_valid(q),
    ensures
        ({
            let n = n_fft as int;
            let back = backward(
                conjugated(g, n),
                sums,
                stage_buffers(start, dec, n_fft),
                dec,
                n,
                stages_of(n_fft),
            );
            all_valid(back.0) && back.0.len() == 2 * n_fft ==> product_sum(
                conjugated(back.0, n),
                q,
                (2 * n_fft) as nat,
            ) == product_sum(
                g,
                inverse_transformed(permuted(q, n_fft), dec, n_fft),
                (2 * n_fft) as nat,
            )
        }),
{
    let n = n_fft as int;
    let two = (2 * n_fft) as nat;
    let stages = stages_of(n_fft);
    let cg = conjugated(g, n);
    lemma_conjugated_valid(g, n);
    let back = backward(cg, sums, stage_buffers(start, dec, n_fft), dec, n, stages);
    if all_valid(back.0) && back.0.len() == 2 * n_fft {
        let cq = conjugated(q, n);
        lemma_conjugated_valid(q, n);
        lemma_conjugation_crosses(back.0, q, n, two);
        lemma_passed_back(cg, sums, start, cq, dec, n_fft);
        let y = after_stages(cq, dec, n, stages);
        crate::fixed_points::lemma_after_valid(cq, dec, n_fft, stages);
        lemma_conjugation_crosses(g, y, n, two);
        lemma_conjugated_permuted(q, n_fft);
    }
}

spec fn handed<T: Divisible>(
    before: EncDecProgress<T>,
    signal: Seq<T>,
    reference: Seq<T>,
    b: int,
    encoder: Seq<T>,
    decoder: Seq<T>,
    n_fft: usize,
    weight: Option<T>,
    scale: T,
    norm: T,
) -> Seq<T> {
    let n = n_fft as int;
    let spectrum = transformed(as_complex(signal, b * n, n), encoder, n_fft);
    let recovered = inverse_transformed(spectrum, decoder, n_fft);
    let back = backward(
        conjugated(recovery_gradient(recovered, signal, b * n, scale, norm), n),
        before.decoder,
        stage_buffers(permuted(conjugated(spectrum, n), n_fft), decoder, n_fft),
        decoder,
        n,
        stages_of(n_fft),
    );
    match weight {
        Some(w) => with_spectrum_gradient(
            conjugated(back.0, n),
            spectrum,
            reference,
            b * (2 * n),
            w,
            norm,
        ),
        None => conjugated(back.0, n),
    }
}

/// What a row does to the sums of the decoder, and the losses that it adds.
proof fn lemma_decoder_row<T: Ring + Divisible>(
    before: EncDecProgress<T>,
    signal: Seq<T>,
    reference: Seq<T>,
    r: int,
    enc: Seq<T>,
    dec: Seq<T>,
    batch: usize,
    n_fft: usize,
    weight: Option<T>,
    i: int,
    h: T,
)
    requires
        trainable(signal, reference, enc, dec, batch, n_fft, weight),
        sound(before, n_fft),
        0 <= r < batch,
        T::valid(h),
        0 <= i < twiddles_needed(n_fft),
    ensures
        ({
            let n = n_fft as int;
            let two = (2 * n_fft) as nat;
            let scale = T::counted(n_fft);
            let norm = T::counted((batch * n_fft * 2) as usize);
            let spectrum = encoded_row(signal, enc, n_fft)(r);
            let rec = inverse_transformed(spectrum, dec, n_fft);
            let moved = inverse_transformed(spectrum, raised(dec, i, h), n_fft);
            let t = scaled_row(signal, scale, r * n, n);
            let g = recovery_gradient(rec, signal, r * n, scale, norm);
            let after = encdec_row(
                before,
                signal,
                reference,
                r,
                enc,
                dec,
                n_fft,
                weight,
                scale,
                norm,
            );
            &&& after.decoder.len() == twiddles_needed(n_fft)
            &&& all_valid(after.decoder)
            &&& T::sum(product_sum(g, moved, two), T::product(h, before.decoder[i])) == T::sum(
                product_sum(g, rec, two),
                T::product(h, after.decoder[i]),
            )
            &&& after.reconstruction == T::sum(before.reconstruction, distance(rec, t, two))
            &&& T::valid(after.reconstruction)
            &&& T::valid(after.spectrum)
            &&& match weight {
                Some(w) => after.spectrum == T::sum(
                    before.spectrum,
                    distance(spectrum, reference.skip(r * (2 * n)), two),
                ),
                None => after.spectrum == before.spectrum,
            }
        }),
{
    T::closed();
    let n = n_fft as int;
    let two = (2 * n_fft) as nat;
    let scale = T::counted(n_fft);
    let norm = T::counted((batch * n_fft * 2) as usize);
    let more = raised(dec, i, h);
    lemma_raised_valid(dec, i, h);
    lemma_spectra(signal, enc, batch, n_fft);
    let spectrum = encoded_row(signal, enc, n_fft)(r);
    assert(spectrum.len() == 2 * n_fft && all_valid(spectrum));
    lemma_inverse_valid(spectrum, dec, n_fft);
    lemma_inverse_valid(spectrum, more, n_fft);
    lemma_scaled_row(signal, scale, batch, n_fft, r);
    let rec = inverse_transformed(spectrum, dec, n_fft);
    let t = scaled_row(signal, scale, r * n, n);
    assert(T::valid(T::counted(2)));
    lemma_recovery_gradient(rec, signal, r * n, scale, norm, n);
    let g = recovery_gradient(rec, signal, r * n, scale, norm);
    lemma_conjugated_valid(g, n);
    lemma_conjugated_valid(spectrum, n);
    let start = permuted(conjugated(spectrum, n), n_fft);
    lemma_permuted_valid(conjugated(spectrum, n), n_fft);
    lemma_slope_of(conjugated(g, n), before.decoder, start, dec, i, h, n_fft);
    let y = after_stages(start, dec, n, stages_of(n_fft));
    let z = after_stages(start, more, n, stages_of(n_fft));
    crate::fixed_points::lemma_after_valid(start, dec, n_fft, stages_of(n_fft));
    crate::fixed_points::lemma_after_valid(start, more, n_fft, stages_of(n_fft));
    lemma_conjugation_crosses(g, y, n, two);
    lemma_conjugation_crosses(g, z, n, two);
    lemma_recovery_loss(before.reconstruction, rec, signal, r * n, scale, n, n_fft as nat);
    lemma_distance_valid(rec, t, two);
    lemma_places_of_row(r, batch as int, n);
    if weight is Some {
        let from = r * (2 * n);
        let rest = reference.skip(from);
        assert(all_valid(rest)) by {
            assert forall|j: int| 0 <= j < rest.len() implies T::valid(#[trigger] rest[j]) by {
                assert(T::valid(reference[from + j]));
            }
        }
        lemma_squared_error(before.spectrum, spectrum, reference, from, two);
        lemma_distance_valid(spectrum, rest, two);
    }
}

/// How far spectra lean towards the errors of a row: twice what the decoder makes of them, in
/// bit-reversed order, leaning towards the error of the reconstruction, and, weighted, twice
/// themselves leaning towards their own error.
spec fn row_leaning<T: Divisible>(
    rec: Seq<T>,
    t: Seq<T>,
    spectrum: Seq<T>,
    reference: Seq<T>,
    dec: Seq<T>,
    n_fft: usize,
    weight: Option<T>,
    q: Seq<T>,
) -> T {
    let two = (2 * n_fft) as nat;
    let first = T::product(
        T::counted(2),
        leaning(rec, t, inverse_transformed(permuted(q, n_fft), dec, n_fft), two),
    );
    match weight {
        Some(w) => T::sum(
            first,
            T::product(
                T::product(T::counted(2), w),
                leaning(spectrum, reference, q, two),
            ),
        ),
        None => first,
    }
}

/// What a row does to the sums of the encoder.
proof fn lemma_encoder_row<T: Ring + Divisible>(
    before: EncDecProgress<T>,
    signal: Seq<T>,
    reference: Seq<T>,
    r: int,
    enc: Seq<T>,
    dec: Seq<T>,
    batch: usize,
    n_fft: usize,
    weight: Option<T>,
    i: int,
    h: T,
)
    requires
        trainable(signal, reference, enc, dec, batch, n_fft, weight),
        sound(before, n_fft),
        0 <= r < batch,
        T::valid(h),
        0 <= i < twiddles_needed(n_fft),
    ensures
        ({
            let n = n_fft as int;
            let scale = T::counted(n_fft);
            let norm = T::counted((batch * n_fft * 2) as usize);
            let spectrum = encoded_row(signal, enc, n_fft)(r);
            let moved = encoded_row(signal, raised(enc, i, h), n_fft)(r);
            let rec = inverse_transformed(spectrum, dec, n_fft);
            let t = scaled_row(signal, scale, r * n, n);
            let rest = reference.skip(r * (2 * n));
            let after = encdec_row(
                before,
                signal,
                reference,
                r,
                enc,
                dec,
                n_fft,
                weight,
                scale,
                norm,
            );
            let a = row_leaning(rec, t, spectrum, rest, dec, n_fft, weight, spectrum);
            let b = row_leaning(rec, t, spectrum, rest, dec, n_fft, weight, moved);
            &&& after.encoder.len() == twiddles_needed(n_fft)
            &&& all_valid(after.encoder)
            &&& T::valid(a)
            &&& T::valid(b)
            &&& T::sum(b, T::product(norm, T::product(h, before.encoder[i]))) == T::sum(
                a,
                T::product(norm, T::product(h, after.encoder[i])),
            )
        }),
{
    T::closed();
    let n = n_fft as int;
    let two = (2 * n_fft) as nat;
    let scale = T::counted(n_fft);
    let norm = T::counted((batch * n_fft * 2) as usize);
    let more = raised(enc, i, h);
    lemma_raised_valid(enc, i, h);
    lemma_spectra(signal, enc, batch, n_fft);
    lemma_spectra(signal, more, batch, n_fft);
    let spectrum = encoded_row(signal, enc, n_fft)(r);
    let moved = encoded_row(signal, more, n_fft)(r);
    assert(spectrum.len() == 2 * n_fft && all_valid(spectrum));
    assert(moved.len() == 2 * n_fft && all_valid(moved));
    lemma_inverse_valid(spectrum, dec, n_fft);
    lemma_scaled_row(signal, scale, batch, n_fft, r);
    let rec = inverse_transformed(spectrum, dec, n_fft);
    let t = scaled_row(signal, scale, r * n, n);
    let counted = T::counted(2);
    assert(T::valid(counted));
    lemma_recovery_gradient(rec, signal, r * n, scale, norm, n);
    let g = recovery_gradient(rec, signal, r * n, scale, norm);
    lemma_conjugated_valid(g, n);
    lemma_conjugated_valid(spectrum, n);
    let start = permuted(conjugated(spectrum, n), n_fft);
    lemma_permuted_valid(conjugated(spectrum, n), n_fft);
    lemma_slope_of(conjugated(g, n), before.decoder, start, dec, i, h, n_fft);
    let back = backward(
        conjugated(g, n),
        before.decoder,
        stage_buffers(start, dec, n_fft),
        dec,
        n,
        stages_of(n_fft),
    );
    lemma_conjugated_valid(back.0, n);
    lemma_places_of_row(r, batch as int, n);
    let from = r * (2 * n);
    let rest = reference.skip(from);
    assert(all_valid(rest)) by {
        assert forall|j: int| 0 <= j < rest.len() implies T::valid(#[trigger] rest[j]) by {
            assert(T::valid(reference[from + j]));
        }
    }
    let whole = handed(before, signal, reference, r, enc, dec, n_fft, weight, scale, norm);
    lemma_whole(back.0, g, before.decoder, start, rec, t, spectrum, reference, from, dec, n_fft, weight, norm, spectrum);
    lemma_whole(back.0, g, before.decoder, start, rec, t, spectrum, reference, from, dec, n_fft, weight, norm, moved);
    let x = as_complex(signal, r * n, n);
    lemma_signal_row(signal, n_fft, batch as nat, r);
    lemma_permuted_valid(x, n_fft);
    lemma_slope_of(whole, before.encoder, permuted(x, n_fft), enc, i, h, n_fft);
    let after = encdec_row(before, signal, reference, r, enc, dec, n_fft, weight, scale, norm);
    let pa = product_sum(whole, spectrum, two);
    let pb = product_sum(whole, moved, two);
    lemma_product_sum_valid(whole, spectrum, two);
    lemma_product_sum_valid(whole, moved, two);
    let ga = T::product(h, before.encoder[i]);
    let gb = T::product(h, after.encoder[i]);
    assert(T::valid(before.encoder[i]) && T::valid(after.encoder[i]));
    T::product_distributes(norm, pb, ga);
    T::product_distributes(norm, pa, gb);
}

/// The gradient handed to the encoder, times the norm, pairs with spectra as they lean.
proof fn lemma_whole<T: Ring + Divisible>(
    back: Seq<T>,
    g: Seq<T>,
    sums: Seq<T>,
    start: Seq<T>,
    rec: Seq<T>,
    t: Seq<T>,
    spectrum: Seq<T>,
    reference: Seq<T>,
    from: int,
    dec: Seq<T>,
    n_fft: usize,
    weight: Option<T>,
    norm: T,
    q: Seq<T>,
)
    requires
        n_fft > 0,
        g.len() == 2 * n_fft,
        all_valid(g),
        sums.len() == twiddles_needed(n_fft),
        all_valid(sums),
        start.len() == 2 * n_fft,
        all_valid(start),
        dec.len() >= twiddles_needed(n_fft),
        all_valid(dec),
        q.len() == 2 * n_fft,
        all_valid(q),
        back.len() == 2 * n_fft,
        all_valid(back),
        back == backward(
            conjugated(g, n_fft as int),
            sums,
            stage_buffers(start, dec, n_fft),
            dec,
            n_fft as int,
            stages_of(n_fft),
        ).0,
        rec.len() == 2 * n_fft,
        all_valid(rec),
        t.len() == 2 * n_fft,
        all_valid(t),
        spectrum.len() == 2 * n_fft,
        all_valid(spectrum),
        all_valid(reference),
        0 <= from,
        from + 2 * n_fft <= reference.len(),
        all_valid(reference.skip(from)),
        weight matches Some(w) ==> T::valid(w),
        T::valid(T::counted(2)),
        divides(norm),
        forall|j: int|
            0 <= j < 2 * n_fft ==> #[trigger] g[j] == T::quotient(
                T::product(T::counted(2), T::difference(rec[j], t[j])),
                norm,
            ),
    ensures
        ({
            let n = n_fft as int;
            let two = (2 * n_fft) as nat;
            let whole = match weight {
                Some(w) => with_spectrum_gradient(
                    conjugated(back, n),
                    spectrum,
                    reference,
                    from,
                    w,
                    norm,
                ),
                None => conjugated(back, n),
            };
            let leans = row_leaning(
                rec,
                t,
                spectrum,
                reference.skip(from),
                dec,
                n_fft,
                weight,
                q,
            );
            &&& whole.len() == 2 * n_fft
            &&& all_valid(whole)
            &&& T::product(norm, product_sum(whole, q, two)) == leans
            &&& T::valid(leans)
        }),
{
    T::closed();
    let n = n_fft as int;
    let two = (2 * n_fft) as nat;
    let rest = reference.skip(from);
    let counted = T::counted(2);
    lemma_conjugated_valid(back, n);
    lemma_handed(g, sums, start, dec, q, n_fft);
    lemma_permuted_valid(q, n_fft);
    let made = inverse_transformed(permuted(q, n_fft), dec, n_fft);
    lemma_inverse_valid(permuted(q, n_fft), dec, n_fft);
    lemma_leans(g, counted, rec, t, made, norm, two);
    lemma_leaning_valid(rec, t, made, two);
    let first = conjugated(back, n);
    match weight {
        None => {},
        Some(w) => {
            let factor = T::product(counted, w);
            let second = Seq::new(
                two,
                |j: int|
                    T::quotient(T::product(factor, T::difference(spectrum[j], rest[j])), norm),
            );
            let whole = with_spectrum_gradient(first, spectrum, reference, from, w, norm);
            assert forall|j: int| 0 <= j < two implies T::valid(#[trigger] second[j]) by {
                assert(T::valid(spectrum[j]) && T::valid(rest[j]));
                assert(T::valid(T::product(factor, T::difference(spectrum[j], rest[j]))));
            }
            assert forall|j: int| 0 <= j < two implies #[trigger] whole[j] == T::sum(
                first[j],
                second[j],
            ) by {
                assert(rest[j] == reference[from + j]);
            }
            assert forall|j: int| 0 <= j < whole.len() implies T::valid(#[trigger] whole[j]) by {
                assert(T::valid(first[j]) && T::valid(second[j]));
            }
            lemma_product_sum_adds(first, second, whole, q, two);
            lemma_leans(second, factor, spectrum, rest, q, norm, two);
            lemma_leaning_valid(spectrum, rest, q, two);
            lemma_product_sum_valid(first, q, two);
            lemma_product_sum_valid(second, q, two);
            T::product_distributes(
                norm,
                product_sum(first, q, two),
                product_sum(second, q, two),
            );
        },
    }
}

// ---------------------------------------------------------------------------
// Batches
// ---------------------------------------------------------------------------

/// How far spectra lean towards the errors of a round trip: twice what the decoder gives for them,
/// `decoded`, leaning towards the error of the reconstruction, and, weighted, twice the spectra
/// leaning towards their own error.
pub open spec fn trip_leaning<T: Divisible>(
    recovered: Seq<T>,
    wanted: Seq<T>,
    spectra: Seq<T>,
    reference: Seq<T>,
    weight: Option<T>,
    decoded: Seq<T>,
    q: Seq<T>,
    count: nat,
) -> T {
    let first = T::product(T::counted(2), leaning(recovered, wanted, decoded, count));
    match weight {
        Some(w) => T::sum(
            first,
            T::product(T::product(T::counted(2), w), leaning(spectra, reference, q, count)),
        ),
        None => first,
    }
}

proof fn lemma_trip_row<T: Ring + Divisible>(
    rec: Seq<T>,
    xs: Seq<T>,
    s: Seq<T>,
    reference: Seq<T>,
    weight: Option<T>,
    decoded: Seq<T>,
    q: Seq<T>,
    dec: Seq<T>,
    n_fft: usize,
    from: nat,
    rec_row: Seq<T>,
    t_row: Seq<T>,
    s_row: Seq<T>,
    q_row: Seq<T>,
)
    requires
        n_fft > 0,
        all_valid(rec),
        all_valid(xs),
        all_valid(s),
        all_valid(reference),
        all_valid(decoded),
        all_valid(q),
        from + 2 * n_fft <= rec.len(),
        from + 2 * n_fft <= xs.len(),
        from + 2 * n_fft <= s.len(),
        from + 2 * n_fft <= reference.len(),
        from + 2 * n_fft <= decoded.len(),
        from + 2 * n_fft <= q.len(),
        weight matches Some(w) ==> T::valid(w),
        T::valid(T::counted(2)),
        rec_row == rec.subrange(from as int, from + 2 * n_fft),
        t_row.len() == 2 * n_fft,
        forall|j: int| 0 <= j < 2 * n_fft ==> (#[trigger] t_row[j]) == xs[from + j],
        s_row == s.subrange(from as int, from + 2 * n_fft),
        q_row == q.subrange(from as int, from + 2 * n_fft),
        inverse_transformed(permuted(q_row, n_fft), dec, n_fft) == decoded.subrange(
            from as int,
            from + 2 * n_fft,
        ),
    ensures
        trip_leaning(rec, xs, s, reference, weight, decoded, q, from + (2 * n_fft) as nat)
            == T::sum(
            trip_leaning(rec, xs, s, reference, weight, decoded, q, from),
            row_leaning(
                rec_row,
                t_row,
                s_row,
                reference.skip(from as int),
                dec,
                n_fft,
                weight,
                q_row,
            ),
        ),
        T::valid(trip_leaning(rec, xs, s, reference, weight, decoded, q, from)),
{
    let two = (2 * n_fft) as nat;
    let counted = T::counted(2);
    let made = inverse_transformed(permuted(q_row, n_fft), dec, n_fft);
    let rest = reference.skip(from as int);
    assert forall|j: int| 0 <= j < two implies (#[trigger] rec_row[j]) == rec[from + j] && t_row[j]
        == xs[from + j] && made[j] == decoded[from + j] by {}
    lemma_leaning_row(rec, xs, decoded, rec_row, t_row, made, from, two);
    assert forall|j: int| 0 <= j < two implies (#[trigger] s_row[j]) == s[from + j] && rest[j]
        == reference[from + j] && q_row[j] == q[from + j] by {}
    lemma_leaning_row(s, reference, q, s_row, rest, q_row, from, two);
    T::closed();
    let a = leaning(rec, xs, decoded, from);
    let b = leaning(rec_row, t_row, made, two);
    let c = leaning(s, reference, q, from);
    let d = leaning(s_row, rest, q_row, two);
    lemma_leaning_valid(rec, xs, decoded, from);
    lemma_leaning_valid(s, reference, q, from);
    T::product_distributes(counted, a, b);
    match weight {
        None => {},
        Some(w) => {
            let f = T::product(counted, w);
            T::product_distributes(f, c, d);
            lemma_exchange(
                T::product(counted, a),
                T::product(counted, b),
                T::product(f, c),
                T::product(f, d),
            );
        },
    }
}

proof fn lemma_trip<T: Ring + Divisible>(
    signal: Seq<T>,
    reference: Seq<T>,
    enc: Seq<T>,
    dec: Seq<T>,
    batch: usize,
    n_fft: usize,
    weight: Option<T>,
    i: int,
    h: T,
    k: nat,
)
    requires
        trainable(signal, reference, enc, dec, batch, n_fft, weight),
        T::valid(h),
        0 <= i < twiddles_needed(n_fft),
        k <= batch,
    ensures
        ({
            let rows = batch as nat;
            let all = (batch * (2 * n_fft)) as nat;
            let m = (k * (2 * n_fft)) as nat;
            let scale = T::counted(n_fft);
            let norm = T::counted((batch * n_fft * 2) as usize);
            let p = encdec_rows(signal, reference, enc, dec, n_fft, weight, scale, norm, k);
            let xs = scaled_signal(signal, scale, all);
            let s = forward_rows(signal, enc, n_fft, rows);
            let rec = inverse_rows(s, dec, n_fft, rows);
            let rec_moved = inverse_rows(s, raised(dec, i, h), n_fft, rows);
            let s_moved = forward_rows(signal, raised(enc, i, h), n_fft, rows);
            &&& sound(p, n_fft)
            &&& p.reconstruction == distance(rec, xs, m)
            &&& match weight {
                Some(w) => p.spectrum == distance(s, reference, m),
                None => p.spectrum == T::nought(),
            }
            &&& distance(rec_moved, xs, m) == T::sum(
                T::sum(distance(rec, xs, m), distance(rec_moved, rec, m)),
                T::product(norm, T::product(h, p.decoder[i])),
            )
            &&& trip_leaning(
                rec,
                xs,
                s,
                reference,
                weight,
                turned_back(s_moved, dec, n_fft, rows),
                s_moved,
                m,
            ) == T::sum(
                trip_leaning(
                    rec,
                    xs,
                    s,
                    reference,
                    weight,
                    turned_back(s, dec, n_fft, rows),
                    s,
                    m,
                ),
                T::product(norm, T::product(h, p.encoder[i])),
            )
        }),
    decreases k,
{
    T::closed();
    let n = n_fft as int;
    let rows = batch as nat;
    let two = (2 * n_fft) as nat;
    let all = (batch * (2 * n_fft)) as nat;
    let scale = T::counted(n_fft);
    let norm = T::counted((batch * n_fft * 2) as usize);
    let counted = T::counted(2);
    assert(T::valid(counted));
    let xs = scaled_signal(signal, scale, all);
    let more_enc = raised(enc, i, h);
    let more_dec = raised(dec, i, h);
    lemma_raised_valid(enc, i, h);
    lemma_raised_valid(dec, i, h);
    let s = forward_rows(signal, enc, n_fft, rows);
    let s_moved = forward_rows(signal, more_enc, n_fft, rows);
    lemma_spectra(signal, enc, batch, n_fft);
    lemma_spectra(signal, more_enc, batch, n_fft);
    let rec = inverse_rows(s, dec, n_fft, rows);
    let rec_moved = inverse_rows(s, more_dec, n_fft, rows);
    lemma_decoded(s, dec, batch, n_fft);
    lemma_decoded(s, more_dec, batch, n_fft);
    lemma_decoded(s_moved, dec, batch, n_fft);
    let ta = turned_back(s, dec, n_fft, rows);
    let tb = turned_back(s_moved, dec, n_fft, rows);
    if k == 0 {
        assert(0 * (2 * n_fft) == 0);
        let none = Seq::new(twiddles_needed(n_fft), |j: int| T::nought());
        assert(all_valid(none));
        lemma_product_nought(h);
        lemma_product_nought(norm);
        lemma_product_nought(counted);
        T::sum_with_nought(T::nought());
        match weight {
            None => {},
            Some(w) => {
                lemma_product_nought(T::product(counted, w));
            },
        }
    } else {
        let q = (k - 1) as nat;
        let r = q as int;
        lemma_trip(signal, reference, enc, dec, batch, n_fft, weight, i, h, q);
        assert(k * two == q * two + two) by (nonlinear_arith)
            requires
                k == q + 1,
        ;
        lemma_places_of_row(r, batch as int, n);
        let from = q * two;
        assert(r * (2 * n) == from);
        let before = encdec_rows(signal, reference, enc, dec, n_fft, weight, scale, norm, q);
        let after = encdec_rows(signal, reference, enc, dec, n_fft, weight, scale, norm, k);
        lemma_decoder_row(before, signal, reference, r, enc, dec, batch, n_fft, weight, i, h);
        lemma_encoder_row(before, signal, reference, r, enc, dec, batch, n_fft, weight, i, h);
        assert(sound(after, n_fft));
        let s_row = encoded_row(signal, enc, n_fft)(r);
        let q_row = encoded_row(signal, more_enc, n_fft)(r);
        assert(s_row == s.subrange(r * (2 * n_fft), (r + 1) * (2 * n_fft)));
        assert(q_row == s_moved.subrange(r * (2 * n_fft), (r + 1) * (2 * n_fft)));
        let rec_row = decoded_row(s, dec, n_fft)(r);
        let moved_row = decoded_row(s, more_dec, n_fft)(r);
        assert(rec_row == rec.subrange(r * (2 * n_fft), (r + 1) * (2 * n_fft)));
        assert(moved_row == rec_moved.subrange(r * (2 * n_fft), (r + 1) * (2 * n_fft)));
        assert(rec_row == inverse_transformed(s_row, dec, n_fft));
        assert(moved_row == inverse_transformed(s_row, more_dec, n_fft));
        lemma_scaled_row(signal, scale, batch, n_fft, r);
        let t_row = scaled_row(signal, scale, r * n, n);
        // The losses.
        lemma_joined_distance(rec, xs, rec_row, t_row, from, two);
        let rest = reference.skip(from as int);
        if weight is Some {
            lemma_joined_distance(s, reference, s_row, rest, from, two);
        }
        // The decoder.
        let g = recovery_gradient(rec_row, signal, r * n, scale, norm);
        lemma_recovery_gradient(rec_row, signal, r * n, scale, norm, n);
        lemma_row_error(rec_row, moved_row, t_row, g, norm, two);
        lemma_joined_distance(rec_moved, xs, moved_row, t_row, from, two);
        lemma_joined_distance(rec_moved, rec, moved_row, rec_row, from, two);
        lemma_decoder_joins(
            distance(rec_moved, xs, from),
            distance(rec, xs, from),
            distance(rec_moved, rec, from),
            distance(moved_row, t_row, two),
            distance(rec_row, t_row, two),
            distance(moved_row, rec_row, two),
            product_sum(g, rec_row, two),
            product_sum(g, moved_row, two),
            before.decoder[i],
            after.decoder[i],
            norm,
            h,
            rec,
            xs,
            rec_moved,
            rec_row,
            t_row,
            moved_row,
            g,
            from,
            two,
        );
        // The encoder.
        assert(turned_row(s, dec, n_fft)(r) == ta.subrange(
            r * (2 * n_fft),
            (r + 1) * (2 * n_fft),
        ));
        assert(turned_row(s_moved, dec, n_fft)(r) == tb.subrange(
            r * (2 * n_fft),
            (r + 1) * (2 * n_fft),
        ));
        lemma_trip_row(
            rec, xs, s, reference, weight, ta, s, dec, n_fft, from, rec_row, t_row, s_row, s_row,
        );
        lemma_trip_row(
            rec, xs, s, reference, weight, tb, s_moved, dec, n_fft, from, rec_row, t_row, s_row, q_row,
        );
        let la = trip_leaning(rec, xs, s, reference, weight, ta, s, from);
        let lb = trip_leaning(rec, xs, s, reference, weight, tb, s_moved, from);
        let ra = row_leaning(rec_row, t_row, s_row, rest, dec, n_fft, weight, s_row);
        let rb = row_leaning(rec_row, t_row, s_row, rest, dec, n_fft, weight, q_row);
        let pa = T::product(norm, T::product(h, before.encoder[i]));
        let pb = T::product(norm, T::product(h, after.encoder[i]));
        assert(T::valid(before.encoder[i]) && T::valid(after.encoder[i]));
        assert(lb == T::sum(la, pa));
        assert(T::sum(rb, pa) == T::sum(ra, pb));
        T::sum_associates(la, pa, rb);
        T::sum_commutes(pa, rb);
        T::sum_associates(la, ra, pb);
    }
}

proof fn lemma_joined_distance<T: Ring>(
    a: Seq<T>,
    b: Seq<T>,
    ra: Seq<T>,
    rb: Seq<T>,
    from: nat,
    m: nat,
)
    requires
        all_valid(a),
        all_valid(b),
        from + m <= a.len(),
        from + m <= b.len(),
        m <= ra.len(),
        m <= rb.len(),
        forall|j: int| 0 <= j < m ==> (#[trigger] ra[j]) == a[from + j],
        forall|j: int| 0 <= j < m ==> (#[trigger] rb[j]) == b[from + j],
    ensures
        distance(a, b, from + m) == T::sum(distance(a, b, from), distance(ra, rb, m)),
        T::valid(distance(ra, rb, m)),
        T::valid(distance(a, b, from)),
{
    assert forall|j: int| 0 <= j < m implies (#[trigger] ra[j]) == a[from + j] && rb[j] == b[from
        + j] by {
        assert(rb[j] == b[from + j]);
    }
    lemma_distance_row(a, b, ra, rb, from, m);
    lemma_distance_valid(a, b, from);
}

proof fn lemma_decoder_joins<T: Ring + Divisible>(
    e1: T,
    e0: T,
    s0: T,
    d1: T,
    d0: T,
    s1: T,
    po: T,
    pm: T,
    g0: T,
    g1: T,
    norm: T,
    h: T,
    rec: Seq<T>,
    xs: Seq<T>,
    rec_moved: Seq<T>,
    rec_row: Seq<T>,
    t_row: Seq<T>,
    moved_row: Seq<T>,
    g: Seq<T>,
    from: nat,
    two: nat,
)
    requires
        T::valid(e1),
        T::valid(e0),
        T::valid(s0),
        T::valid(d1),
        T::valid(d0),
        T::valid(s1),
        all_valid(g),
        all_valid(rec_row),
        all_valid(moved_row),
        two <= g.len(),
        two <= rec_row.len(),
        two <= moved_row.len(),
        po == product_sum(g, rec_row, two),
        pm == product_sum(g, moved_row, two),
        T::valid(g0),
        T::valid(g1),
        T::valid(norm),
        T::valid(h),
        e1 == T::sum(T::sum(e0, s0), T::product(norm, T::product(h, g0))),
        T::sum(d1, T::product(norm, po)) == T::sum(T::sum(d0, s1), T::product(norm, pm)),
        T::sum(pm, T::product(h, g0)) == T::sum(po, T::product(h, g1)),
    ensures
        T::sum(e1, d1) == T::sum(
            T::sum(T::sum(e0, d0), T::sum(s0, s1)),
            T::product(norm, T::product(h, g1)),
        ),
{
    T::closed();
    lemma_product_sum_valid(g, rec_row, two);
    lemma_product_sum_valid(g, moved_row, two);
    let a = T::product(h, g0);
    let b = T::product(h, g1);
    T::product_distributes(norm, pm, a);
    T::product_distributes(norm, po, b);
    lemma_join(
        e1,
        e0,
        s0,
        T::product(norm, a),
        d1,
        d0,
        s1,
        T::product(norm, po),
        T::product(norm, pm),
        T::product(norm, b),
    );
}

// ---------------------------------------------------------------------------
// The laws
// ---------------------------------------------------------------------------

/// A step of training an encoder with a decoder moves every twiddle of the decoder against the
/// derivative of the squared error of the reconstruction, whichever number of a twiddle is raised,
/// by whatever amount.
pub proof fn decoder_training_descends<T: Ring + Divisible>(
    signal: Seq<T>,
    reference: Seq<T>,
    encoder: Seq<T>,
    decoder: Seq<T>,
    batch: usize,
    n_fft: usize,
    weight: Option<T>,
    lr: T,
    i: int,
    h: T,
)
    requires
        trainable(signal, reference, encoder, decoder, batch, n_fft, weight),
        T::valid(lr),
        T::valid(h),
        0 <= i < twiddles_needed(n_fft),
    ensures
        ({
            let rows = batch as nat;
            let count = (batch * (2 * n_fft)) as nat;
            let norm = T::counted((batch * n_fft * 2) as usize);
            let p = encdec_batch(signal, reference, encoder, decoder, batch, n_fft, weight);
            let trained = descended(decoder, p.decoder, lr);
            let spectra = forward_rows(signal, encoder, n_fft, rows);
            let wanted = scaled_signal(signal, T::counted(n_fft), count);
            descends(
                decoder[i],
                trained[i],
                h,
                lr,
                norm,
                inverse_rows(spectra, decoder, n_fft, rows),
                inverse_rows(spectra, raised(decoder, i, h), n_fft, rows),
                wanted,
                count,
            )
        }),
{
    let rows = batch as nat;
    let count = (batch * (2 * n_fft)) as nat;
    let norm = T::counted((batch * n_fft * 2) as usize);
    lemma_trip(signal, reference, encoder, decoder, batch, n_fft, weight, i, h, rows);
    let p = encdec_batch(signal, reference, encoder, decoder, batch, n_fft, weight);
    let spectra = forward_rows(signal, encoder, n_fft, rows);
    let wanted = scaled_signal(signal, T::counted(n_fft), count);
    lemma_spectra(signal, encoder, batch, n_fft);
    lemma_raised_valid(decoder, i, h);
    lemma_decoded(spectra, decoder, batch, n_fft);
    lemma_decoded(spectra, raised(decoder, i, h), batch, n_fft);
    lemma_wanted_valid(signal, T::counted(n_fft), batch, n_fft);
    assert(T::valid(decoder[i]) && T::valid(p.decoder[i]));
    lemma_descends(
        decoder[i],
        p.decoder[i],
        h,
        lr,
        norm,
        inverse_rows(spectra, decoder, n_fft, rows),
        inverse_rows(spectra, raised(decoder, i, h), n_fft, rows),
        wanted,
        count,
    );
}

proof fn lemma_wanted_valid<T: Ring>(signal: Seq<T>, scale: T, batch: usize, n_fft: usize)
    requires
        n_fft > 0,
        signal.len() == batch * n_fft,
        all_valid(signal),
        T::valid(scale),
    ensures
        all_valid(scaled_signal(signal, scale, (batch * (2 * n_fft)) as nat)),
{
    T::closed();
    let all = scaled_signal(signal, scale, (batch * (2 * n_fft)) as nat);
    assert(batch * (2 * n_fft) == 2 * (batch * n_fft)) by (nonlinear_arith);
    assert forall|j: int| 0 <= j < all.len() implies T::valid(#[trigger] all[j]) by {
        if j % 2 == 0 {
            assert(T::valid(signal[j / 2]));
        }
    }
}

/// A step of training an encoder with a decoder moves every twiddle of the encoder against how far
/// its spectra lean towards the errors of the round trip. Raising a number of a twiddle by `h` turns
/// the spectra into others; these lean further, by `h` times the derivative, and the step takes the
/// number down by the rate times that derivative over the number of numbers. How far spectra lean
/// towards the error of the reconstruction is told by what the decoder gives for them with their
/// numbers in bit-reversed order, the order in which its stages read them.
pub proof fn encoder_training_descends<T: Ring + Divisible>(
    signal: Seq<T>,
    reference: Seq<T>,
    encoder: Seq<T>,
    decoder: Seq<T>,
    batch: usize,
    n_fft: usize,
    weight: Option<T>,
    lr: T,
    i: int,
    h: T,
)
    requires
        trainable(signal, reference, encoder, decoder, batch, n_fft, weight),
        T::valid(lr),
        T::valid(h),
        0 <= i < twiddles_needed(n_fft),
    ensures
        ({
            let rows = batch as nat;
            let count = (batch * (2 * n_fft)) as nat;
            let norm = T::counted((batch * n_fft * 2) as usize);
            let p = encdec_batch(signal, reference, encoder, decoder, batch, n_fft, weight);
            let trained = descended(encoder, p.encoder, lr);
            let spectra = forward_rows(signal, encoder, n_fft, rows);
            let moved = forward_rows(signal, raised(encoder, i, h), n_fft, rows);
            let recovered = inverse_rows(spectra, decoder, n_fft, rows);
            let wanted = scaled_signal(signal, T::counted(n_fft), count);
            T::product(
                lr,
                trip_leaning(
                    recovered,
                    wanted,
                    spectra,
                    reference,
                    weight,
                    turned_back(moved, decoder, n_fft, rows),
                    moved,
                    count,
                ),
            ) == T::sum(
                T::product(
                    lr,
                    trip_leaning(
                        recovered,
                        wanted,
                        spectra,
                        reference,
                        weight,
                        turned_back(spectra, decoder, n_fft, rows),
                        spectra,
                        count,
                    ),
                ),
                T::product(norm, T::product(h, T::difference(encoder[i], trained[i]))),
            )
        }),
{
    T::closed();
    let rows = batch as nat;
    let count = (batch * (2 * n_fft)) as nat;
    let norm = T::counted((batch * n_fft * 2) as usize);
    lemma_trip(signal, reference, encoder, decoder, batch, n_fft, weight, i, h, rows);
    let p = encdec_batch(signal, reference, encoder, decoder, batch, n_fft, weight);
    let spectra = forward_rows(signal, encoder, n_fft, rows);
    let recovered = inverse_rows(spectra, decoder, n_fft, rows);
    let wanted = scaled_signal(signal, T::counted(n_fft), count);
    let base = trip_leaning(
        recovered,
        wanted,
        spectra,
        reference,
        weight,
        turned_back(spectra, decoder, n_fft, rows),
        spectra,
        count,
    );
    lemma_spectra(signal, encoder, batch, n_fft);
    lemma_decoded(spectra, decoder, batch, n_fft);
    lemma_wanted_valid(signal, T::counted(n_fft), batch, n_fft);
    let turned = turned_back(spectra, decoder, n_fft, rows);
    lemma_leaning_valid(recovered, wanted, turned, count);
    lemma_leaning_valid(spectra, reference, spectra, count);
    assert(T::valid(T::counted(2)));
    assert(T::valid(base)) by {
        match weight {
            None => {},
            Some(w) => {
                assert(T::valid(T::product(T::counted(2), w)));
            },
        }
    }
    let slope = p.encoder[i];
    assert(T::valid(encoder[i]) && T::valid(slope));
    let e = T::product(norm, T::product(h, slope));
    T::product_distributes(lr, base, e);
    let step = T::product(lr, slope);
    lemma_taken(encoder[i], step);
    T::product_associates(lr, norm, T::product(h, slope));
    T::product_commutes(lr, norm);
    T::product_associates(norm, lr, T::product(h, slope));
    lemma_three(lr, h, slope);
    T::product_commutes(lr, h);
    T::product_associates(h, lr, slope);
}

/// The losses that a step of training an encoder with a decoder tells are the squared error of the
/// reconstruction over the numbers of the signal, and, where the spectra have a weight, their own
/// squared error over the real numbers that they hold.
pub proof fn trip_losses_are_errors<T: Ring + Divisible>(
    signal: Seq<T>,
    reference: Seq<T>,
    encoder: Seq<T>,
    decoder: Seq<T>,
    batch: usize,
    n_fft: usize,
    weight: Option<T>,
)
    requires
        trainable(signal, reference, encoder, decoder, batch, n_fft, weight),
        twiddles_needed(n_fft) > 0,
        divides(T::counted((batch * n_fft) as usize)),
    ensures
        ({
            let rows = batch as nat;
            let count = (batch * (2 * n_fft)) as nat;
            let p = encdec_batch(signal, reference, encoder, decoder, batch, n_fft, weight);
            let told = encdec_losses(p, batch, n_fft, weight);
            let spectra = forward_rows(signal, encoder, n_fft, rows);
            let recovered = inverse_rows(spectra, decoder, n_fft, rows);
            let wanted = scaled_signal(signal, T::counted(n_fft), count);
            &&& T::product(T::counted((batch * n_fft) as usize), told.reconstruction) == distance(
                recovered,
                wanted,
                count,
            )
            &&& match weight {
                Some(w) => T::product(T::counted((batch * n_fft * 2) as usize), told.spectrum)
                    == distance(spectra, reference, count),
                None => told.spectrum == T::nought(),
            }
        }),
{
    T::closed();
    let rows = batch as nat;
    lemma_trip(signal, reference, encoder, decoder, batch, n_fft, weight, 0, T::nought(), rows);
}

} // verus!
