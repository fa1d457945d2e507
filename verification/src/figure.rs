//! Measured numbers: the bits of a double decide every comparison, the texts are how it is shown.

use crate::text::copy_text;
use vstd::prelude::*;

verus! {

/// The magnitude bits of positive infinity.
pub const INFINITY_BITS: u64 = 0x7ff0_0000_0000_0000;

/// The sign bit.
pub const SIGN_BIT: u64 = 0x8000_0000_0000_0000;

/// The bits of 0.01.
pub const HUNDREDTH_BITS: u64 = 0x3f84_7ae1_47ae_147b;

/// The bits without the sign.
pub open spec fn magnitude(bits: u64) -> int {
    if bits >= SIGN_BIT {
        bits - SIGN_BIT
    } else {
        bits as int
    }
}

/// Whether the bits are those of a value that is not a number.
pub open spec fn nan(bits: u64) -> bool {
    magnitude(bits) > INFINITY_BITS
}

/// Whether the bits are those of a finite number.
pub open spec fn finite(bits: u64) -> bool {
    magnitude(bits) < INFINITY_BITS
}

/// An integer that orders doubles as their values do; both zeros have rank zero.
pub open spec fn rank(bits: u64) -> int {
    if bits >= SIGN_BIT {
        -magnitude(bits)
    } else {
        magnitude(bits)
    }
}

/// `a < b` on doubles: false when either is not a number.
pub open spec fn less(a: u64, b: u64) -> bool {
    !nan(a) && !nan(b) && rank(a) < rank(b)
}

/// `a <= b` on doubles: false when either is not a number.
pub open spec fn at_most(a: u64, b: u64) -> bool {
    !nan(a) && !nan(b) && rank(a) <= rank(b)
}

/// `a == b` on doubles: false when either is not a number.
pub open spec fn equal(a: u64, b: u64) -> bool {
    !nan(a) && !nan(b) && rank(a) == rank(b)
}

pub fn is_nan(bits: u64) -> (r: bool)
    ensures
        r == nan(bits),
{
    if bits >= SIGN_BIT {
        bits - SIGN_BIT > INFINITY_BITS
    } else {
        bits > INFINITY_BITS
    }
}

pub fn is_finite(bits: u64) -> (r: bool)
    ensures
        r == finite(bits),
{
    if bits >= SIGN_BIT {
        bits - SIGN_BIT < INFINITY_BITS
    } else {
        bits < INFINITY_BITS
    }
}

/// The rank of a double.
pub fn rank_of(bits: u64) -> (r: i64)
    ensures
        r == rank(bits),
{
    if bits >= SIGN_BIT {
        -((bits - SIGN_BIT) as i64)
    } else {
        bits as i64
    }
}

pub fn is_less(a: u64, b: u64) -> (r: bool)
    ensures
        r == less(a, b),
{
    !is_nan(a) && !is_nan(b) && rank_of(a) < rank_of(b)
}

pub fn is_at_most(a: u64, b: u64) -> (r: bool)
    ensures
        r == at_most(a, b),
{
    !is_nan(a) && !is_nan(b) && rank_of(a) <= rank_of(b)
}

pub fn is_equal(a: u64, b: u64) -> (r: bool)
    ensures
        r == equal(a, b),
{
    !is_nan(a) && !is_nan(b) && rank_of(a) == rank_of(b)
}

/// A measured number and the texts that show it.
#[derive(Clone, Debug)]
pub struct Figure {
    /// The value as the bits of a double.
    pub bits: u64,
    /// The shortest decimal text.
    pub plain: String,
    /// No decimals.
    pub fixed0: String,
    /// One decimal.
    pub fixed1: String,
    /// Three decimals.
    pub fixed3: String,
    /// Four decimals.
    pub fixed4: String,
    /// Six decimals.
    pub fixed6: String,
    /// Scientific, two decimals.
    pub sci2: String,
    /// Scientific, three decimals.
    pub sci3: String,
    /// Scientific, four decimals.
    pub sci4: String,
    /// Scientific, six decimals.
    pub sci6: String,
    /// A JSON number, `null` where the value is not finite.
    pub json: String,
}

/// What a figure stands for.
pub struct FigureView {
    pub bits: u64,
    pub plain: Seq<char>,
    pub fixed0: Seq<char>,
    pub fixed1: Seq<char>,
    pub fixed3: Seq<char>,
    pub fixed4: Seq<char>,
    pub fixed6: Seq<char>,
    pub sci2: Seq<char>,
    pub sci3: Seq<char>,
    pub sci4: Seq<char>,
    pub sci6: Seq<char>,
    pub json: Seq<char>,
}

impl View for Figure {
    type V = FigureView;

    open spec fn view(&self) -> FigureView {
        FigureView {
            bits: self.bits,
            plain: self.plain@,
            fixed0: self.fixed0@,
            fixed1: self.fixed1@,
            fixed3: self.fixed3@,
            fixed4: self.fixed4@,
            fixed6: self.fixed6@,
            sci2: self.sci2@,
            sci3: self.sci3@,
            sci4: self.sci4@,
            sci6: self.sci6@,
            json: self.json@,
        }
    }
}

impl Figure {
    /// A copy of the figure.
    pub fn copy(&self) -> (r: Figure)
        ensures
            r@ == self@,
    {
        Figure {
            bits: self.bits,
            plain: copy_text(&self.plain),
            fixed0: copy_text(&self.fixed0),
            fixed1: copy_text(&self.fixed1),
            fixed3: copy_text(&self.fixed3),
            fixed4: copy_text(&self.fixed4),
            fixed6: copy_text(&self.fixed6),
            sci2: copy_text(&self.sci2),
            sci3: copy_text(&self.sci3),
            sci4: copy_text(&self.sci4),
            sci6: copy_text(&self.sci6),
            json: copy_text(&self.json),
        }
    }
}

/// The bits of a value that is not a number.
pub const NAN_BITS: u64 = 0x7ff8_0000_0000_0000;

impl Figure {
    /// A value that is not a number.
    pub open spec fn unmeasured() -> FigureView {
        FigureView {
            bits: NAN_BITS,
            plain: "NaN"@,
            fixed0: "NaN"@,
            fixed1: "NaN"@,
            fixed3: "NaN"@,
            fixed4: "NaN"@,
            fixed6: "NaN"@,
            sci2: "NaN"@,
            sci3: "NaN"@,
            sci4: "NaN"@,
            sci6: "NaN"@,
            json: "null"@,
        }
    }

    /// A value that is not a number.
    pub fn not_a_number() -> (r: Figure)
        ensures
            r@ == Figure::unmeasured(),
            nan(r.bits),
    {
        Figure {
            bits: NAN_BITS,
            plain: "NaN".to_owned(),
            fixed0: "NaN".to_owned(),
            fixed1: "NaN".to_owned(),
            fixed3: "NaN".to_owned(),
            fixed4: "NaN".to_owned(),
            fixed6: "NaN".to_owned(),
            sci2: "NaN".to_owned(),
            sci3: "NaN".to_owned(),
            sci4: "NaN".to_owned(),
            sci6: "NaN".to_owned(),
            json: "null".to_owned(),
        }
    }
}

/// How a table shows a time in milliseconds.
pub open spec fn ms_text(f: FigureView) -> Seq<char> {
    if nan(f.bits) {
        "n/a"@
    } else if less(f.bits, HUNDREDTH_BITS) {
        f.sci2
    } else {
        f.fixed4
    }
}

/// Shows a time in milliseconds: `n/a` when not measured, scientific below a hundredth, else four
/// decimals.
pub fn format_ms(f: &Figure) -> (r: String)
    ensures
        r@ == ms_text(f@),
{
    if is_nan(f.bits) {
        "n/a".to_owned()
    } else if is_less(f.bits, HUNDREDTH_BITS) {
        copy_text(&f.sci2)
    } else {
        copy_text(&f.fixed4)
    }
}

/// How a table shows an error.
pub open spec fn err_text(f: Option<FigureView>) -> Seq<char> {
    match f {
        Some(v) if !nan(v.bits) => v.sci2,
        _ => "—"@,
    }
}

/// The view of an optional figure.
pub open spec fn figure_view(f: Option<Figure>) -> Option<FigureView> {
    match f {
        Some(v) => Some(v@),
        None => None,
    }
}

/// Shows an error in scientific form, or a dash when there is none.
pub fn format_err(f: &Option<Figure>) -> (r: String)
    ensures
        r@ == err_text(figure_view(*f)),
{
    match f {
        Some(v) => if !is_nan(v.bits) {
            copy_text(&v.sci2)
        } else {
            "—".to_owned()
        },
        None => "—".to_owned(),
    }
}

/// Doubles that are numbers are totally ordered by their ranks.
pub proof fn numbers_are_ordered(a: u64, b: u64, c: u64)
    requires
        !nan(a),
        !nan(b),
        !nan(c),
    ensures
        less(a, b) || less(b, a) || equal(a, b),
        !(less(a, b) && less(b, a)),
        less(a, b) && less(b, c) ==> less(a, c),
        at_most(a, b) == !less(b, a),
{
}

} // verus!
