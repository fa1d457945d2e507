//! Lists of numbers on the command line: comma-separated values and power-of-two ranges.

use crate::arith::{power_of_two, power_of_two_halves};
use crate::order::{ascending, ascending_is_unique};
use crate::text::{
    chars_of, number_within, parse_usize, pieces, split_text, text_of, texts, trim_text, trimmed,
};
use vstd::arithmetic::power2::{lemma_pow2_strictly_increases, lemma_pow2_unfold, pow2};
use vstd::prelude::*;

verus! {

/// What is wrong with a list of numbers given for an option.
#[derive(Clone, Debug)]
pub enum ListError {
    /// An entry is no number.
    BadValue { label: String, part: String },
    /// The list holds no entry.
    NoValue { label: String },
    /// The range holds no power of two.
    NoPower { label: String, lo: usize, hi: usize },
}

/// The numbers of a list of entries: blank entries are skipped, and the first entry that is no
/// number ends the reading with that entry.
pub open spec fn listed(parts: Seq<Seq<char>>) -> Result<Seq<usize>, Seq<char>>
    decreases parts.len(),
{
    if parts.len() == 0 {
        Ok(Seq::empty())
    } else {
        let part = trimmed(parts.last());
        match listed(parts.drop_last()) {
            Err(e) => Err(e),
            Ok(v) => if part.len() == 0 {
                Ok(v)
            } else {
                match number_within(part, usize::MAX as nat) {
                    Some(n) => Ok(v.push(n as usize)),
                    None => Err(part),
                }
            },
        }
    }
}

/// What reading a comma-separated list for `label` gives.
pub open spec fn csv_outcome(
    s: Seq<char>,
    label: Seq<char>,
    r: Result<Vec<usize>, ListError>,
) -> bool {
    match listed(pieces(s, ',')) {
        Err(e) => r matches Err(ListError::BadValue { label: l, part }) && l@ == label && part@ == e,
        Ok(v) => if v.len() == 0 {
            r matches Err(ListError::NoValue { label: l }) && l@ == label
        } else {
            r matches Ok(out) && out@ == v
        },
    }
}

proof fn lemma_listed_stops(parts: Seq<Seq<char>>, i: int)
    requires
        0 <= i <= parts.len(),
        listed(parts.take(i)) is Err,
    ensures
        listed(parts) == listed(parts.take(i)),
    decreases parts.len() - i,
{
    if i == parts.len() {
        assert(parts.take(i) =~= parts);
    } else {
        assert(parts.take(i + 1).drop_last() =~= parts.take(i));
        lemma_listed_stops(parts, i + 1);
    }
}

/// Reads a comma-separated list of numbers; blank entries are skipped.
pub fn parse_csv_usize(s: &str, label: &str) -> (r: Result<Vec<usize>, ListError>)
    ensures
        csv_outcome(s@, label@, r),
{
    let parts = split_text(s, ',');
    let ghost all = texts(parts@);
    let mut out: Vec<usize> = Vec::new();
    let mut i: usize = 0;
    assert(all.take(0) =~= Seq::empty());
    while i < parts.len()
        invariant
            i <= parts.len(),
            all == texts(parts@),
            all == pieces(s@, ','),
            listed(all.take(i as int)) == Ok::<Seq<usize>, Seq<char>>(out@),
        decreases parts.len() - i,
    {
        let part = trim_text(parts[i].as_str());
        proof {
            assert(all.take(i + 1).drop_last() =~= all.take(i as int));
        }
        if part.as_str().is_empty() {
            i += 1;
            continue;
        }
        match parse_usize(part.as_str()) {
            Some(n) => {
                out.push(n);
            },
            None => {
                proof {
                    lemma_listed_stops(all, i + 1);
                }
                return Err(ListError::BadValue { label: label.to_owned(), part });
            },
        }
        i += 1;
    }
    assert(all.take(all.len() as int) =~= all);
    if out.len() == 0 {
        return Err(ListError::NoValue { label: label.to_owned() });
    }
    Ok(out)
}

// ---------------------------------------------------------------------------
// Ranges
// ---------------------------------------------------------------------------

/// Whether `pat` stands in `s` at position `i`.
pub open spec fn occurs_at(s: Seq<char>, pat: Seq<char>, i: int) -> bool {
    0 <= i && i + pat.len() <= s.len() && s.subrange(i, i + pat.len()) == pat
}

/// Whether `pat` first stands in `s` at position `i`.
pub open spec fn first_at(s: Seq<char>, pat: Seq<char>, i: int) -> bool {
    occurs_at(s, pat, i) && forall|j: int| 0 <= j < i ==> !occurs_at(s, pat, j)
}

/// The position at which `pat` first stands in `s`.
pub open spec fn first_place(s: Seq<char>, pat: Seq<char>) -> Option<int> {
    if exists|i: int| first_at(s, pat, i) {
        Some(choose|i: int| first_at(s, pat, i))
    } else {
        None
    }
}

/// The first position at which `pat` stands in `s`.
pub fn find_text(s: &Vec<char>, pat: &str) -> (r: Option<usize>)
    ensures
        match r {
            Some(i) => first_place(s@, pat@) == Some(i as int) && i + pat@.len() <= s@.len(),
            None => first_place(s@, pat@) is None,
        },
{
    let p = chars_of(pat);
    if p.len() > s.len() {
        return None;
    }
    let last: usize = s.len() - p.len();
    let mut i: usize = 0;
    loop
        invariant
            0 <= i <= last,
            last + p.len() == s.len(),
            p@ == pat@,
            forall|j: int| 0 <= j < i ==> !occurs_at(s@, pat@, j),
        decreases last - i,
    {
        let mut k: usize = 0;
        while k < p.len() && s[i + k] == p[k]
            invariant
                k <= p.len(),
                i + p.len() <= s.len(),
                forall|m: int| 0 <= m < k ==> s@[i + m] == p@[m],
            decreases p.len() - k,
        {
            k += 1;
        }
        if k == p.len() {
            assert(s@.subrange(i as int, i + p@.len()) =~= p@);
            assert(first_at(s@, pat@, i as int));
            proof {
                let c = choose|c: int| first_at(s@, pat@, c);
                assert(first_at(s@, pat@, c));
                assert(c == i);
            }
            return Some(i);
        }
        proof {
            if occurs_at(s@, pat@, i as int) {
                assert(s@.subrange(i as int, i + p@.len())[k as int] == p@[k as int]);
            }
        }
        if i == last {
            return None;
        }
        i += 1;
    }
}

/// The two numbers around the first `sep`, each with white space around it allowed.
pub open spec fn numbers_around(s: Seq<char>, sep: Seq<char>, at: int) -> Option<(usize, usize)> {
    let lo = number_within(trimmed(s.subrange(0, at)), usize::MAX as nat);
    let hi = number_within(trimmed(s.subrange(at + sep.len(), s.len() as int)), usize::MAX as nat);
    match (lo, hi) {
        (Some(a), Some(b)) => Some((a as usize, b as usize)),
        _ => None,
    }
}

/// The bounds of a range `a..=b`, `a..b` or `a-b`: the first of these separators that occurs
/// decides, and both sides have to be numbers.
pub open spec fn range_of(s: Seq<char>) -> Option<(usize, usize)> {
    match first_place(s, "..="@) {
        Some(i) => numbers_around(s, "..="@, i),
        None => match first_place(s, ".."@) {
            Some(i) => numbers_around(s, ".."@, i),
            None => match first_place(s, "-"@) {
                Some(i) => numbers_around(s, "-"@, i),
                None => None,
            },
        },
    }
}

fn parse_around(s: &Vec<char>, sep: &str, at: usize) -> (r: Option<(usize, usize)>)
    requires
        at + sep@.len() <= s@.len(),
    ensures
        r == numbers_around(s@, sep@, at as int),
{
    let n: usize = chars_of(sep).len();
    let len: usize = s.len();
    let lo = parse_usize(trim_text(text_of(s, 0, at).as_str()).as_str());
    let hi = parse_usize(trim_text(text_of(s, at + n, len).as_str()).as_str());
    match lo {
        Some(a) => match hi {
            Some(b) => Some((a, b)),
            None => None,
        },
        None => None,
    }
}

/// Reads a range of two numbers.
pub fn parse_usize_range(s: &str) -> (r: Option<(usize, usize)>)
    ensures
        r == range_of(s@),
{
    let chars = chars_of(s);
    match find_text(&chars, "..=") {
        Some(i) => parse_around(&chars, "..=", i),
        None => match find_text(&chars, "..") {
            Some(i) => parse_around(&chars, "..", i),
            None => match find_text(&chars, "-") {
                Some(i) => parse_around(&chars, "-", i),
                None => None,
            },
        },
    }
}

/// Whether `r` lists, in ascending order, exactly the powers of two in `lo..=hi`.
pub open spec fn powers_between(lo: usize, hi: usize, r: Seq<usize>) -> bool {
    &&& ascending::<usize>(r)
    &&& forall|b: usize| #[trigger]
        r.contains(b) <==> (power_of_two(b as nat) && lo <= b && b <= hi)
}

/// The powers of two in `lo..=hi`, in ascending order.
pub fn power_of_two_inclusive(lo: usize, hi: usize) -> (r: Vec<usize>)
    ensures
        powers_between(lo, hi, r@),
{
    let mut out: Vec<usize> = Vec::new();
    let mut b: usize = 1;
    proof {
        power_of_two_halves(1);
        vstd::arithmetic::power2::lemma2_to64();
        assert forall|x: usize| power_of_two(x as nat) && x < 1 implies false by {}
    }
    let ghost mut k: nat = 0;
    loop
        invariant_except_break
            b == pow2(k),
            b > 0,
            forall|i: int| 0 <= i < out.len() ==> (#[trigger] out@[i]) < b,
            forall|x: usize| #[trigger]
                out@.contains(x) <==> (power_of_two(x as nat) && lo <= x && x <= hi && x < b),
        invariant
            ascending::<usize>(out@),
        ensures
            forall|x: usize| #[trigger]
                out@.contains(x) <==> (power_of_two(x as nat) && lo <= x && x <= hi),
        decreases usize::MAX - b,
    {
        if b > hi {
            break ;
        }
        let ghost was = out@;
        if b >= lo {
            out.push(b);
        }
        proof {
            assert(power_of_two(b as nat));
            assert forall|x: usize| #[trigger]
                out@.contains(x) <==> (power_of_two(x as nat) && lo <= x && x <= hi && x <= b) by {
                if b >= lo {
                    assert(out@ == was.push(b));
                    if out@.contains(x) {
                        let i = choose|i: int| 0 <= i < out@.len() && out@[i] == x;
                        if i < was.len() {
                            assert(was[i] == x);
                            assert(was.contains(x));
                        }
                    }
                    if was.contains(x) {
                        let i = choose|i: int| 0 <= i < was.len() && was[i] == x;
                        assert(out@[i] == x);
                    }
                    if x == b {
                        assert(out@[was.len() as int] == x);
                    }
                }
            }
        }
        if b > usize::MAX / 2 {
            proof {
                assert forall|x: usize| power_of_two(x as nat) && x > b implies false by {
                    lemma_next_power(k, x as nat);
                }
            }
            break ;
        }
        proof {
            assert forall|x: usize| power_of_two(x as nat) && x < 2 * b implies x <= b by {
                if x > b {
                    lemma_next_power(k, x as nat);
                }
            }
            lemma_pow2_unfold(k + 1);
            k = k + 1;
        }
        b = b * 2;
    }
    out
}

proof fn lemma_next_power(k: nat, x: nat)
    requires
        power_of_two(x),
        x > pow2(k),
    ensures
        x >= 2 * pow2(k),
{
    let j = choose|j: nat| #[trigger] pow2(j) == x;
    if j <= k {
        if j < k {
            lemma_pow2_strictly_increases(j, k);
        }
    } else {
        lemma_pow2_unfold(k + 1);
        if k + 1 < j {
            lemma_pow2_strictly_increases(k + 1, j);
        }
    }
}

/// What reading a list of numbers or a power-of-two range for `label` gives.
pub open spec fn list_outcome(
    s: Seq<char>,
    label: Seq<char>,
    r: Result<Vec<usize>, ListError>,
) -> bool {
    match range_of(trimmed(s)) {
        Some((lo, hi)) => match r {
            Ok(out) => out@.len() > 0 && powers_between(lo, hi, out@),
            Err(e) => (e matches ListError::NoPower { label: l, lo: a, hi: b } && l@ == label && a
                == lo && b == hi) && powers_between(lo, hi, Seq::empty()),
        },
        None => csv_outcome(trimmed(s), label, r),
    }
}

/// Whether a text is a list of numbers or a range that holds a power of two.
pub open spec fn list_readable(s: Seq<char>) -> bool {
    match range_of(trimmed(s)) {
        Some((lo, hi)) => !powers_between(lo, hi, Seq::empty()),
        None => match listed(pieces(trimmed(s), ',')) {
            Ok(v) => v.len() > 0,
            Err(_) => false,
        },
    }
}

/// A reading succeeds exactly where the text is readable.
pub proof fn readable_lists_are_read(
    s: Seq<char>,
    label: Seq<char>,
    r: Result<Vec<usize>, ListError>,
)
    requires
        list_outcome(s, label, r),
    ensures
        r is Ok <==> list_readable(s),
{
    match range_of(trimmed(s)) {
        Some((lo, hi)) => {
            if let Ok(out) = r {
                if powers_between(lo, hi, Seq::empty()) {
                    powers_are_unique(lo, hi, out@, Seq::empty());
                }
            }
        },
        None => {},
    }
}

fn parse_usize_spec(s: &str, label: &str) -> (r: Result<Vec<usize>, ListError>)
    ensures
        list_outcome(s@, label@, r),
{
    let s = trim_text(s);
    if let Some((lo, hi)) = parse_usize_range(s.as_str()) {
        let batches = power_of_two_inclusive(lo, hi);
        if batches.len() == 0 {
            assert(batches@ =~= Seq::empty());
            return Err(ListError::NoPower { label: label.to_owned(), lo, hi });
        }
        return Ok(batches);
    }
    parse_csv_usize(s.as_str(), label)
}

/// Reads a batch list: comma-separated values, or a range of powers of two.
pub fn parse_batch_spec(s: &str, label: &str) -> (r: Result<Vec<usize>, ListError>)
    ensures
        list_outcome(s@, label@, r),
{
    parse_usize_spec(s, label)
}

/// Reads a list for top-K sweeps, in the grammar of batch lists.
pub fn parse_k_spec(s: &str, label: &str) -> (r: Result<Vec<usize>, ListError>)
    ensures
        list_outcome(s@, label@, r),
{
    parse_usize_spec(s, label)
}

/// A list that is read is never empty.
pub proof fn lists_are_not_empty(s: Seq<char>, label: Seq<char>, r: Result<Vec<usize>, ListError>)
    requires
        list_outcome(s, label, r),
        r is Ok,
    ensures
        r->Ok_0@.len() > 0,
{
}

/// The powers of two in a range are determined by the bounds alone.
pub proof fn powers_are_unique(lo: usize, hi: usize, a: Seq<usize>, b: Seq<usize>)
    requires
        powers_between(lo, hi, a),
        powers_between(lo, hi, b),
    ensures
        a == b,
{
    assert forall|x: usize| a.to_set().contains(x) == b.to_set().contains(x) by {
        assert(a.contains(x) == b.contains(x));
    }
    assert(a.to_set() =~= b.to_set());
    ascending_is_unique::<usize>(a, b);
}

} // verus!
