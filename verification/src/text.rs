//! Text as sequences of characters: comparing, trimming, splitting, joining, and decimal numbers.

use vstd::prelude::*;
use vstd::std_specs::iter::IteratorSpec;

verus! {

/// `String::push` appends one character.
pub assume_specification[ String::push ](s: &mut String, c: char)
    ensures
        final(s)@ == old(s)@.push(c),
;

/// `String::push_str` appends a whole text.
pub assume_specification[ String::push_str ](s: &mut String, t: &str)
    ensures
        final(s)@ == old(s)@ + t@,
;

/// The views of a list of strings.
pub open spec fn texts(v: Seq<String>) -> Seq<Seq<char>> {
    v.map_values(|s: String| s@)
}

/// Whether two texts hold the same characters.
pub fn same_text(a: &str, b: &str) -> (r: bool)
    ensures
        r == (a@ == b@),
{
    a.to_owned() == b.to_owned()
}

/// A copy of a string, known by its view.
pub fn copy_text(s: &String) -> (r: String)
    ensures
        r@ == s@,
{
    s.clone()
}

/// A copy of a list of strings.
pub fn copy_texts(v: &Vec<String>) -> (r: Vec<String>)
    ensures
        texts(r@) == texts(v@),
{
    let mut out: Vec<String> = Vec::new();
    let mut i: usize = 0;
    while i < v.len()
        invariant
            i <= v.len(),
            out.len() == i,
            forall|k: int| 0 <= k < i ==> (#[trigger] out@[k])@ == v@[k]@,
        decreases v.len() - i,
    {
        out.push(copy_text(&v[i]));
        i += 1;
    }
    assert(texts(out@) =~= texts(v@));
    out
}

/// The characters of a text, in order.
pub fn chars_of(s: &str) -> (r: Vec<char>)
    ensures
        r@ == s@,
{
    broadcast use vstd::string::group_string_axioms;

    let mut it = s.chars();
    let mut out: Vec<char> = Vec::new();
    let ghost mut left: nat = s@.len();
    loop
        invariant
            it.obeys_prophetic_iter_laws(),
            out@ + it.remaining() == s@,
            left == it.remaining().len(),
        decreases left,
    {
        let ghost before = it.remaining();
        match it.next() {
            Some(c) => {
                proof {
                    assert(before == seq![c] + it.remaining());
                    left = (left - 1) as nat;
                }
                out.push(c);
                assert(out@ + it.remaining() =~= s@);
            },
            None => {
                assert(out@ =~= s@);
                return out;
            },
        }
    }
}

/// The text made of `chars[from..to]`.
pub fn text_of(chars: &Vec<char>, from: usize, to: usize) -> (r: String)
    requires
        from <= to <= chars.len(),
    ensures
        r@ == chars@.subrange(from as int, to as int),
{
    let mut out = String::new();
    let mut i: usize = from;
    assert(out@ =~= chars@.subrange(from as int, from as int));
    while i < to
        invariant
            from <= i <= to <= chars.len(),
            out@ == chars@.subrange(from as int, i as int),
        decreases to - i,
    {
        out.push(chars[i]);
        assert(out@ =~= chars@.subrange(from as int, i + 1));
        i += 1;
    }
    out
}

// ---------------------------------------------------------------------------
// Case and white space
// ---------------------------------------------------------------------------

/// ASCII lower case of one character; every other character is left alone.
pub open spec fn lower_of(c: char) -> char {
    if 'A' <= c && c <= 'Z' {
        ((c as u8) + 32) as u8 as char
    } else {
        c
    }
}

/// ASCII lower case of a text.
pub open spec fn lower_text(s: Seq<char>) -> Seq<char> {
    s.map_values(|c: char| lower_of(c))
}

/// ASCII lower case, as `str::to_ascii_lowercase` gives it.
pub fn to_lower(s: &str) -> (r: String)
    ensures
        r@ == lower_text(s@),
{
    let chars = chars_of(s);
    let mut out = String::new();
    let mut i: usize = 0;
    assert(out@ =~= lower_text(chars@.take(0)));
    while i < chars.len()
        invariant
            i <= chars.len(),
            out@ == lower_text(chars@.take(i as int)),
        decreases chars.len() - i,
    {
        let c = chars[i];
        let l = if 'A' <= c && c <= 'Z' {
            ((c as u8) + 32) as char
        } else {
            c
        };
        out.push(l);
        assert(out@ =~= lower_text(chars@.take(i + 1)));
        i += 1;
    }
    assert(chars@.take(chars@.len() as int) =~= chars@);
    out
}

/// The characters with the Unicode property White_Space.
pub open spec fn white(c: char) -> bool {
    ||| '\u{9}' <= c <= '\u{d}'
    ||| c == ' '
    ||| c == '\u{85}'
    ||| c == '\u{a0}'
    ||| c == '\u{1680}'
    ||| '\u{2000}' <= c <= '\u{200a}'
    ||| c == '\u{2028}'
    ||| c == '\u{2029}'
    ||| c == '\u{202f}'
    ||| c == '\u{205f}'
    ||| c == '\u{3000}'
}

/// Whether a character is white space.
pub fn is_white(c: char) -> (r: bool)
    ensures
        r == white(c),
{
    ('\u{9}' <= c && c <= '\u{d}') || c == ' ' || c == '\u{85}' || c == '\u{a0}' || c == '\u{1680}'
        || ('\u{2000}' <= c && c <= '\u{200a}') || c == '\u{2028}' || c == '\u{2029}' || c
        == '\u{202f}' || c == '\u{205f}' || c == '\u{3000}'
}

/// A text without its leading white space.
pub open spec fn trimmed_start(s: Seq<char>) -> Seq<char>
    decreases s.len(),
{
    if s.len() > 0 && white(s[0]) {
        trimmed_start(s.drop_first())
    } else {
        s
    }
}

/// A text without its trailing white space.
pub open spec fn trimmed_end(s: Seq<char>) -> Seq<char>
    decreases s.len(),
{
    if s.len() > 0 && white(s.last()) {
        trimmed_end(s.drop_last())
    } else {
        s
    }
}

/// A text without the white space around it.
pub open spec fn trimmed(s: Seq<char>) -> Seq<char> {
    trimmed_end(trimmed_start(s))
}

/// The text without leading and trailing white space, as `str::trim` gives it.
pub fn trim_text(s: &str) -> (r: String)
    ensures
        r@ == trimmed(s@),
{
    let chars = chars_of(s);
    let mut a: usize = 0;
    assert(chars@.subrange(0, chars@.len() as int) =~= chars@);
    while a < chars.len() && is_white(chars[a])
        invariant
            a <= chars.len(),
            trimmed_start(chars@.subrange(a as int, chars@.len() as int)) == trimmed_start(chars@),
        decreases chars.len() - a,
    {
        assert(chars@.subrange(a as int, chars@.len() as int).drop_first() =~= chars@.subrange(
            a + 1,
            chars@.len() as int,
        ));
        a += 1;
    }
    let mut b: usize = chars.len();
    let ghost rest = chars@.subrange(a as int, chars@.len() as int);
    while b > a && is_white(chars[b - 1])
        invariant
            a <= b <= chars.len(),
            trimmed_end(chars@.subrange(a as int, b as int)) == trimmed_end(rest),
        decreases b,
    {
        assert(chars@.subrange(a as int, b as int).drop_last() =~= chars@.subrange(
            a as int,
            b - 1,
        ));
        b -= 1;
    }
    text_of(&chars, a, b)
}

/// Trimming takes nothing but white space from the two ends, and leaves none there.
pub proof fn trimmed_is_a_middle_part(s: Seq<char>)
    ensures
        exists|a: int, b: int|
            0 <= a <= b <= s.len() && trimmed(s) == #[trigger] s.subrange(a, b) && (forall|i: int|
                0 <= i < a || b <= i < s.len() ==> white(s[i])) && (a < b ==> !white(s[a])
                && !white(s[b - 1])),
{
    lemma_trimmed_start(s);
    let t = trimmed_start(s);
    let a = s.len() - t.len();
    lemma_trimmed_end(t);
    let b = a + trimmed_end(t).len();
    assert(s.subrange(a, b) =~= trimmed(s));
    assert forall|i: int| b <= i < s.len() implies white(s[i]) by {
        assert(s[i] == t[i - a]);
    }
    if a < b {
        assert(s[a] == t[0]);
        assert(s[b - 1] == t[b - 1 - a]);
    }
}

proof fn lemma_trimmed_start(s: Seq<char>)
    ensures
        trimmed_start(s).len() <= s.len(),
        trimmed_start(s) == s.subrange(s.len() - trimmed_start(s).len(), s.len() as int),
        forall|i: int| 0 <= i < s.len() - trimmed_start(s).len() ==> white(s[i]),
        trimmed_start(s).len() > 0 ==> !white(trimmed_start(s)[0]),
    decreases s.len(),
{
    if s.len() > 0 && white(s[0]) {
        let d = s.drop_first();
        lemma_trimmed_start(d);
        assert forall|i: int| 0 <= i < s.len() - trimmed_start(s).len() implies white(s[i]) by {
            if i > 0 {
                assert(s[i] == d[i - 1]);
            }
        }
        assert(trimmed_start(s) =~= s.subrange(s.len() - trimmed_start(s).len(), s.len() as int));
    } else {
        assert(s =~= s.subrange(0, s.len() as int));
    }
}

proof fn lemma_trimmed_end(s: Seq<char>)
    ensures
        trimmed_end(s).len() <= s.len(),
        trimmed_end(s) == s.subrange(0, trimmed_end(s).len() as int),
        forall|i: int| trimmed_end(s).len() <= i < s.len() ==> white(s[i]),
        trimmed_end(s).len() > 0 ==> !white(trimmed_end(s).last()),
    decreases s.len(),
{
    if s.len() > 0 && white(s.last()) {
        let d = s.drop_last();
        lemma_trimmed_end(d);
        assert forall|i: int| trimmed_end(s).len() <= i < s.len() implies white(s[i]) by {
            if i < d.len() {
                assert(s[i] == d[i]);
            }
        }
        assert(trimmed_end(s) =~= s.subrange(0, trimmed_end(s).len() as int));
    } else {
        assert(s =~= s.subrange(0, s.len() as int));
    }
}

// ---------------------------------------------------------------------------
// Splitting and joining
// ---------------------------------------------------------------------------

/// The pieces of a text between the occurrences of `sep`: a separator ends the current piece and
/// starts the next, every other character belongs to the current piece.
pub open spec fn pieces(s: Seq<char>, sep: char) -> Seq<Seq<char>>
    decreases s.len(),
{
    if s.len() == 0 {
        seq![Seq::<char>::empty()]
    } else {
        let before = pieces(s.drop_last(), sep);
        if s.last() == sep {
            before.push(Seq::<char>::empty())
        } else {
            before.drop_last().push(before.last().push(s.last()))
        }
    }
}

/// The texts of `parts` with `sep` between neighbours.
pub open spec fn joined(parts: Seq<Seq<char>>, sep: Seq<char>) -> Seq<char>
    decreases parts.len(),
{
    if parts.len() == 0 {
        Seq::empty()
    } else if parts.len() == 1 {
        parts[0]
    } else {
        joined(parts.drop_last(), sep) + sep + parts.last()
    }
}

/// The texts of `parts`, one after the other.
pub open spec fn concat(parts: Seq<Seq<char>>) -> Seq<char>
    decreases parts.len(),
{
    if parts.len() == 0 {
        Seq::empty()
    } else {
        concat(parts.drop_last()) + parts.last()
    }
}

/// Splits a text at every `sep`, as `str::split` does.
pub fn split_text(s: &str, sep: char) -> (r: Vec<String>)
    ensures
        texts(r@) == pieces(s@, sep),
{
    let chars = chars_of(s);
    let mut out: Vec<String> = Vec::new();
    let mut cur = String::new();
    let mut i: usize = 0;
    assert(texts(out@).push(cur@) =~= pieces(chars@.take(0), sep));
    while i < chars.len()
        invariant
            i <= chars.len(),
            texts(out@).push(cur@) == pieces(chars@.take(i as int), sep),
        decreases chars.len() - i,
    {
        let c = chars[i];
        let ghost before = texts(out@).push(cur@);
        assert(chars@.take(i + 1).drop_last() =~= chars@.take(i as int));
        if c == sep {
            out.push(cur);
            cur = String::new();
            assert(texts(out@) =~= before);
            assert(texts(out@).push(cur@) =~= pieces(chars@.take(i + 1), sep));
        } else {
            cur.push(c);
            assert(before.drop_last() =~= texts(out@));
            assert(texts(out@).push(cur@) =~= pieces(chars@.take(i + 1), sep));
        }
        i += 1;
    }
    assert(chars@.take(chars@.len() as int) =~= chars@);
    let ghost done = texts(out@).push(cur@);
    out.push(cur);
    assert(texts(out@) =~= done);
    out
}

/// Joins texts with a separator, as `[String]::join` does.
pub fn join_texts(parts: &Vec<String>, sep: &str) -> (r: String)
    ensures
        r@ == joined(texts(parts@), sep@),
{
    let mut out = String::new();
    let mut i: usize = 0;
    while i < parts.len()
        invariant
            i <= parts.len(),
            out@ == joined(texts(parts@.take(i as int)), sep@),
        decreases parts.len() - i,
    {
        if i > 0 {
            out.push_str(sep);
        }
        out.push_str(parts[i].as_str());
        proof {
            let now = texts(parts@.take(i + 1));
            assert(now.drop_last() =~= texts(parts@.take(i as int)));
            assert(now.last() == parts@[i as int]@);
            if i == 0 {
                assert(out@ =~= now[0]);
            }
        }
        i += 1;
    }
    assert(parts@.take(parts@.len() as int) =~= parts@);
    out
}

/// A text is its pieces joined again by the separator.
pub proof fn split_then_join(s: Seq<char>, sep: char)
    ensures
        pieces(s, sep).len() > 0,
        joined(pieces(s, sep), seq![sep]) == s,
    decreases s.len(),
{
    if s.len() == 0 {
        assert(joined(pieces(s, sep), seq![sep]) =~= s);
    } else {
        let d = s.drop_last();
        split_then_join(d, sep);
        let before = pieces(d, sep);
        let now = pieces(s, sep);
        if s.last() == sep {
            assert(now.drop_last() =~= before);
            assert(joined(now, seq![sep]) =~= s);
        } else {
            assert(now.drop_last() =~= before.drop_last());
            assert(now.len() == before.len());
            assert(now.last() == before.last().push(s.last()));
            assert(joined(now, seq![sep]) =~= joined(before, seq![sep]).push(s.last()));
            assert(d.push(s.last()) =~= s);
        }
    }
}

/// No piece of a split text holds the separator.
pub proof fn pieces_hold_no_separator(s: Seq<char>, sep: char)
    ensures
        pieces(s, sep).len() > 0,
        forall|i: int| 0 <= i < pieces(s, sep).len() ==> !(#[trigger] pieces(s, sep)[i]).contains(
            sep,
        ),
    decreases s.len(),
{
    if s.len() > 0 {
        let d = s.drop_last();
        pieces_hold_no_separator(d, sep);
        let before = pieces(d, sep);
        let now = pieces(s, sep);
        assert forall|i: int| 0 <= i < now.len() implies !(#[trigger] now[i]).contains(sep) by {
            if i < now.len() - 1 {
                assert(now[i] == before[i]);
            } else if s.last() != sep {
                let cell = now[i];
                if cell.contains(sep) {
                    let k = choose|k: int| 0 <= k < cell.len() && cell[k] == sep;
                    assert(before.last()[k] == sep);
                    assert(before[before.len() - 1].contains(sep));
                }
            }
        }
    }
}

/// Text without a separator, put behind another text, extends its last piece.
pub proof fn pieces_append(head: Seq<char>, l: Seq<char>, sep: char)
    requires
        !l.contains(sep),
    ensures
        pieces(head, sep).len() > 0,
        pieces(head + l, sep) == pieces(head, sep).drop_last().push(pieces(head, sep).last() + l),
    decreases l.len(),
{
    split_then_join(head, sep);
    let p = pieces(head, sep);
    if l.len() == 0 {
        assert(head + l =~= head);
        assert(p.last() + l =~= p.last());
        assert(p.drop_last().push(p.last()) =~= p);
    } else {
        let d = l.drop_last();
        assert(!d.contains(sep)) by {
            if d.contains(sep) {
                let k = choose|k: int| 0 <= k < d.len() && d[k] == sep;
                assert(l[k] == sep);
            }
        }
        pieces_append(head, d, sep);
        assert((head + l).drop_last() =~= head + d);
        assert(l.last() != sep) by {
            assert(l[l.len() - 1] == l.last());
        }
        let q = pieces(head + d, sep);
        assert(q.drop_last() =~= p.drop_last());
        assert(q.last().push(l.last()) =~= p.last() + l);
        assert(pieces(head + l, sep) =~= p.drop_last().push(p.last() + l));
    }
}

/// Texts that do not hold the separator, joined by it, split into the same texts.
pub proof fn join_then_split(parts: Seq<Seq<char>>, sep: char)
    requires
        parts.len() > 0,
        forall|i: int| 0 <= i < parts.len() ==> !(#[trigger] parts[i]).contains(sep),
    ensures
        pieces(joined(parts, seq![sep]), sep) == parts,
    decreases parts.len(),
{
    let l = parts.last();
    assert(!parts[parts.len() - 1].contains(sep));
    if parts.len() == 1 {
        pieces_append(Seq::empty(), l, sep);
        assert(Seq::<char>::empty() + l =~= l);
        assert(pieces(l, sep) =~= parts);
    } else {
        let d = parts.drop_last();
        assert forall|i: int| 0 <= i < d.len() implies !(#[trigger] d[i]).contains(sep) by {
            assert(d[i] == parts[i]);
        }
        join_then_split(d, sep);
        let head = joined(d, seq![sep]).push(sep);
        assert(head.drop_last() =~= joined(d, seq![sep]));
        assert(pieces(head, sep) == d.push(Seq::empty()));
        pieces_append(head, l, sep);
        assert(joined(parts, seq![sep]) =~= head + l);
        assert(d.push(Seq::<char>::empty()).drop_last() =~= d);
        assert(Seq::<char>::empty() + l =~= l);
        assert(pieces(joined(parts, seq![sep]), sep) =~= parts);
    }
}

// ---------------------------------------------------------------------------
// Decimal numbers
// ---------------------------------------------------------------------------

/// Whether a character is a decimal digit.
pub open spec fn digit(c: char) -> bool {
    '0' <= c && c <= '9'
}

/// The value of a decimal digit.
pub open spec fn digit_value(c: char) -> nat {
    (c as u32 - '0' as u32) as nat
}

/// The value of a run of decimal digits.
pub open spec fn digits_value(s: Seq<char>) -> nat
    decreases s.len(),
{
    if s.len() == 0 {
        0
    } else {
        digits_value(s.drop_last()) * 10 + digit_value(s.last())
    }
}

/// Whether a text holds digits only.
pub open spec fn all_digits(s: Seq<char>) -> bool {
    forall|i: int| 0 <= i < s.len() ==> digit(#[trigger] s[i])
}

/// The number that a text writes: an optional plus sign and at least one digit, nothing else.
pub open spec fn number_of(s: Seq<char>) -> Option<nat> {
    let d = if s.len() > 0 && s[0] == '+' {
        s.subrange(1, s.len() as int)
    } else {
        s
    };
    if d.len() > 0 && all_digits(d) {
        Some(digits_value(d))
    } else {
        None
    }
}

/// The number that a text writes, when it is at most `max`.
pub open spec fn number_within(s: Seq<char>, max: nat) -> Option<nat> {
    match number_of(s) {
        Some(v) => if v <= max {
            Some(v)
        } else {
            None
        },
        None => None,
    }
}

proof fn lemma_digits_value_grows(s: Seq<char>, n: int)
    requires
        0 <= n <= s.len(),
    ensures
        digits_value(s.take(n)) <= digits_value(s),
    decreases s.len(),
{
    if n == s.len() {
        assert(s.take(n) =~= s);
    } else {
        lemma_digits_value_grows(s.drop_last(), n);
        assert(s.drop_last().take(n) =~= s.take(n));
    }
}

/// Parses an unsigned number of at most `max`.
pub fn parse_number(s: &str, max: u64) -> (r: Option<u64>)
    ensures
        match r {
            Some(v) => number_within(s@, max as nat) == Some(v as nat),
            None => number_within(s@, max as nat) is None,
        },
{
    let chars = chars_of(s);
    let start: usize = if chars.len() > 0 && chars[0] == '+' {
        1
    } else {
        0
    };
    let ghost d = chars@.subrange(start as int, chars@.len() as int);
    proof {
        if start == 0 {
            assert(d =~= chars@);
        }
    }
    if start == chars.len() {
        return None;
    }
    let mut value: u64 = 0;
    let mut i: usize = start;
    assert(d.take(0) =~= Seq::<char>::empty());
    while i < chars.len()
        invariant
            start <= i <= chars.len(),
            d == chars@.subrange(start as int, chars@.len() as int),
            d.len() > 0,
            number_within(s@, max as nat) == (if all_digits(d) {
                if digits_value(d) <= max {
                    Some(digits_value(d))
                } else {
                    None
                }
            } else {
                None::<nat>
            }),
            all_digits(d.take(i - start)),
            value == digits_value(d.take(i - start)),
            value <= max,
        decreases chars.len() - i,
    {
        let c = chars[i];
        assert(c == d[i - start]);
        if !('0' <= c && c <= '9') {
            return None;
        }
        let v: u64 = (c as u32 - '0' as u32) as u64;
        proof {
            assert(d.take(i - start + 1).drop_last() =~= d.take(i - start));
            assert(digits_value(d.take(i - start + 1)) == value * 10 + v);
            lemma_digits_value_grows(d, i - start + 1);
            assert forall|k: int| 0 <= k < i - start + 1 implies digit(
                #[trigger] d.take(i - start + 1)[k],
            ) by {
                if k < i - start {
                    assert(digit(d.take(i - start)[k]));
                }
            }
        }
        if v > max || value > (max - v) / 10 {
            return None;
        }
        value = value * 10 + v;
        i += 1;
    }
    assert(d.take(d.len() as int) =~= d);
    Some(value)
}

/// Parses a `usize`, as `str::parse` does.
pub fn parse_usize(s: &str) -> (r: Option<usize>)
    ensures
        match r {
            Some(v) => number_within(s@, usize::MAX as nat) == Some(v as nat),
            None => number_within(s@, usize::MAX as nat) is None,
        },
{
    match parse_number(s, usize::MAX as u64) {
        Some(v) => Some(v as usize),
        None => None,
    }
}

/// Parses a `u64`, as `str::parse` does.
pub fn parse_u64(s: &str) -> (r: Option<u64>)
    ensures
        match r {
            Some(v) => number_within(s@, u64::MAX as nat) == Some(v as nat),
            None => number_within(s@, u64::MAX as nat) is None,
        },
{
    parse_number(s, u64::MAX)
}

/// The digit that writes a value below ten.
pub open spec fn digit_char(d: nat) -> char {
    if d == 0 {
        '0'
    } else if d == 1 {
        '1'
    } else if d == 2 {
        '2'
    } else if d == 3 {
        '3'
    } else if d == 4 {
        '4'
    } else if d == 5 {
        '5'
    } else if d == 6 {
        '6'
    } else if d == 7 {
        '7'
    } else if d == 8 {
        '8'
    } else {
        '9'
    }
}

/// The decimal text of a number, without leading zeros.
pub open spec fn decimal(n: nat) -> Seq<char>
    decreases n,
{
    if n < 10 {
        seq![digit_char(n)]
    } else {
        decimal(n / 10).push(digit_char(n % 10))
    }
}

/// The decimal text of a number, as its `to_string` gives it.
pub fn decimal_text(n: u64) -> (r: String)
    ensures
        r@ == decimal(n as nat),
    decreases n,
{
    let d: u64 = n % 10;
    let c = if d == 0 {
        '0'
    } else if d == 1 {
        '1'
    } else if d == 2 {
        '2'
    } else if d == 3 {
        '3'
    } else if d == 4 {
        '4'
    } else if d == 5 {
        '5'
    } else if d == 6 {
        '6'
    } else if d == 7 {
        '7'
    } else if d == 8 {
        '8'
    } else {
        '9'
    };
    let mut out = if n < 10 {
        String::new()
    } else {
        decimal_text(n / 10)
    };
    out.push(c);
    assert(out@ =~= decimal(n as nat));
    out
}

/// The decimal text of a `usize`.
pub fn usize_text(n: usize) -> (r: String)
    ensures
        r@ == decimal(n as nat),
{
    decimal_text(n as u64)
}

/// Reading back the decimal text of a number gives the number.
pub proof fn decimal_reads_back(n: nat, max: nat)
    requires
        n <= max,
    ensures
        number_within(decimal(n), max) == Some(n),
{
    lemma_decimal(n);
    assert(decimal(n).subrange(0, decimal(n).len() as int) =~= decimal(n));
}

/// A decimal text holds digits only, at least one.
pub proof fn lemma_decimal(n: nat)
    ensures
        decimal(n).len() > 0,
        all_digits(decimal(n)),
        digits_value(decimal(n)) == n,
    decreases n,
{
    if n >= 10 {
        lemma_decimal(n / 10);
        assert(decimal(n).drop_last() =~= decimal(n / 10));
        assert forall|i: int| 0 <= i < decimal(n).len() implies digit(#[trigger] decimal(n)[i]) by {
            if i < decimal(n / 10).len() {
                assert(decimal(n)[i] == decimal(n / 10)[i]);
            }
        }
    } else {
        assert(decimal(n).drop_last() =~= Seq::<char>::empty());
        reveal_with_fuel(digits_value, 2);
    }
}

// ---------------------------------------------------------------------------
// Padding
// ---------------------------------------------------------------------------

/// Some blanks.
pub open spec fn blanks(n: nat) -> Seq<char> {
    Seq::new(n, |i: int| ' ')
}

/// A text moved to the right end of a field; a longer text stays as it is.
pub open spec fn right_aligned(s: Seq<char>, width: nat) -> Seq<char> {
    blanks(if s.len() < width {
        (width - s.len()) as nat
    } else {
        0
    }) + s
}

/// A text at the left end of a field; a longer text stays as it is.
pub open spec fn left_aligned(s: Seq<char>, width: nat) -> Seq<char> {
    s + blanks(if s.len() < width {
        (width - s.len()) as nat
    } else {
        0
    })
}

fn push_blanks(out: &mut String, taken: usize, width: usize)
    ensures
        final(out)@ == old(out)@ + blanks(if taken < width {
            (width - taken) as nat
        } else {
            0
        }),
{
    let ghost start = out@;
    let mut i: usize = taken;
    assert(out@ =~= start + blanks(0));
    while i < width
        invariant
            out@ == start + blanks((i - taken) as nat),
            taken <= i,
            i <= width || i == taken,
        decreases width - i,
    {
        out.push(' ');
        assert(out@ =~= start + blanks((i + 1 - taken) as nat));
        i += 1;
    }
}

/// Moves a text to the right end of a field.
pub fn align_right(s: &str, width: usize) -> (r: String)
    ensures
        r@ == right_aligned(s@, width as nat),
{
    let chars = chars_of(s);
    let mut out = String::new();
    push_blanks(&mut out, chars.len(), width);
    out.push_str(s);
    assert(out@ =~= right_aligned(s@, width as nat));
    out
}

/// Puts a text at the left end of a field.
pub fn align_left(s: &str, width: usize) -> (r: String)
    ensures
        r@ == left_aligned(s@, width as nat),
{
    let chars = chars_of(s);
    let mut out = s.to_owned();
    push_blanks(&mut out, chars.len(), width);
    out
}

} // verus!
