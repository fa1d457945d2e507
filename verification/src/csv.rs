//! Comma-separated values: escaping one field, splitting one line, and the lines of a file.

use crate::text::{chars_of, joined, pieces, split_text, text_of, texts};
use vstd::prelude::*;

verus! {

/// The characters that make a field be quoted.
pub open spec fn special(c: char) -> bool {
    c == '"' || c == ',' || c == '\n' || c == '\r'
}

/// Whether a field can stand in a line as it is.
pub open spec fn bare(s: Seq<char>) -> bool {
    forall|i: int| 0 <= i < s.len() ==> !special(#[trigger] s[i])
}

/// A text with every quotation mark written twice.
pub open spec fn doubled(s: Seq<char>) -> Seq<char>
    decreases s.len(),
{
    if s.len() == 0 {
        Seq::empty()
    } else if s.last() == '"' {
        doubled(s.drop_last()).push('"').push('"')
    } else {
        doubled(s.drop_last()).push(s.last())
    }
}

/// How a field is written: as it is, or between quotation marks with those inside doubled.
pub open spec fn escaped(s: Seq<char>) -> Seq<char> {
    if bare(s) {
        s
    } else {
        seq!['"'] + doubled(s) + seq!['"']
    }
}

/// Writes one field.
pub fn csv_escape(s: &str) -> (r: String)
    ensures
        r@ == escaped(s@),
{
    let chars = chars_of(s);
    let mut quote = false;
    let mut i: usize = 0;
    while i < chars.len()
        invariant
            i <= chars.len(),
            quote == !bare(chars@.take(i as int)),
        decreases chars.len() - i,
    {
        let c = chars[i];
        proof {
            let now = chars@.take(i + 1);
            assert(forall|k: int| 0 <= k < i ==> now[k] == chars@.take(i as int)[k]);
            assert(now[i as int] == c);
            if quote {
                let k = choose|k: int| 0 <= k < i && special(#[trigger] chars@.take(i as int)[k]);
                assert(special(now[k]));
            }
        }
        if c == '"' || c == ',' || c == '\n' || c == '\r' {
            quote = true;
        }
        i += 1;
    }
    assert(chars@.take(chars@.len() as int) =~= chars@);
    if !quote {
        return s.to_owned();
    }
    let mut out = String::new();
    out.push('"');
    let mut k: usize = 0;
    assert(out@ =~= seq!['"'] + doubled(chars@.take(0)));
    while k < chars.len()
        invariant
            k <= chars.len(),
            out@ == seq!['"'] + doubled(chars@.take(k as int)),
        decreases chars.len() - k,
    {
        let c = chars[k];
        assert(chars@.take(k + 1).drop_last() =~= chars@.take(k as int));
        out.push(c);
        if c == '"' {
            out.push(c);
        }
        assert(out@ =~= seq!['"'] + doubled(chars@.take(k + 1)));
        k += 1;
    }
    out.push('"');
    assert(out@ =~= escaped(s@));
    out
}

/// Where a reader of a line stands between two characters.
#[derive(Debug, Clone, Copy, PartialEq, Eq, Structural)]
pub enum Place {
    /// Outside quotation marks.
    Plain,
    /// Inside quotation marks.
    Quoted,
    /// After a quotation mark inside quotation marks: it closes them, unless another follows.
    Closing,
}

/// What a reader of a line has read.
pub struct Scan {
    pub fields: Seq<Seq<char>>,
    pub field: Seq<char>,
    pub place: Place,
}

/// Reads one more character.
pub open spec fn scan_char(s: Scan, c: char) -> Scan {
    if s.place is Quoted {
        if c == '"' {
            Scan { place: Place::Closing, ..s }
        } else {
            Scan { field: s.field.push(c), ..s }
        }
    } else if s.place is Closing && c == '"' {
        Scan { field: s.field.push('"'), place: Place::Quoted, ..s }
    } else if c == '"' {
        Scan { place: Place::Quoted, ..s }
    } else if c == ',' {
        Scan { fields: s.fields.push(s.field), field: Seq::empty(), place: Place::Plain }
    } else {
        Scan { field: s.field.push(c), place: Place::Plain, ..s }
    }
}

/// Reads a text, character by character.
pub open spec fn scan_text(s: Scan, t: Seq<char>) -> Scan
    decreases t.len(),
{
    if t.len() == 0 {
        s
    } else {
        scan_char(scan_text(s, t.drop_last()), t.last())
    }
}

/// The reader before a line.
pub open spec fn scan_start() -> Scan {
    Scan { fields: Seq::empty(), field: Seq::empty(), place: Place::Plain }
}

/// The fields of a line.
pub open spec fn fields_of(line: Seq<char>) -> Seq<Seq<char>> {
    let end = scan_text(scan_start(), line);
    end.fields.push(end.field)
}

/// Splits a line into its fields.
pub fn split_csv_line(line: &str) -> (r: Vec<String>)
    ensures
        texts(r@) == fields_of(line@),
{
    let chars = chars_of(line);
    let mut fields: Vec<String> = Vec::new();
    let mut field = String::new();
    let mut place = Place::Plain;
    let mut i: usize = 0;
    assert(texts(fields@) =~= Seq::<Seq<char>>::empty());
    while i < chars.len()
        invariant
            i <= chars.len(),
            scan_text(scan_start(), chars@.take(i as int)) == (Scan {
                fields: texts(fields@),
                field: field@,
                place,
            }),
        decreases chars.len() - i,
    {
        let c = chars[i];
        assert(chars@.take(i + 1).drop_last() =~= chars@.take(i as int));
        let ghost was = texts(fields@);
        match place {
            Place::Quoted => {
                if c == '"' {
                    place = Place::Closing;
                } else {
                    field.push(c);
                }
            },
            _ => {
                if c == '"' && matches!(place, Place::Closing) {
                    field.push('"');
                    place = Place::Quoted;
                } else if c == '"' {
                    place = Place::Quoted;
                } else if c == ',' {
                    let ghost f = field@;
                    fields.push(field);
                    field = String::new();
                    place = Place::Plain;
                    assert(texts(fields@) =~= was.push(f));
                } else {
                    field.push(c);
                    place = Place::Plain;
                }
            },
        }
        i += 1;
    }
    assert(chars@.take(chars@.len() as int) =~= chars@);
    let ghost was = texts(fields@);
    let ghost f = field@;
    fields.push(field);
    assert(texts(fields@) =~= was.push(f));
    fields
}

proof fn lemma_scan_two(s: Scan, a: Seq<char>, b: Seq<char>)
    ensures
        scan_text(s, a + b) == scan_text(scan_text(s, a), b),
    decreases b.len(),
{
    if b.len() == 0 {
        assert(a + b =~= a);
    } else {
        lemma_scan_two(s, a, b.drop_last());
        assert((a + b).drop_last() =~= a + b.drop_last());
    }
}

proof fn lemma_scan_bare(s: Scan, t: Seq<char>)
    requires
        bare(t),
        s.place is Plain,
    ensures
        scan_text(s, t) == (Scan { field: s.field + t, ..s }),
    decreases t.len(),
{
    if t.len() == 0 {
        assert(s.field + t =~= s.field);
    } else {
        let d = t.drop_last();
        assert forall|i: int| 0 <= i < d.len() implies !special(#[trigger] d[i]) by {
            assert(d[i] == t[i]);
        }
        lemma_scan_bare(s, d);
        assert(!special(t[t.len() - 1]));
        assert((s.field + d).push(t.last()) =~= s.field + t);
    }
}

proof fn lemma_scan_doubled(s: Scan, t: Seq<char>)
    requires
        s.place is Quoted,
    ensures
        scan_text(s, doubled(t)) == (Scan { field: s.field + t, ..s }),
    decreases t.len(),
{
    if t.len() == 0 {
        assert(s.field + t =~= s.field);
    } else {
        let d = doubled(t.drop_last());
        lemma_scan_doubled(s, t.drop_last());
        assert((s.field + t.drop_last()).push(t.last()) =~= s.field + t);
        if t.last() == '"' {
            assert(doubled(t).drop_last() =~= d.push('"'));
            assert(d.push('"').drop_last() =~= d);
            assert(scan_text(s, d.push('"')) == scan_char(scan_text(s, d), '"'));
            assert(scan_text(s, doubled(t)) == scan_char(scan_text(s, d.push('"')), '"'));
        } else {
            assert(doubled(t).drop_last() =~= d);
        }
    }
}

/// Reading a written field, from the start of a field, reads the field.
proof fn lemma_scan_escaped(s: Scan, t: Seq<char>)
    requires
        s.place is Plain,
        s.field.len() == 0,
    ensures
        ({
            let e = scan_text(s, escaped(t));
            e.fields == s.fields && e.field == t && !(e.place is Quoted)
        }),
{
    assert(s.field + t =~= t);
    if bare(t) {
        lemma_scan_bare(s, t);
    } else {
        let q = seq!['"'];
        lemma_scan_two(s, q, doubled(t));
        lemma_scan_two(s, q + doubled(t), q);
        assert(q.drop_last() =~= Seq::empty());
        let s1 = scan_text(s, q);
        assert(scan_text(s, q.drop_last()) == s);
        assert(s1 == scan_char(s, '"'));
        lemma_scan_doubled(s1, t);
        let s2 = scan_text(s, q + doubled(t));
        assert(scan_text(s2, q.drop_last()) == s2);
        assert(scan_text(s2, q) == scan_char(s2, '"'));
    }
}

/// A line made of written fields splits into exactly these fields.
pub proof fn written_fields_read_back(fields: Seq<Seq<char>>)
    requires
        fields.len() > 0,
    ensures
        fields_of(joined(fields.map_values(|f: Seq<char>| escaped(f)), seq![','])) == fields,
{
    lemma_fields_read_back(fields);
    let e = scan_text(
        scan_start(),
        joined(fields.map_values(|f: Seq<char>| escaped(f)), seq![',']),
    );
    assert(e.fields.push(e.field) =~= fields);
}

proof fn lemma_fields_read_back(fields: Seq<Seq<char>>)
    requires
        fields.len() > 0,
    ensures
        ({
            let e = scan_text(
                scan_start(),
                joined(fields.map_values(|f: Seq<char>| escaped(f)), seq![',']),
            );
            e.fields == fields.drop_last() && e.field == fields.last() && !(e.place is Quoted)
        }),
    decreases fields.len(),
{
    let m = fields.map_values(|f: Seq<char>| escaped(f));
    if fields.len() == 1 {
        lemma_scan_escaped(scan_start(), fields[0]);
        assert(joined(m, seq![',']) == escaped(fields[0]));
        assert(fields.drop_last() =~= Seq::empty());
    } else {
        let d = fields.drop_last();
        lemma_fields_read_back(d);
        let md = d.map_values(|f: Seq<char>| escaped(f));
        assert(m.drop_last() =~= md);
        let head = joined(md, seq![',']);
        let s0 = scan_text(scan_start(), head);
        let c = seq![','];
        lemma_scan_two(scan_start(), head, c);
        assert(c.drop_last() =~= Seq::empty());
        assert(scan_text(s0, c.drop_last()) == s0);
        let s1 = scan_text(s0, c);
        assert(s1 == scan_char(s0, ','));
        assert(s1.fields =~= d);
        lemma_scan_two(scan_start(), head + c, escaped(fields.last()));
        lemma_scan_escaped(s1, fields.last());
        assert(joined(m, c) == head + c + escaped(fields.last()));
    }
}

// ---------------------------------------------------------------------------
// Lines
// ---------------------------------------------------------------------------

/// A line without the carriage return before its line feed.
pub open spec fn without_return(s: Seq<char>) -> Seq<char> {
    if s.len() > 0 && s.last() == '\r' {
        s.drop_last()
    } else {
        s
    }
}

/// The lines of a text: what ends in a line feed or a carriage return and a line feed, and what
/// follows the last line feed unless it is empty.
pub open spec fn lines_of(s: Seq<char>) -> Seq<Seq<char>> {
    let p = pieces(s, '\n');
    let full = p.drop_last().map_values(|l: Seq<char>| without_return(l));
    if p.last().len() == 0 {
        full
    } else {
        full.push(p.last())
    }
}

/// The lines of a text, as `str::lines` gives them.
pub fn split_lines(s: &str) -> (r: Vec<String>)
    ensures
        texts(r@) == lines_of(s@),
{
    let mut parts = split_text(s, '\n');
    let ghost p = pieces(s@, '\n');
    proof {
        crate::text::split_then_join(s@, '\n');
    }
    let last = parts.pop().unwrap();
    assert(last@ == p.last());
    assert(texts(parts@) =~= p.drop_last());
    let mut out: Vec<String> = Vec::new();
    let mut i: usize = 0;
    while i < parts.len()
        invariant
            i <= parts.len(),
            out.len() == i,
            forall|k: int| 0 <= k < i ==> (#[trigger] out@[k])@ == without_return(parts@[k]@),
        decreases parts.len() - i,
    {
        let chars = chars_of(parts[i].as_str());
        let n: usize = chars.len();
        let end: usize = if n > 0 && chars[n - 1] == '\r' {
            n - 1
        } else {
            n
        };
        let line = text_of(&chars, 0, end);
        assert(line@ =~= without_return(parts@[i as int]@));
        out.push(line);
        i += 1;
    }
    assert(texts(out@) =~= p.drop_last().map_values(|l: Seq<char>| without_return(l)));
    if !last.as_str().is_empty() {
        let ghost was = texts(out@);
        out.push(last);
        assert(texts(out@) =~= was.push(p.last()));
    }
    out
}

/// The texts of some lines, each with its line feed.
pub open spec fn with_ends(lines: Seq<Seq<char>>) -> Seq<char>
    decreases lines.len(),
{
    if lines.len() == 0 {
        Seq::empty()
    } else {
        with_ends(lines.drop_last()) + lines.last().push('\n')
    }
}

/// The text of some lines, each with its line feed.
pub fn lines_text(lines: &Vec<String>) -> (r: String)
    ensures
        r@ == with_ends(texts(lines@)),
{
    let mut out = String::new();
    let mut i: usize = 0;
    while i < lines.len()
        invariant
            i <= lines.len(),
            out@ == with_ends(texts(lines@.take(i as int))),
        decreases lines.len() - i,
    {
        out.push_str(lines[i].as_str());
        out.push('\n');
        proof {
            let now = texts(lines@.take(i + 1));
            assert(now.drop_last() =~= texts(lines@.take(i as int)));
            assert(now.last() == lines@[i as int]@);
            assert(out@ =~= with_ends(now));
        }
        i += 1;
    }
    assert(lines@.take(lines@.len() as int) =~= lines@);
    out
}

/// Lines that hold no line feed and do not end in a carriage return read back from their text.
pub proof fn written_lines_read_back(lines: Seq<Seq<char>>)
    requires
        forall|i: int| 0 <= i < lines.len() ==> !(#[trigger] lines[i]).contains('\n'),
        forall|i: int|
            0 <= i < lines.len() && (#[trigger] lines[i]).len() > 0 ==> lines[i].last() != '\r',
    ensures
        lines_of(with_ends(lines)) == lines,
{
    lemma_pieces_of_lines(lines);
    assert(pieces(with_ends(lines), '\n').drop_last() =~= lines);
    assert(lines.map_values(|l: Seq<char>| without_return(l)) =~= lines);
}

proof fn lemma_pieces_of_lines(lines: Seq<Seq<char>>)
    requires
        forall|i: int| 0 <= i < lines.len() ==> !(#[trigger] lines[i]).contains('\n'),
    ensures
        pieces(with_ends(lines), '\n') == lines.push(Seq::empty()),
    decreases lines.len(),
{
    if lines.len() == 0 {
        assert(pieces(with_ends(lines), '\n') =~= lines.push(Seq::empty()));
    } else {
        let d = lines.drop_last();
        assert forall|i: int| 0 <= i < d.len() implies !(#[trigger] d[i]).contains('\n') by {
            assert(d[i] == lines[i]);
        }
        lemma_pieces_of_lines(d);
        let head = with_ends(d);
        let l = lines.last();
        assert(!lines[lines.len() - 1].contains('\n'));
        crate::text::pieces_append(head, l, '\n');
        let t = head + l;
        assert(with_ends(lines) =~= t.push('\n'));
        assert(t.push('\n').drop_last() =~= t);
        let p = pieces(head, '\n');
        assert(pieces(t, '\n') == p.drop_last().push(p.last() + l));
        assert(p.drop_last() =~= d);
        assert(p.last() + l =~= l);
        assert(pieces(with_ends(lines), '\n') =~= lines.push(Seq::empty()));
    }
}

} // verus!
