//! Pieces of report pages: escaping, identifiers, tabs, tables and embedded JSON.

use crate::ablation_csv::decimals;
use crate::order::arranged;
use crate::pages::{fill, filled};
use crate::text::{chars_of, decimal, join_texts, joined, same_text, texts};
use vstd::prelude::*;

verus! {

/// How a page writes a character.
pub open spec fn html_char(c: char) -> Seq<char> {
    if c == '&' {
        "&amp;"@
    } else if c == '<' {
        "&lt;"@
    } else if c == '>' {
        "&gt;"@
    } else if c == '"' {
        "&quot;"@
    } else if c == '\'' {
        "&#39;"@
    } else {
        seq![c]
    }
}

/// How a page writes a text.
pub open spec fn html_text(s: Seq<char>) -> Seq<char>
    decreases s.len(),
{
    if s.len() == 0 {
        Seq::empty()
    } else {
        html_text(s.drop_last()) + html_char(s.last())
    }
}

/// Escapes a text for a page.
pub fn html_escape(s: &str) -> (r: String)
    ensures
        r@ == html_text(s@),
{
    let chars = chars_of(s);
    let mut out = String::new();
    let mut i: usize = 0;
    assert(out@ =~= html_text(chars@.take(0)));
    while i < chars.len()
        invariant
            i <= chars.len(),
            out@ == html_text(chars@.take(i as int)),
        decreases chars.len() - i,
    {
        let c = chars[i];
        assert(chars@.take(i + 1).drop_last() =~= chars@.take(i as int));
        if c == '&' {
            out.push_str("&amp;");
        } else if c == '<' {
            out.push_str("&lt;");
        } else if c == '>' {
            out.push_str("&gt;");
        } else if c == '"' {
            out.push_str("&quot;");
        } else if c == '\'' {
            out.push_str("&#39;");
        } else {
            out.push(c);
        }
        assert(out@ =~= html_text(chars@.take(i + 1)));
        i += 1;
    }
    assert(chars@.take(chars@.len() as int) =~= chars@);
    out
}

/// An escaped text holds no character that opens or closes markup or an attribute.
pub proof fn escaped_text_is_inert(s: Seq<char>)
    ensures
        forall|i: int|
            0 <= i < html_text(s).len() ==> (#[trigger] html_text(s)[i]) != '<' && html_text(s)[i]
                != '>' && html_text(s)[i] != '"' && html_text(s)[i] != '\'',
    decreases s.len(),
{
    if s.len() > 0 {
        escaped_text_is_inert(s.drop_last());
        reveal_strlit("&amp;");
        reveal_strlit("&lt;");
        reveal_strlit("&gt;");
        reveal_strlit("&quot;");
        reveal_strlit("&#39;");
        let a = html_text(s.drop_last());
        let b = html_char(s.last());
        assert forall|i: int| 0 <= i < html_text(s).len() implies (#[trigger] html_text(s)[i])
            != '<' && html_text(s)[i] != '>' && html_text(s)[i] != '"' && html_text(s)[i]
            != '\'' by {
            if i < a.len() {
                assert(html_text(s)[i] == a[i]);
            } else {
                assert(html_text(s)[i] == b[i - a.len()]);
            }
        }
    }
}

/// Whether a character is an ASCII letter or digit.
pub open spec fn alphanumeric(c: char) -> bool {
    ('0' <= c && c <= '9') || ('a' <= c && c <= 'z') || ('A' <= c && c <= 'Z')
}

/// A text as an identifier: every other character becomes a hyphen.
pub open spec fn slug_text(s: Seq<char>) -> Seq<char> {
    s.map_values(
        |c: char|
            if alphanumeric(c) {
                c
            } else {
                '-'
            },
    )
}

/// Makes an identifier of a text.
pub fn slug(s: &str) -> (r: String)
    ensures
        r@ == slug_text(s@),
{
    let chars = chars_of(s);
    let mut out = String::new();
    let mut i: usize = 0;
    assert(out@ =~= slug_text(chars@.take(0)));
    while i < chars.len()
        invariant
            i <= chars.len(),
            out@ == slug_text(chars@.take(i as int)),
        decreases chars.len() - i,
    {
        let c = chars[i];
        if ('0' <= c && c <= '9') || ('a' <= c && c <= 'z') || ('A' <= c && c <= 'Z') {
            out.push(c);
        } else {
            out.push('-');
        }
        assert(out@ =~= slug_text(chars@.take(i + 1)));
        i += 1;
    }
    assert(chars@.take(chars@.len() as int) =~= chars@);
    out
}

/// Whether the first element of a group is marked.
pub open spec fn active_mark(first: bool) -> Seq<char> {
    if first {
        " active"@
    } else {
        ""@
    }
}

pub fn active(first: bool) -> (r: &'static str)
    ensures
        r@ == active_mark(first),
{
    if first {
        " active"
    } else {
        ""
    }
}

/// The views of some texts.
pub open spec fn str_views(v: Seq<&str>) -> Seq<Seq<char>> {
    v.map_values(|s: &str| s@)
}

// ---------------------------------------------------------------------------
// Colours
// ---------------------------------------------------------------------------

/// A table of names and their colours.
pub type Palette = [(&'static str, &'static str)];

/// The colour of a name: that of its first entry, or another.
pub open spec fn colour(table: Seq<(&'static str, &'static str)>, name: Seq<char>, other: Seq<char>) -> Seq<
    char,
>
    decreases table.len(),
{
    if table.len() == 0 {
        other
    } else if table[0].0@ == name {
        table[0].1@
    } else {
        colour(table.drop_first(), name, other)
    }
}

/// The colour of a name.
pub fn colour_of(table: &Palette, name: &str, other: &'static str) -> (r: &'static str)
    ensures
        r@ == colour(table@, name@, other@),
{
    let mut i: usize = 0;
    assert(table@.skip(0) =~= table@);
    while i < table.len()
        invariant
            i <= table.len(),
            colour(table@, name@, other@) == colour(table@.skip(i as int), name@, other@),
        decreases table.len() - i,
    {
        assert(table@.skip(i as int)[0] == table@[i as int]);
        if same_text(table[i].0, name) {
            return table[i].1;
        }
        assert(table@.skip(i as int).drop_first() =~= table@.skip(i + 1));
        i += 1;
    }
    other
}

/// The fields of a table of colours.
pub open spec fn colour_fields(table: Seq<(&'static str, &'static str)>) -> Seq<
    (Seq<char>, JsonView),
> {
    table.map_values(|p: (&'static str, &'static str)| (p.0@, JsonView::Text(p.1@)))
}

/// A table of colours as a JSON object.
pub fn colours_json(table: &Palette) -> (r: String)
    ensures
        r@ == json_object_text(colour_fields(table@)),
{
    let mut fields: Vec<(&'static str, JsonValue)> = Vec::new();
    let mut i: usize = 0;
    while i < table.len()
        invariant
            i <= table.len(),
            fields.len() == i,
            forall|k: int|
                0 <= k < i ==> (#[trigger] fields@[k]).0@ == table@[k].0@ && fields@[k].1@
                    == JsonView::Text(table@[k].1@),
        decreases table.len() - i,
    {
        let value = JsonValue::Text(table[i].1.to_owned());
        assert(value@ == JsonView::Text(table@[i as int].1@));
        fields.push((table[i].0, value));
        i += 1;
    }
    assert(fields_view(fields@) =~= colour_fields(table@));
    json_object(&fields)
}

pub const LEGEND_ITEM: [&'static str; 3] = [
    "<div class=\"legend-item\"><span class=\"swatch\" style=\"background:",
    "\"></span>",
    "</div>",
];

/// The items of a legend.
pub open spec fn legend_items(
    table: Seq<(&'static str, &'static str)>,
    names: Seq<Seq<char>>,
    other: Seq<char>,
) -> Seq<Seq<char>> {
    names.map_values(
        |n: Seq<char>| filled(str_views(LEGEND_ITEM@), seq![colour(table, n, other), n]),
    )
}

/// A legend: one line for each name.
pub fn legend(table: &Palette, names: &Vec<String>, other: &'static str) -> (r: String)
    ensures
        r@ == joined(legend_items(table@, texts(names@), other@), "\n"@),
{
    let ghost items = legend_items(table@, texts(names@), other@);
    let mut out: Vec<String> = Vec::new();
    let mut i: usize = 0;
    while i < names.len()
        invariant
            i <= names.len(),
            items == legend_items(table@, texts(names@), other@),
            items.len() == names.len(),
            out.len() == i,
            forall|k: int| 0 <= k < i ==> (#[trigger] out@[k])@ == items[k],
        decreases names.len() - i,
    {
        let c = colour_of(table, names[i].as_str(), other);
        let f = [c, names[i].as_str()];
        assert(str_views(f@) =~= seq![c@, names@[i as int]@]);
        out.push(fill(&LEGEND_ITEM, &f));
        assert(texts(names@)[i as int] == names@[i as int]@);
        i += 1;
    }
    assert(texts(out@) =~= items);
    join_texts(&out, "\n")
}

// ---------------------------------------------------------------------------
// JSON
// ---------------------------------------------------------------------------

/// A value of an embedded JSON object.
#[derive(Debug)]
pub enum JsonValue {
    Text(String),
    Flag(bool),
    Count(usize),
    Counts(Vec<usize>),
    Texts(Vec<String>),
}

/// What a value stands for.
pub enum JsonView {
    Text(Seq<char>),
    Flag(bool),
    Count(usize),
    Counts(Seq<usize>),
    Texts(Seq<Seq<char>>),
}

impl View for JsonValue {
    type V = JsonView;

    open spec fn view(&self) -> JsonView {
        match self {
            JsonValue::Text(s) => JsonView::Text(s@),
            JsonValue::Flag(b) => JsonView::Flag(*b),
            JsonValue::Count(n) => JsonView::Count(*n),
            JsonValue::Counts(v) => JsonView::Counts(v@),
            JsonValue::Texts(v) => JsonView::Texts(texts(v@)),
        }
    }
}

/// The views of the fields of an object.
pub open spec fn fields_view(v: Seq<(&'static str, JsonValue)>) -> Seq<(Seq<char>, JsonView)> {
    v.map_values(|f: (&'static str, JsonValue)| (f.0@, f.1@))
}

/// A value as JSON.
pub open spec fn json_value_text(v: JsonView) -> Seq<char> {
    match v {
        JsonView::Text(s) => json_text(s),
        JsonView::Flag(b) => if b {
            "true"@
        } else {
            "false"@
        },
        JsonView::Count(n) => decimal(n as nat),
        JsonView::Counts(ns) => json_numbers(ns),
        JsonView::Texts(items) => json_list_text(items),
    }
}

/// The value of the last field with a key.
pub open spec fn last_field(fields: Seq<(Seq<char>, JsonView)>, key: Seq<char>) -> Option<JsonView>
    decreases fields.len(),
{
    if fields.len() == 0 {
        None
    } else if fields.last().0 == key {
        Some(fields.last().1)
    } else {
        last_field(fields.drop_last(), key)
    }
}

/// An object with some fields as JSON: a member for every key, in the order of the keys, with the
/// last value that was given for it.
pub open spec fn json_object_text(fields: Seq<(Seq<char>, JsonView)>) -> Seq<char> {
    let keys = arranged::<String>(fields.map_values(|f: (Seq<char>, JsonView)| f.0));
    let members = keys.map_values(
        |k: Seq<char>| json_text(k) + ":"@ + json_value_text(last_field(fields, k)->0),
    );
    "{"@ + joined(members, ","@) + "}"@
}

/// `serde_json::Value::to_string` writes an object with the given fields. `serde_json::Map` orders its
/// members by their keys, and a later value takes the place of an earlier one; an object is written
/// as its members between braces and commas, without blanks, and each value as text, truth value,
/// number or list.
#[verifier::external_body]
pub(crate) fn json_object(fields: &Vec<(&'static str, JsonValue)>) -> (r: String)
    ensures
        r@ == json_object_text(fields_view(fields@)),
{
    let mut map = serde_json::Map::new();
    for (key, value) in fields {
        let value = match value {
            JsonValue::Text(s) => serde_json::Value::from(s.as_str()),
            JsonValue::Flag(b) => serde_json::Value::from(*b),
            JsonValue::Count(n) => serde_json::Value::from(*n),
            JsonValue::Counts(v) => serde_json::Value::from(v.clone()),
            JsonValue::Texts(v) => serde_json::Value::from(v.clone()),
        };
        map.insert(key.to_string(), value);
    }
    serde_json::Value::Object(map).to_string()
}

/// A digit of base sixteen, in lower case.
pub open spec fn hex_digit(d: int) -> char {
    if d < 10 {
        (48 + d) as char
    } else {
        (87 + d) as char
    }
}

/// A character inside a JSON string: quotes, backslashes and control characters are escaped.
pub open spec fn json_char(c: char) -> Seq<char> {
    let n = c as int;
    if c == '"' || c == '\\' {
        seq!['\\', c]
    } else if n == 8 {
        seq!['\\', 'b']
    } else if n == 9 {
        seq!['\\', 't']
    } else if n == 10 {
        seq!['\\', 'n']
    } else if n == 12 {
        seq!['\\', 'f']
    } else if n == 13 {
        seq!['\\', 'r']
    } else if n < 32 {
        seq!['\\', 'u', '0', '0', hex_digit(n / 16), hex_digit(n % 16)]
    } else {
        seq![c]
    }
}

/// The characters of a text inside a JSON string.
pub open spec fn json_chars(s: Seq<char>) -> Seq<char>
    decreases s.len(),
{
    if s.len() == 0 {
        Seq::empty()
    } else {
        json_chars(s.drop_last()) + json_char(s.last())
    }
}

/// A text as a JSON string.
pub open spec fn json_text(s: Seq<char>) -> Seq<char> {
    seq!['"'] + json_chars(s) + seq!['"']
}

/// `serde_json::Value::to_string` writes a text as a JSON string: in quotes, with quotes,
/// backslashes and control characters escaped and all else as it is.
#[verifier::external_body]
pub(crate) fn json_string(s: &str) -> (r: String)
    ensures
        r@ == json_text(s@),
{
    serde_json::Value::from(s).to_string()
}

/// A list of texts as JSON strings.
pub open spec fn json_texts(items: Seq<Seq<char>>) -> Seq<Seq<char>> {
    items.map_values(|s: Seq<char>| json_text(s))
}

/// A list of texts as JSON.
pub open spec fn json_list_text(items: Seq<Seq<char>>) -> Seq<char> {
    "["@ + joined(json_texts(items), ","@) + "]"@
}

/// Writes a list of texts as JSON.
pub fn json_list(items: &Vec<String>) -> (r: String)
    ensures
        r@ == json_list_text(texts(items@)),
{
    let ghost model = json_texts(texts(items@));
    let mut cells: Vec<String> = Vec::new();
    let mut i: usize = 0;
    while i < items.len()
        invariant
            i <= items.len(),
            model == json_texts(texts(items@)),
            cells.len() == i,
            forall|k: int| 0 <= k < i ==> (#[trigger] cells@[k])@ == model[k],
        decreases items.len() - i,
    {
        assert(texts(items@)[i as int] == items@[i as int]@);
        cells.push(json_string(items[i].as_str()));
        i += 1;
    }
    assert(texts(cells@) =~= model);
    let list = join_texts(&cells, ",");
    let mut out = "[".to_owned();
    out.push_str(list.as_str());
    out.push_str("]");
    out
}

/// A list of numbers as JSON.
pub open spec fn json_numbers(ns: Seq<usize>) -> Seq<char> {
    "["@ + joined(decimals(ns), ","@) + "]"@
}

/// Writes a list of numbers as JSON.
pub fn json_counts(ns: &Vec<usize>) -> (r: String)
    ensures
        r@ == json_numbers(ns@),
{
    let cells = crate::ablation_csv::number_texts(ns);
    let list = join_texts(&cells, ",");
    let mut out = "[".to_owned();
    out.push_str(list.as_str());
    out.push_str("]");
    out
}

/// A copy of a list of numbers.
pub fn copy_counts(v: &Vec<usize>) -> (r: Vec<usize>)
    ensures
        r@ == v@,
{
    let mut out: Vec<usize> = Vec::new();
    let mut i: usize = 0;
    while i < v.len()
        invariant
            i <= v.len(),
            out@ == v@.take(i as int),
        decreases v.len() - i,
    {
        out.push(v[i]);
        assert(out@ =~= v@.take(i + 1));
        i += 1;
    }
    assert(out@ =~= v@);
    out
}

/// A text as a field of an object.
pub fn text_value(s: &str) -> (r: JsonValue)
    ensures
        r@ == JsonView::Text(s@),
{
    JsonValue::Text(s.to_owned())
}

/// A list of numbers as a field of an object.
pub fn list_value(v: &Vec<usize>) -> (r: JsonValue)
    ensures
        r@ == JsonView::Counts(v@),
{
    JsonValue::Counts(copy_counts(v))
}

} // verus!
