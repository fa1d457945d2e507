//! Which kind of report a JSON file holds.

use serde_json::Value;
use vstd::prelude::*;

verus! {

/// The kinds of reports that have a page.
#[derive(Debug, Clone, Copy, PartialEq, Eq, Structural)]
pub enum ReportKind {
    MultiTrain,
    Ablation,
    EndToEnd,
    Sweep,
}

/// What tells the kinds apart: the keys of the report, and those of its first row.
#[derive(Debug, Clone, Copy, PartialEq, Eq, Structural)]
pub struct KindFacts {
    pub has_n_ffts: bool,
    pub has_n_mels: bool,
    pub has_train_steps: bool,
    pub row_has_regime: bool,
    pub row_has_pipeline: bool,
    pub row_has_variant: bool,
}

/// The kind that some facts tell: a multi-size training first, then an end-to-end bench, then an
/// ablation, else a sweep.
pub open spec fn kind_told(f: KindFacts) -> ReportKind {
    if f.has_n_ffts && f.row_has_regime {
        ReportKind::MultiTrain
    } else if f.has_n_mels && f.row_has_pipeline {
        ReportKind::EndToEnd
    } else if f.has_train_steps || f.row_has_variant {
        ReportKind::Ablation
    } else {
        ReportKind::Sweep
    }
}

/// The kind that some facts tell.
pub fn kind_of(f: KindFacts) -> (r: ReportKind)
    ensures
        r == kind_told(f),
{
    if f.has_n_ffts && f.row_has_regime {
        ReportKind::MultiTrain
    } else if f.has_n_mels && f.row_has_pipeline {
        ReportKind::EndToEnd
    } else if f.has_train_steps || f.row_has_variant {
        ReportKind::Ablation
    } else {
        ReportKind::Sweep
    }
}

/// A value of `serde_json`.
#[verifier::external_type_specification]
#[verifier::external_body]
pub struct ExJsonValue(serde_json::Value);

/// The value that a JSON text stands for; `None` where it is no JSON.
pub uninterp spec fn json_value(bytes: Seq<u8>) -> Option<Value>;

/// The member of a value with a name; `None` where the value is no object or has no such member.
pub uninterp spec fn json_member(v: Value, name: Seq<char>) -> Option<Value>;

/// The items of a value; `None` where it is no array.
pub uninterp spec fn json_items(v: Value) -> Option<Seq<Value>>;

/// `serde_json::from_slice` reads a JSON text; what it gives is a function of the text alone.
#[verifier::external_body]
fn parse_json(bytes: &Vec<u8>) -> (r: Option<Value>)
    ensures
        r == json_value(bytes@),
{
    serde_json::from_slice(bytes).ok()
}

/// `serde_json::Value::get` looks a name up among the members of an object; what it gives is a
/// function of the value and the name alone.
#[verifier::external_body]
fn member_of<'a>(v: &'a Value, name: &str) -> (r: Option<&'a Value>)
    ensures
        match r {
            Some(m) => json_member(*v, name@) == Some(*m),
            None => json_member(*v, name@) is None,
        },
{
    v.get(name)
}

/// `serde_json::Value::as_array` gives the items of an array, and nothing for another value.
#[verifier::external_body]
fn items_of(v: &Value) -> (r: Option<&Vec<Value>>)
    ensures
        match r {
            Some(l) => json_items(*v) == Some(l@),
            None => json_items(*v) is None,
        },
{
    v.as_array()
}

/// The first row of a report: the first item of its list of rows.
pub open spec fn first_row(root: Value) -> Option<Value> {
    match json_member(root, "rows"@) {
        Some(rows) => match json_items(rows) {
            Some(items) if items.len() > 0 => Some(items[0]),
            _ => None,
        },
        None => None,
    }
}

fn find_first_row(root: &Value) -> (r: Option<&Value>)
    ensures
        match r {
            Some(v) => first_row(*root) == Some(*v),
            None => first_row(*root) is None,
        },
{
    match member_of(root, "rows") {
        Some(rows) => match items_of(rows) {
            Some(items) => if items.len() > 0 {
                Some(&items[0])
            } else {
                None
            },
            None => None,
        },
        None => None,
    }
}

/// Whether a row has a key.
pub open spec fn row_has(row: Option<Value>, key: Seq<char>) -> bool {
    row matches Some(v) && json_member(v, key) is Some
}

fn row_has_key(row: Option<&Value>, key: &str) -> (r: bool)
    ensures
        r == (row matches Some(v) && json_member(*v, key@) is Some),
{
    match row {
        Some(v) => member_of(v, key).is_some(),
        None => false,
    }
}

/// What a report tells of its kind.
pub open spec fn facts_told(root: Value) -> KindFacts {
    let row = first_row(root);
    KindFacts {
        has_n_ffts: json_member(root, "n_ffts"@) is Some,
        has_n_mels: json_member(root, "n_mels"@) is Some,
        has_train_steps: json_member(root, "train_steps"@) is Some,
        row_has_regime: row_has(row, "regime"@),
        row_has_pipeline: row_has(row, "pipeline"@),
        row_has_variant: row_has(row, "variant"@),
    }
}

/// The kind of the report that a JSON text holds; `None` where it is no JSON.
pub fn report_kind(bytes: &Vec<u8>) -> (r: Option<ReportKind>)
    ensures
        match json_value(bytes@) {
            Some(root) => r == Some(kind_told(facts_told(root))),
            None => r is None,
        },
{
    match parse_json(bytes) {
        Some(root) => {
            let row = find_first_row(&root);
            Some(
                kind_of(
                    KindFacts {
                        has_n_ffts: member_of(&root, "n_ffts").is_some(),
                        has_n_mels: member_of(&root, "n_mels").is_some(),
                        has_train_steps: member_of(&root, "train_steps").is_some(),
                        row_has_regime: row_has_key(row, "regime"),
                        row_has_pipeline: row_has_key(row, "pipeline"),
                        row_has_variant: row_has_key(row, "variant"),
                    },
                ),
            )
        },
        None => None,
    }
}

/// Only end-to-end reports are merged from several files; the others are read from the first.
pub fn files_read(kind: ReportKind, files: usize) -> (r: usize)
    ensures
        r == if kind is EndToEnd || files < 1 {
            files
        } else {
            1
        },
{
    if matches!(kind, ReportKind::EndToEnd) || files < 1 {
        files
    } else {
        1
    }
}

/// The keys tell the kind of a report: a regime in the rows and a list of sizes a multi-size training,
/// a pipeline in the rows and mel filters an end-to-end bench; of what has neither, training or a
/// variant tells an ablation, and what has none of these is a sweep.
pub proof fn keys_tell_the_kind(f: KindFacts)
    ensures
        kind_told(f) is MultiTrain <==> f.has_n_ffts && f.row_has_regime,
        !f.row_has_regime && f.has_n_mels && f.row_has_pipeline ==> kind_told(f) is EndToEnd,
        kind_told(f) is EndToEnd ==> f.has_n_mels && f.row_has_pipeline,
        kind_told(f) is Ablation ==> f.has_train_steps || f.row_has_variant,
        !f.row_has_regime && !f.row_has_pipeline && (f.has_train_steps || f.row_has_variant)
            ==> kind_told(f) is Ablation,
        kind_told(f) is Sweep ==> !f.has_train_steps && !f.row_has_variant,
        !f.has_n_ffts && !f.has_n_mels && !f.has_train_steps && !f.row_has_variant ==> kind_told(f)
            is Sweep,
{
}

} // verus!
