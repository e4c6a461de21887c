//! The JSON boundary of the store: reading a record file's text into the
//! typed model and writing it back, through the JSON library.
//!
//! The JSON value type is opaque here; each library call this module makes
//! stands behind a trusted declaration. Every trusted result that is a
//! function of its arguments alone carries a name (`parsed_val`,
//! `str_of_val`, `entries_of_val`, …), so the verified conversions between
//! a value tree and the record document can state exactly what they build.

use vstd::prelude::*;
use crate::codec::{doc_decodes, RecordDoc, RecordDocV};
use crate::record::{MetaVal, MetaValV, Task};
use crate::strutil::{spec_u64_str, str_eq, u64_to_string};

verus! {

#[verifier::external_type_specification]
#[verifier::external_body]
pub struct ExValue(serde_json::Value);

/// What parsing a text yields: `serde_json::from_str`'s result, a function
/// of the text alone.
pub uninterp spec fn parsed_val(s: Seq<char>) -> Option<serde_json::Value>;

/// The canonical text of a JSON value, a function of the value alone.
pub uninterp spec fn text_of_val(v: serde_json::Value) -> Seq<char>;

/// The indented text of a JSON value.
pub uninterp spec fn pretty_text_of_val(v: serde_json::Value) -> Seq<char>;

/// What a JSON string value holds; nothing for any other shape.
pub uninterp spec fn str_of_val(v: serde_json::Value) -> Option<Seq<char>>;

/// What an unsigned-integer value holds; nothing for any other shape.
pub uninterp spec fn u64_of_val(v: serde_json::Value) -> Option<u64>;

/// What a signed-integer value holds; nothing for any other shape.
pub uninterp spec fn i64_of_val(v: serde_json::Value) -> Option<i64>;

/// The elements of an array value; nothing for any other shape.
pub uninterp spec fn arr_of_val(v: serde_json::Value) -> Option<Seq<serde_json::Value>>;

/// The entries of an object value in its iteration order (the map is
/// key-ordered); nothing for any other shape.
pub uninterp spec fn entries_of_val(v: serde_json::Value) -> Option<
    Seq<(Seq<char>, serde_json::Value)>,
>;

/// The string value holding exactly the given text: the `Value::String`
/// constructor's result.
pub uninterp spec fn str_val_of(s: Seq<char>) -> serde_json::Value;

/// The array value holding exactly the given elements.
pub uninterp spec fn arr_val_of(items: Seq<serde_json::Value>) -> serde_json::Value;

/// The object value built from the given entries, later entries overriding
/// earlier ones of the same key.
pub uninterp spec fn obj_val_of(entries: Seq<(Seq<char>, serde_json::Value)>) -> serde_json::Value;

/// The views of an entry list.
pub open spec fn entry_views(es: Seq<(String, serde_json::Value)>) -> Seq<
    (Seq<char>, serde_json::Value),
> {
    Seq::new(es.len(), |i: int| (es[i].0@, es[i].1))
}

/// The first entry under a key.
pub open spec fn spec_entry_first(
    es: Seq<(Seq<char>, serde_json::Value)>,
    k: Seq<char>,
) -> Option<serde_json::Value>
    decreases es.len(),
{
    if es.len() == 0 {
        None
    } else if es[0].0 == k {
        Some(es[0].1)
    } else {
        spec_entry_first(es.skip(1), k)
    }
}

/// The reading an object's entries give of an input entry list: one entry
/// per key, holding the last input value under that key.
pub open spec fn entries_read_back(
    es: Seq<(Seq<char>, serde_json::Value)>,
    input: Seq<(Seq<char>, serde_json::Value)>,
) -> bool {
    &&& forall|i: int, j: int| 0 <= i < j < es.len() ==> (#[trigger] es[i].0) != (#[trigger] es[j].0)
    &&& forall|k: Seq<char>| #[trigger] spec_entry_first(es, k) == spec_entry_last(input, k)
}

/// Whether an object value reads back one entry per key, each holding the
/// last input value under that key.
pub open spec fn obj_reads_back(
    r: serde_json::Value,
    input: Seq<(Seq<char>, serde_json::Value)>,
) -> bool {
    entries_of_val(r) matches Some(es) && entries_read_back(es, input)
}

/// The last entry under a key.
pub open spec fn spec_entry_last(
    es: Seq<(Seq<char>, serde_json::Value)>,
    k: Seq<char>,
) -> Option<serde_json::Value>
    decreases es.len(),
{
    if es.len() == 0 {
        None
    } else if es.last().0 == k {
        Some(es.last().1)
    } else {
        spec_entry_last(es.drop_last(), k)
    }
}

/// Relies on serde_json::from_str: parses JSON text into a value, or fails;
/// the outcome is a function of the text alone, and malformed input fails
/// without panicking.
#[verifier::external_body]
pub fn parse_json(s: &str) -> (r: Option<serde_json::Value>)
    ensures
        r == parsed_val(s@),
{
    serde_json::from_str(s).ok()
}

/// Relies on serde_json::to_string: the canonical text of a value; writing
/// a value never fails.
#[verifier::external_body]
pub fn json_text(v: &serde_json::Value) -> (r: String)
    ensures
        r@ == text_of_val(*v),
{
    serde_json::to_string(v).unwrap_or_default()
}

/// Relies on serde_json::to_string_pretty: the indented text of a value.
#[verifier::external_body]
pub fn json_pretty_text(v: &serde_json::Value) -> (r: String)
    ensures
        r@ == pretty_text_of_val(*v),
{
    serde_json::to_string_pretty(v).unwrap_or_default()
}

/// Relies on serde_json::Value::as_str: the text of a string value,
/// nothing for any other shape.
#[verifier::external_body]
pub fn val_string(v: &serde_json::Value) -> (r: Option<String>)
    ensures
        match r {
            Some(s) => str_of_val(*v) == Some(s@),
            None => str_of_val(*v) is None,
        },
{
    v.as_str().map(|s| s.to_string())
}

/// Relies on serde_json::Value::as_u64: the value of an unsigned integer.
#[verifier::external_body]
pub fn val_u64(v: &serde_json::Value) -> (r: Option<u64>)
    ensures
        r == u64_of_val(*v),
{
    v.as_u64()
}

/// Relies on serde_json::Value::as_i64: the value of a signed integer.
#[verifier::external_body]
pub fn val_i64(v: &serde_json::Value) -> (r: Option<i64>)
    ensures
        r == i64_of_val(*v),
{
    v.as_i64()
}

/// Relies on serde_json::Value::as_object: the entries of an object value
/// in iteration order, nothing for any other shape.
#[verifier::external_body]
pub fn val_entries(v: &serde_json::Value) -> (r: Option<Vec<(String, serde_json::Value)>>)
    ensures
        match r {
            Some(es) => entries_of_val(*v) == Some(entry_views(es@)),
            None => entries_of_val(*v) is None,
        },
{
    v.as_object().map(|m| m.iter().map(|(k, x)| (k.clone(), x.clone())).collect())
}

/// Relies on serde_json::Value::as_array: the elements of an array value,
/// nothing for any other shape.
#[verifier::external_body]
pub fn val_array(v: &serde_json::Value) -> (r: Option<Vec<serde_json::Value>>)
    ensures
        match r {
            Some(a) => arr_of_val(*v) == Some(a@),
            None => arr_of_val(*v) is None,
        },
{
    v.as_array().cloned()
}

/// Relies on the Value::String constructor: a string value holding exactly
/// the given text; its source shows it reads back as a string and as no
/// other shape.
#[verifier::external_body]
pub fn val_of_string(s: &str) -> (r: serde_json::Value)
    ensures
        r == str_val_of(s@),
        str_of_val(r) == Some(s@),
        entries_of_val(r) is None,
        arr_of_val(r) is None,
        u64_of_val(r) is None,
        i64_of_val(r) is None,
{
    serde_json::Value::String(s.to_string())
}

/// Relies on the Value::Array constructor: an array value holding exactly
/// the given elements, reading back as an array and as no other shape.
#[verifier::external_body]
pub fn val_of_array(items: Vec<serde_json::Value>) -> (r: serde_json::Value)
    ensures
        r == arr_val_of(items@),
        arr_of_val(r) == Some(items@),
        str_of_val(r) is None,
        entries_of_val(r) is None,
{
    serde_json::Value::Array(items)
}

/// Relies on the Value::Object constructor over the collected entries: the
/// key-ordered map keeps one entry per key, a later entry overriding an
/// earlier one; reading it back gives an object whose lookups equal the
/// last input entry of each key.
#[verifier::external_body]
pub fn val_of_entries(entries: Vec<(String, serde_json::Value)>) -> (r: serde_json::Value)
    ensures
        r == obj_val_of(entry_views(entries@)),
        obj_reads_back(r, entry_views(entries@)),
        str_of_val(r) is None,
        arr_of_val(r) is None,
{
    serde_json::Value::Object(entries.into_iter().collect())
}

/// The typed metadata fields of a record document.
fn is_known_meta_key(k: &str) -> (r: bool)
    ensures
        r == spec_known_meta_key(k@),
{
    str_eq(k, "priority") || str_eq(k, "type") || str_eq(k, "parent_id") || str_eq(k, "branch")
        || str_eq(k, "status_detail") || str_eq(k, "project") || str_eq(k, "plan_file") || str_eq(
        k,
        "spec_file",
    ) || str_eq(k, "slug")
}

pub open spec fn spec_known_meta_key(k: Seq<char>) -> bool {
    ||| k == "priority"@
    ||| k == "type"@
    ||| k == "parent_id"@
    ||| k == "branch"@
    ||| k == "status_detail"@
    ||| k == "project"@
    ||| k == "plan_file"@
    ||| k == "spec_file"@
    ||| k == "slug"@
}

/// The stored text a metadata value contributes to a typed field: a string
/// gives its text, an integer its decimal form, anything else nothing.
pub open spec fn spec_meta_text(v: serde_json::Value) -> Seq<char> {
    match str_of_val(v) {
        Some(s) => s,
        None => match u64_of_val(v) {
            Some(n) => spec_u64_str(n),
            None => match i64_of_val(v) {
                Some(n) => if n < 0 {
                    seq!['-'] + spec_u64_str((-(n as int)) as u64)
                } else {
                    spec_u64_str(n as u64)
                },
                None => Seq::<char>::empty(),
            },
        },
    }
}

fn meta_string_of(v: &serde_json::Value) -> (r: String)
    ensures
        r@ == spec_meta_text(*v),
{
    match val_string(v) {
        Some(s) => s,
        None => {
            match val_u64(v) {
                Some(n) => u64_to_string(n),
                None => {
                    match val_i64(v) {
                        Some(n) => {
                            if n < 0 {
                                let mut s = String::new();
                                s.append("-");
                                let mag = u64_to_string((-(n as i128)) as u64);
                                s.append(mag.as_str());
                                proof {
                                    reveal_strlit("-");
                                    assert(s@ =~= seq!['-'] + spec_u64_str((-(n as int)) as u64));
                                }
                                s
                            } else {
                                u64_to_string(n as u64)
                            }
                        },
                        None => {
                            proof {
                                reveal_strlit("");
                                assert(""@ =~= Seq::<char>::empty());
                            }
                            String::new()
                        },
                    }
                },
            }
        },
    }
}

/// The empty record document every extraction starts from: every field
/// empty, and the lifecycle default of pending for an absent status.
pub open spec fn spec_empty_doc() -> RecordDocV {
    RecordDocV {
        id: Seq::empty(),
        subject: Seq::empty(),
        description: Seq::empty(),
        status_name: "pending"@,
        active_form: Seq::empty(),
        owner: Seq::empty(),
        blocks: Seq::empty(),
        blocked_by: Seq::empty(),
        priority_name: Seq::empty(),
        task_type: Seq::empty(),
        parent_id: Seq::empty(),
        branch: Seq::empty(),
        status_detail: Seq::empty(),
        project: Seq::empty(),
        plan_file: Seq::empty(),
        spec_file: Seq::empty(),
        slug: Seq::empty(),
        extra: Seq::empty(),
        meta_extra: Seq::empty(),
    }
}

/// The text sequence an array of strings holds; nothing when any element
/// is not a string.
pub open spec fn spec_all_strings(a: Seq<serde_json::Value>) -> Option<Seq<Seq<char>>>
    decreases a.len(),
{
    if a.len() == 0 {
        Some(Seq::empty())
    } else {
        match spec_all_strings(a.drop_last()) {
            Some(r) => match str_of_val(a.last()) {
                Some(s) => Some(r.push(s)),
                None => None,
            },
            None => None,
        }
    }
}

pub open spec fn spec_string_list(v: serde_json::Value) -> Option<Seq<Seq<char>>> {
    match arr_of_val(v) {
        Some(a) => spec_all_strings(a),
        None => None,
    }
}

/// One typed metadata entry's effect while reading the metadata object.
pub open spec fn spec_meta_step(
    d: RecordDocV,
    k: Seq<char>,
    v: serde_json::Value,
) -> RecordDocV {
    let text = spec_meta_text(v);
    if k == "priority"@ {
        RecordDocV { priority_name: text, ..d }
    } else if k == "type"@ {
        RecordDocV { task_type: text, ..d }
    } else if k == "parent_id"@ {
        RecordDocV { parent_id: text, ..d }
    } else if k == "branch"@ {
        RecordDocV { branch: text, ..d }
    } else if k == "status_detail"@ {
        RecordDocV { status_detail: text, ..d }
    } else if k == "project"@ {
        RecordDocV { project: text, ..d }
    } else if k == "plan_file"@ {
        RecordDocV { plan_file: text, ..d }
    } else if k == "spec_file"@ {
        RecordDocV { spec_file: text, ..d }
    } else if k == "slug"@ {
        RecordDocV { slug: text, ..d }
    } else {
        match str_of_val(v) {
            Some(s) => RecordDocV { meta_extra: d.meta_extra.push((k, MetaValV::Text(s))), ..d },
            None => RecordDocV {
                meta_extra: d.meta_extra.push((k, MetaValV::Json(text_of_val(v)))),
                ..d
            },
        }
    }
}

pub open spec fn spec_meta_fold(
    d: RecordDocV,
    mes: Seq<(Seq<char>, serde_json::Value)>,
) -> RecordDocV
    decreases mes.len(),
{
    if mes.len() == 0 {
        d
    } else {
        spec_meta_step(spec_meta_fold(d, mes.drop_last()), mes.last().0, mes.last().1)
    }
}

/// One top-level entry's effect while reading a record value: a typed key
/// of the right shape fills its field (a wrong shape is ignored), the
/// metadata object is folded entry by entry, and any other key is carried
/// through as its serialized text.
pub open spec fn spec_doc_step(d: RecordDocV, k: Seq<char>, v: serde_json::Value) -> RecordDocV {
    if k == "id"@ {
        match str_of_val(v) {
            Some(s) => RecordDocV { id: s, ..d },
            None => d,
        }
    } else if k == "subject"@ {
        match str_of_val(v) {
            Some(s) => RecordDocV { subject: s, ..d },
            None => d,
        }
    } else if k == "description"@ {
        match str_of_val(v) {
            Some(s) => RecordDocV { description: s, ..d },
            None => d,
        }
    } else if k == "activeForm"@ {
        match str_of_val(v) {
            Some(s) => RecordDocV { active_form: s, ..d },
            None => d,
        }
    } else if k == "status"@ {
        match str_of_val(v) {
            Some(s) => RecordDocV { status_name: s, ..d },
            None => d,
        }
    } else if k == "owner"@ {
        match str_of_val(v) {
            Some(s) => RecordDocV { owner: s, ..d },
            None => d,
        }
    } else if k == "blocks"@ {
        match spec_string_list(v) {
            Some(l) => RecordDocV { blocks: l, ..d },
            None => d,
        }
    } else if k == "blockedBy"@ {
        match spec_string_list(v) {
            Some(l) => RecordDocV { blocked_by: l, ..d },
            None => d,
        }
    } else if k == "metadata"@ {
        match entries_of_val(v) {
            Some(mes) => spec_meta_fold(d, mes),
            None => d,
        }
    } else {
        RecordDocV { extra: d.extra.push((k, text_of_val(v))), ..d }
    }
}

pub open spec fn spec_doc_fold(
    d: RecordDocV,
    es: Seq<(Seq<char>, serde_json::Value)>,
) -> RecordDocV
    decreases es.len(),
{
    if es.len() == 0 {
        d
    } else {
        spec_doc_step(spec_doc_fold(d, es.drop_last()), es.last().0, es.last().1)
    }
}

/// The record document a value's entries denote.
pub open spec fn spec_doc_of_entries(es: Seq<(Seq<char>, serde_json::Value)>) -> RecordDocV {
    spec_doc_fold(spec_empty_doc(), es)
}

/// Reads a parsed record value into the record document: each typed field
/// from its key (absent fields keep their empty defaults, an absent status
/// reads as pending), every unmodeled field carried through as text. A
/// value that is not an object gives nothing, so a malformed record file is
/// skipped by callers rather than surfaced.
pub fn doc_of_value(v: &serde_json::Value) -> (r: Option<RecordDoc>)
    ensures
        match r {
            Some(d) => entries_of_val(*v) matches Some(es) && d@ == spec_doc_of_entries(es),
            None => entries_of_val(*v) is None,
        },
{
    let entries = match val_entries(v) {
        Some(e) => e,
        None => {
            return None;
        },
    };
    let ghost ev = entry_views(entries@);
    let mut doc = RecordDoc {
        id: String::new(),
        subject: String::new(),
        description: String::new(),
        status_name: {
            let mut s = String::new();
            s.append("pending");
            s
        },
        active_form: String::new(),
        owner: String::new(),
        blocks: Vec::new(),
        blocked_by: Vec::new(),
        priority_name: String::new(),
        task_type: String::new(),
        parent_id: String::new(),
        branch: String::new(),
        status_detail: String::new(),
        project: String::new(),
        plan_file: String::new(),
        spec_file: String::new(),
        slug: String::new(),
        extra: Vec::new(),
        meta_extra: Vec::new(),
    };
    proof {
        assert(doc@ =~~= spec_empty_doc());
        assert(ev.take(0) =~= Seq::<(Seq<char>, serde_json::Value)>::empty());
    }
    let mut i: usize = 0;
    while i < entries.len()
        invariant
            i <= entries@.len(),
            ev == entry_views(entries@),
            ev.len() == entries@.len(),
            doc@ == spec_doc_fold(spec_empty_doc(), ev.take(i as int)),
        decreases entries@.len() - i,
    {
        proof {
            assert(ev[i as int] == (entries@[i as int].0@, entries@[i as int].1));
            assert(ev.take(i + 1).drop_last() =~= ev.take(i as int));
            assert(ev.take(i + 1).last() == ev[i as int]);
        }
        let ghost prev = doc@;
        let (k, val) = &entries[i];
        if str_eq(k.as_str(), "id") {
            match val_string(val) {
                Some(s) => {
                    doc.id = s;
                },
                None => {},
            }
            proof {
                assert(doc@ =~~= spec_doc_step(prev, ev[i as int].0, ev[i as int].1));
            }
        } else if str_eq(k.as_str(), "subject") {
            match val_string(val) {
                Some(s) => {
                    doc.subject = s;
                },
                None => {},
            }
            proof {
                assert(doc@ =~~= spec_doc_step(prev, ev[i as int].0, ev[i as int].1));
            }
        } else if str_eq(k.as_str(), "description") {
            match val_string(val) {
                Some(s) => {
                    doc.description = s;
                },
                None => {},
            }
            proof {
                assert(doc@ =~~= spec_doc_step(prev, ev[i as int].0, ev[i as int].1));
            }
        } else if str_eq(k.as_str(), "activeForm") {
            match val_string(val) {
                Some(s) => {
                    doc.active_form = s;
                },
                None => {},
            }
            proof {
                assert(doc@ =~~= spec_doc_step(prev, ev[i as int].0, ev[i as int].1));
            }
        } else if str_eq(k.as_str(), "status") {
            match val_string(val) {
                Some(s) => {
                    doc.status_name = s;
                },
                None => {},
            }
            proof {
                assert(doc@ =~~= spec_doc_step(prev, ev[i as int].0, ev[i as int].1));
            }
        } else if str_eq(k.as_str(), "owner") {
            match val_string(val) {
                Some(s) => {
                    doc.owner = s;
                },
                None => {},
            }
            proof {
                assert(doc@ =~~= spec_doc_step(prev, ev[i as int].0, ev[i as int].1));
            }
        } else if str_eq(k.as_str(), "blocks") {
            match string_list_of(val) {
                Some(items) => {
                    doc.blocks = items;
                },
                None => {},
            }
            proof {
                assert(doc@ =~~= spec_doc_step(prev, ev[i as int].0, ev[i as int].1));
            }
        } else if str_eq(k.as_str(), "blockedBy") {
            match string_list_of(val) {
                Some(items) => {
                    doc.blocked_by = items;
                },
                None => {},
            }
            proof {
                assert(doc@ =~~= spec_doc_step(prev, ev[i as int].0, ev[i as int].1));
            }
        } else if str_eq(k.as_str(), "metadata") {
            match val_entries(val) {
                Some(metas) => {
                    let ghost mev = entry_views(metas@);
                    let ghost base = doc@;
                    proof {
                        assert(mev.take(0) =~= Seq::<(Seq<char>, serde_json::Value)>::empty());
                    }
                    let mut j: usize = 0;
                    while j < metas.len()
                        invariant
                            j <= metas@.len(),
                            mev == entry_views(metas@),
                            mev.len() == metas@.len(),
                            doc@ == spec_meta_fold(base, mev.take(j as int)),
                        decreases metas@.len() - j,
                    {
                        proof {
                            assert(mev[j as int] == (metas@[j as int].0@, metas@[j as int].1));
                            assert(mev.take(j + 1).drop_last() =~= mev.take(j as int));
                            assert(mev.take(j + 1).last() == mev[j as int]);
                        }
                        let ghost mprev = doc@;
                        let (mk, mv) = &metas[j];
                        if is_known_meta_key(mk.as_str()) {
                            let text = meta_string_of(mv);
                            if str_eq(mk.as_str(), "priority") {
                                doc.priority_name = text;
                            } else if str_eq(mk.as_str(), "type") {
                                doc.task_type = text;
                            } else if str_eq(mk.as_str(), "parent_id") {
                                doc.parent_id = text;
                            } else if str_eq(mk.as_str(), "branch") {
                                doc.branch = text;
                            } else if str_eq(mk.as_str(), "status_detail") {
                                doc.status_detail = text;
                            } else if str_eq(mk.as_str(), "project") {
                                doc.project = text;
                            } else if str_eq(mk.as_str(), "plan_file") {
                                doc.plan_file = text;
                            } else if str_eq(mk.as_str(), "spec_file") {
                                doc.spec_file = text;
                            } else {
                                doc.slug = text;
                            }
                            proof {
                                assert(doc@ =~~= spec_meta_step(
                                    mprev,
                                    mev[j as int].0,
                                    mev[j as int].1,
                                ));
                            }
                        } else {
                            let ghost old_extra = doc@.meta_extra;
                            match val_string(mv) {
                                Some(s) => {
                                    doc.meta_extra.push((mk.clone(), MetaVal::Text(s)));
                                },
                                None => {
                                    doc.meta_extra.push(
                                        (mk.clone(), MetaVal::Json(json_text(mv))),
                                    );
                                },
                            }
                            proof {
                                assert(doc@.meta_extra =~~= spec_meta_step(
                                    mprev,
                                    mev[j as int].0,
                                    mev[j as int].1,
                                ).meta_extra);
                                assert(doc@ =~~= spec_meta_step(
                                    mprev,
                                    mev[j as int].0,
                                    mev[j as int].1,
                                ));
                            }
                        }
                        j = j + 1;
                    }
                    proof {
                        assert(mev.take(mev.len() as int) =~= mev);
                        assert(doc@ =~~= spec_doc_step(prev, ev[i as int].0, ev[i as int].1));
                    }
                },
                None => {
                    proof {
                        assert(doc@ =~~= spec_doc_step(prev, ev[i as int].0, ev[i as int].1));
                    }
                },
            }
        } else {
            doc.extra.push((k.clone(), json_text(val)));
            proof {
                assert(doc@.extra =~~= spec_doc_step(prev, ev[i as int].0, ev[i as int].1).extra);
                assert(doc@ =~~= spec_doc_step(prev, ev[i as int].0, ev[i as int].1));
            }
        }
        i = i + 1;
    }
    proof {
        assert(ev.take(ev.len() as int) =~= ev);
    }
    Some(doc)
}

fn string_list_of(v: &serde_json::Value) -> (r: Option<Vec<String>>)
    ensures
        match r {
            Some(items) => spec_string_list(*v) == Some(items.deep_view()),
            None => spec_string_list(*v) is None,
        },
{
    match val_array(v) {
        Some(items) => {
            let ghost av = items@;
            let mut out: Vec<String> = Vec::new();
            proof {
                assert(av.take(0) =~= Seq::<serde_json::Value>::empty());
                assert(out.deep_view() =~= Seq::<Seq<char>>::empty());
            }
            let mut i: usize = 0;
            while i < items.len()
                invariant
                    i <= items@.len(),
                    av == items@,
                    arr_of_val(*v) == Some(av),
                    spec_all_strings(av.take(i as int)) == Some(out.deep_view()),
                decreases items@.len() - i,
            {
                proof {
                    assert(av.take(i + 1).drop_last() =~= av.take(i as int));
                    assert(av.take(i + 1).last() == av[i as int]);
                }
                let ghost old_deep = out.deep_view();
                match val_string(&items[i]) {
                    Some(s) => {
                        let ghost sv = s@;
                        out.push(s);
                        proof {
                            assert(out.deep_view() =~= old_deep.push(sv));
                        }
                    },
                    None => {
                        proof {
                            lemma_all_strings_none(av, i as int);
                        }
                        return None;
                    },
                }
                i = i + 1;
            }
            proof {
                assert(av.take(av.len() as int) =~= av);
            }
            Some(out)
        },
        None => None,
    }
}

/// Once an element fails to read as a string, every extension fails too.
proof fn lemma_all_strings_none(a: Seq<serde_json::Value>, i: int)
    requires
        0 <= i < a.len(),
        str_of_val(a[i]) is None,
    ensures
        spec_all_strings(a) is None,
    decreases a.len(),
{
    if a.len() > 0 {
        if i == a.len() - 1 {
        } else {
            lemma_all_strings_none(a.drop_last(), i);
        }
    }
}

/// A typed string entry of the stored object.
pub open spec fn req_entry(k: Seq<char>, text: Seq<char>) -> Seq<(Seq<char>, serde_json::Value)> {
    seq![(k, str_val_of(text))]
}

/// A typed string entry stored only when its text is non-empty.
pub open spec fn opt_entry(k: Seq<char>, text: Seq<char>) -> Seq<(Seq<char>, serde_json::Value)> {
    if text.len() > 0 {
        seq![(k, str_val_of(text))]
    } else {
        Seq::empty()
    }
}

/// A string-list entry stored only when the list is non-empty.
pub open spec fn list_entry(k: Seq<char>, items: Seq<Seq<char>>) -> Seq<
    (Seq<char>, serde_json::Value),
> {
    if items.len() > 0 {
        seq![(k, arr_val_of(items.map_values(|s: Seq<char>| str_val_of(s))))]
    } else {
        Seq::empty()
    }
}

/// The metadata entries a document stores: each typed field under its key
/// when it has a value, then each unmodeled entry — a text kept as a string
/// value, opaque text re-parsed, and skipped when it no longer parses.
pub open spec fn spec_meta_entries(d: RecordDocV) -> Seq<(Seq<char>, serde_json::Value)> {
    opt_entry("priority"@, d.priority_name) + opt_entry("type"@, d.task_type) + opt_entry(
        "parent_id"@,
        d.parent_id,
    ) + opt_entry("branch"@, d.branch) + opt_entry("status_detail"@, d.status_detail) + opt_entry(
        "project"@,
        d.project,
    ) + opt_entry("plan_file"@, d.plan_file) + opt_entry("spec_file"@, d.spec_file) + opt_entry(
        "slug"@,
        d.slug,
    ) + spec_extra_meta(d.meta_extra)
}

pub open spec fn spec_extra_meta(mx: Seq<(Seq<char>, MetaValV)>) -> Seq<
    (Seq<char>, serde_json::Value),
>
    decreases mx.len(),
{
    if mx.len() == 0 {
        Seq::empty()
    } else {
        spec_extra_meta(mx.drop_last()) + (match mx.last().1 {
            MetaValV::Text(s) => seq![(mx.last().0, str_val_of(s))],
            MetaValV::Json(j) => match parsed_val(j) {
                Some(v) => seq![(mx.last().0, v)],
                None => Seq::empty(),
            },
        })
    }
}

/// The unmodeled top-level entries, each re-parsed from its serialized
/// text; an entry whose text no longer parses is skipped.
pub open spec fn spec_extra_entries(ex: Seq<(Seq<char>, Seq<char>)>) -> Seq<
    (Seq<char>, serde_json::Value),
>
    decreases ex.len(),
{
    if ex.len() == 0 {
        Seq::empty()
    } else {
        spec_extra_entries(ex.drop_last()) + (match parsed_val(ex.last().1) {
            Some(v) => seq![(ex.last().0, v)],
            None => Seq::empty(),
        })
    }
}

/// The top-level entries a record document is stored as: the typed fields
/// under their keys (empty optional fields, empty lists and an empty
/// metadata object left out), then the carried-through unmodeled fields.
pub open spec fn spec_value_entries(d: RecordDocV) -> Seq<(Seq<char>, serde_json::Value)> {
    req_entry("id"@, d.id) + req_entry("subject"@, d.subject) + req_entry(
        "description"@,
        d.description,
    ) + req_entry("status"@, d.status_name) + opt_entry("activeForm"@, d.active_form) + opt_entry(
        "owner"@,
        d.owner,
    ) + list_entry("blocks"@, d.blocks) + list_entry("blockedBy"@, d.blocked_by) + (
    if spec_meta_entries(d).len() > 0 {
        seq![("metadata"@, obj_val_of(spec_meta_entries(d)))]
    } else {
        Seq::empty()
    }) + spec_extra_entries(d.extra)
}

/// The value a record document is stored as.
pub open spec fn spec_value_of_doc(d: RecordDocV) -> serde_json::Value {
    obj_val_of(spec_value_entries(d))
}

/// Builds the JSON value a record document is stored as; its entries read
/// back one per key, each holding the last built entry of that key.
pub fn value_of_doc(doc: &RecordDoc) -> (r: serde_json::Value)
    ensures
        r == spec_value_of_doc(doc@),
        obj_reads_back(r, spec_value_entries(doc@)),
{
    let entries = doc_entries(doc);
    proof {
        assert(entry_views(entries@) == spec_value_entries(doc@));
    }
    val_of_entries(entries)
}

/// The entry list of `spec_value_entries`, built in order.
fn doc_entries(doc: &RecordDoc) -> (r: Vec<(String, serde_json::Value)>)
    ensures
        entry_views(r@) == spec_value_entries(doc@),
{
    let ghost dv = doc@;
    let mut entries: Vec<(String, serde_json::Value)> = Vec::new();
    push_entry(&mut entries, "id", val_of_string(doc.id.as_str()));
    proof {
        assert(entry_views(entries@) =~= req_entry("id"@, dv.id));
    }
    let ghost acc1 = req_entry("id"@, dv.id);
    push_entry(&mut entries, "subject", val_of_string(doc.subject.as_str()));
    proof {
        assert(entry_views(entries@) =~= acc1 + req_entry("subject"@, dv.subject));
    }
    let ghost acc2 = acc1 + req_entry("subject"@, dv.subject);
    push_entry(&mut entries, "description", val_of_string(doc.description.as_str()));
    proof {
        assert(entry_views(entries@) =~= acc2 + req_entry("description"@, dv.description));
    }
    let ghost acc3 = acc2 + req_entry("description"@, dv.description);
    push_entry(&mut entries, "status", val_of_string(doc.status_name.as_str()));
    proof {
        assert(entry_views(entries@) =~= acc3 + req_entry("status"@, dv.status_name));
    }
    let ghost acc4 = acc3 + req_entry("status"@, dv.status_name);
    if doc.active_form.as_str().unicode_len() > 0 {
        push_entry(&mut entries, "activeForm", val_of_string(doc.active_form.as_str()));
    }
    proof {
        assert(entry_views(entries@) =~= acc4 + opt_entry("activeForm"@, dv.active_form));
    }
    let ghost acc5 = acc4 + opt_entry("activeForm"@, dv.active_form);
    if doc.owner.as_str().unicode_len() > 0 {
        push_entry(&mut entries, "owner", val_of_string(doc.owner.as_str()));
    }
    proof {
        assert(entry_views(entries@) =~= acc5 + opt_entry("owner"@, dv.owner));
    }
    let ghost acc6 = acc5 + opt_entry("owner"@, dv.owner);
    if doc.blocks.len() > 0 {
        let arr = string_values(&doc.blocks);
        push_entry(&mut entries, "blocks", val_of_array(arr));
    }
    proof {
        assert(entry_views(entries@) =~= acc6 + list_entry("blocks"@, dv.blocks));
    }
    let ghost acc7 = acc6 + list_entry("blocks"@, dv.blocks);
    if doc.blocked_by.len() > 0 {
        let arr = string_values(&doc.blocked_by);
        push_entry(&mut entries, "blockedBy", val_of_array(arr));
    }
    proof {
        assert(entry_views(entries@) =~= acc7 + list_entry("blockedBy"@, dv.blocked_by));
    }
    let ghost acc8 = acc7 + list_entry("blockedBy"@, dv.blocked_by);
    let metas = meta_entries(doc);
    if metas.len() > 0 {
        push_entry(&mut entries, "metadata", val_of_entries(metas));
    } else {
        proof {
            assert(spec_meta_entries(dv).len() == 0);
        }
    }
    proof {
        assert(entry_views(entries@) =~= acc8 + (if spec_meta_entries(dv).len() > 0 {
            seq![("metadata"@, obj_val_of(spec_meta_entries(dv)))]
        } else {
            Seq::<(Seq<char>, serde_json::Value)>::empty()
        }));
    }
    let ghost acc9 = acc8 + (if spec_meta_entries(dv).len() > 0 {
        seq![("metadata"@, obj_val_of(spec_meta_entries(dv)))]
    } else {
        Seq::<(Seq<char>, serde_json::Value)>::empty()
    });
    // The carried-through unmodeled top-level fields.
    let mut i: usize = 0;
    proof {
        assert(dv.extra.take(0) =~= Seq::<(Seq<char>, Seq<char>)>::empty());
        assert(entry_views(entries@) =~= acc9 + spec_extra_entries(dv.extra.take(0)));
    }
    while i < doc.extra.len()
        invariant
            i <= doc.extra@.len(),
            dv == doc@,
            dv.extra.len() == doc.extra@.len(),
            entry_views(entries@) == acc9 + spec_extra_entries(dv.extra.take(i as int)),
        decreases doc.extra@.len() - i,
    {
        proof {
            assert(dv.extra[i as int] == (doc.extra@[i as int].0@, doc.extra@[i as int].1@));
            assert(dv.extra.take(i + 1).drop_last() =~= dv.extra.take(i as int));
            assert(dv.extra.take(i + 1).last() == dv.extra[i as int]);
        }
        let ghost prev_vec = entries@;
        let (k, text) = &doc.extra[i];
        match parse_json(text.as_str()) {
            Some(v) => {
                entries.push((k.clone(), v));
                proof {
                    lemma_entry_views_push(prev_vec, entries@.last());
                    assert(entries@ == prev_vec.push(entries@.last()));
                }
            },
            None => {},
        }
        proof {
            assert(entry_views(entries@) =~= acc9 + spec_extra_entries(dv.extra.take(i + 1)));
        }
        i = i + 1;
    }
    proof {
        assert(dv.extra.take(dv.extra.len() as int) =~= dv.extra);
    }
    entries
}

/// A pushed entry extends the views by one.
proof fn lemma_entry_views_push(
    prev_vec: Seq<(String, serde_json::Value)>,
    x: (String, serde_json::Value),
)
    ensures
        entry_views(prev_vec.push(x)) == entry_views(prev_vec).push((x.0@, x.1)),
{
    assert(entry_views(prev_vec.push(x)) =~= entry_views(prev_vec).push((x.0@, x.1)));
}

fn push_entry(entries: &mut Vec<(String, serde_json::Value)>, key: &str, val: serde_json::Value)
    ensures
        final(entries)@.len() == old(entries)@.len() + 1,
        entry_views(final(entries)@) == entry_views(old(entries)@).push((key@, val)),
{
    let ghost prev = entry_views(entries@);
    entries.push((key.to_owned(), val));
    proof {
        assert(entry_views(entries@) =~= prev.push((key@, val)));
    }
}

/// The metadata entry list of `spec_meta_entries`, built in order.
fn meta_entries(doc: &RecordDoc) -> (r: Vec<(String, serde_json::Value)>)
    ensures
        entry_views(r@) == spec_meta_entries(doc@),
        r@.len() == spec_meta_entries(doc@).len(),
{
    let ghost dv = doc@;
    let mut metas: Vec<(String, serde_json::Value)> = Vec::new();
    push_meta_entry(&mut metas, "priority", &doc.priority_name);
    proof {
        assert(entry_views(metas@) =~= opt_entry("priority"@, dv.priority_name));
    }
    let ghost a1 = opt_entry("priority"@, dv.priority_name);
    push_meta_entry(&mut metas, "type", &doc.task_type);
    proof {
        assert(entry_views(metas@) =~= a1 + opt_entry("type"@, dv.task_type));
    }
    let ghost a2 = a1 + opt_entry("type"@, dv.task_type);
    push_meta_entry(&mut metas, "parent_id", &doc.parent_id);
    proof {
        assert(entry_views(metas@) =~= a2 + opt_entry("parent_id"@, dv.parent_id));
    }
    let ghost a3 = a2 + opt_entry("parent_id"@, dv.parent_id);
    push_meta_entry(&mut metas, "branch", &doc.branch);
    proof {
        assert(entry_views(metas@) =~= a3 + opt_entry("branch"@, dv.branch));
    }
    let ghost a4 = a3 + opt_entry("branch"@, dv.branch);
    push_meta_entry(&mut metas, "status_detail", &doc.status_detail);
    proof {
        assert(entry_views(metas@) =~= a4 + opt_entry("status_detail"@, dv.status_detail));
    }
    let ghost a5 = a4 + opt_entry("status_detail"@, dv.status_detail);
    push_meta_entry(&mut metas, "project", &doc.project);
    proof {
        assert(entry_views(metas@) =~= a5 + opt_entry("project"@, dv.project));
    }
    let ghost a6 = a5 + opt_entry("project"@, dv.project);
    push_meta_entry(&mut metas, "plan_file", &doc.plan_file);
    proof {
        assert(entry_views(metas@) =~= a6 + opt_entry("plan_file"@, dv.plan_file));
    }
    let ghost a7 = a6 + opt_entry("plan_file"@, dv.plan_file);
    push_meta_entry(&mut metas, "spec_file", &doc.spec_file);
    proof {
        assert(entry_views(metas@) =~= a7 + opt_entry("spec_file"@, dv.spec_file));
    }
    let ghost a8 = a7 + opt_entry("spec_file"@, dv.spec_file);
    push_meta_entry(&mut metas, "slug", &doc.slug);
    proof {
        assert(entry_views(metas@) =~= a8 + opt_entry("slug"@, dv.slug));
    }
    let ghost a9 = a8 + opt_entry("slug"@, dv.slug);
    let mut j: usize = 0;
    proof {
        assert(dv.meta_extra.take(0) =~= Seq::<(Seq<char>, MetaValV)>::empty());
        assert(entry_views(metas@) =~= a9 + spec_extra_meta(dv.meta_extra.take(0)));
    }
    while j < doc.meta_extra.len()
        invariant
            j <= doc.meta_extra@.len(),
            dv == doc@,
            dv.meta_extra.len() == doc.meta_extra@.len(),
            entry_views(metas@) == a9 + spec_extra_meta(dv.meta_extra.take(j as int)),
        decreases doc.meta_extra@.len() - j,
    {
        proof {
            assert(dv.meta_extra[j as int] == (
                doc.meta_extra@[j as int].0@,
                doc.meta_extra@[j as int].1@,
            ));
            assert(dv.meta_extra.take(j + 1).drop_last() =~= dv.meta_extra.take(j as int));
            assert(dv.meta_extra.take(j + 1).last() == dv.meta_extra[j as int]);
        }
        let ghost prev_vec = metas@;
        let (mk, mv) = &doc.meta_extra[j];
        match mv {
            MetaVal::Text(s) => {
                metas.push((mk.clone(), val_of_string(s.as_str())));
                proof {
                    lemma_entry_views_push(prev_vec, metas@.last());
                    assert(metas@ == prev_vec.push(metas@.last()));
                }
            },
            MetaVal::Json(text) => {
                match parse_json(text.as_str()) {
                    Some(v) => {
                        metas.push((mk.clone(), v));
                        proof {
                            lemma_entry_views_push(prev_vec, metas@.last());
                            assert(metas@ == prev_vec.push(metas@.last()));
                        }
                    },
                    None => {},
                }
            },
        }
        proof {
            assert(entry_views(metas@) =~= a9 + spec_extra_meta(dv.meta_extra.take(j + 1)));
        }
        j = j + 1;
    }
    proof {
        assert(dv.meta_extra.take(dv.meta_extra.len() as int) =~= dv.meta_extra);
        assert(metas@.len() == entry_views(metas@).len());
    }
    metas
}

/// A metadata field is stored only when it has a value.
fn push_meta_entry(metas: &mut Vec<(String, serde_json::Value)>, key: &str, val: &String)
    ensures
        entry_views(final(metas)@) == entry_views(old(metas)@) + opt_entry(key@, val@),
{
    let ghost prev = entry_views(metas@);
    if val.as_str().unicode_len() > 0 {
        push_entry(metas, key, val_of_string(val.as_str()));
        proof {
            assert(entry_views(metas@) =~= prev + opt_entry(key@, val@));
        }
    } else {
        proof {
            assert(entry_views(metas@) =~= prev + opt_entry(key@, val@));
        }
    }
}

fn string_values(items: &Vec<String>) -> (r: Vec<serde_json::Value>)
    ensures
        r@ == items.deep_view().map_values(|s: Seq<char>| str_val_of(s)),
{
    let ghost target = items.deep_view().map_values(|s: Seq<char>| str_val_of(s));
    let mut out: Vec<serde_json::Value> = Vec::new();
    let mut i: usize = 0;
    proof {
        assert(out@ =~= target.take(0));
    }
    while i < items.len()
        invariant
            i <= items@.len(),
            target == items.deep_view().map_values(|s: Seq<char>| str_val_of(s)),
            target.len() == items@.len(),
            out@ == target.take(i as int),
        decreases items@.len() - i,
    {
        proof {
            assert(items.deep_view()[i as int] == items@[i as int]@);
            assert(target[i as int] == str_val_of(items@[i as int]@));
        }
        out.push(val_of_string(items[i].as_str()));
        proof {
            assert(out@ =~= target.take(i + 1));
        }
        i = i + 1;
    }
    proof {
        assert(target.take(target.len() as int) =~= target);
    }
    out
}

/// Loads one record from its file text: parse failure or a non-object give
/// nothing, so a malformed record file is skipped rather than surfaced. The
/// returned record is exactly the verified decoding of the parsed value's
/// entries.
pub fn load_record(text: &str) -> (r: Option<Task>)
    ensures
        ({
            match parsed_val(text@) {
                None => r is None,
                Some(v) => match entries_of_val(v) {
                    None => r is None,
                    Some(es) => r matches Some(t) && doc_decodes(spec_doc_of_entries(es), t@)
                        && crate::record::status_normalized(t.status@),
                },
            }
        }),
{
    match parse_json(text) {
        Some(v) => {
            match doc_of_value(&v) {
                Some(doc) => Some(doc.task_of_doc()),
                None => None,
            }
        },
        None => None,
    }
}

/// The file text a record is saved as: the verified encoding into the
/// stored document, built into its JSON value, rendered as indented text.
pub fn save_record(task: &Task) -> (r: String)
    ensures
        ({
            exists|d: RecordDocV|
                crate::codec::doc_encodes(task@, d) && r@ == pretty_text_of_val(
                    #[trigger] spec_value_of_doc(d),
                ) && obj_reads_back(spec_value_of_doc(d), spec_value_entries(d))
        }),
{
    let doc = RecordDoc::doc_of_task(task);
    let v = value_of_doc(&doc);
    let r = json_pretty_text(&v);
    proof {
        assert(crate::codec::doc_encodes(task@, doc@) && r@ == pretty_text_of_val(
            spec_value_of_doc(doc@),
        ) && obj_reads_back(spec_value_of_doc(doc@), spec_value_entries(doc@)));
    }
    r
}

/// What one of the hook payload's fields reads as: the string value of the
/// last entry under the key, nothing when the key is absent or its value
/// is not a string.
pub open spec fn spec_hook_field(
    es: Seq<(Seq<char>, serde_json::Value)>,
    k: Seq<char>,
) -> Option<Seq<char>> {
    match spec_entry_last(es, k) {
        Some(v) => str_of_val(v),
        None => None,
    }
}

pub open spec fn opt_string_view(o: Option<String>) -> Option<Seq<char>> {
    match o {
        Some(s) => Some(s@),
        None => None,
    }
}

/// The fields of a notification hook payload: its title, message and
/// notification kind, each absent when missing or not a string. A payload
/// that fails to parse or is not an object is an error.
pub fn parse_hook(json: &str) -> (r: Result<
    (Option<String>, Option<String>, Option<String>),
    String,
>)
    ensures
        ({
            match parsed_val(json@) {
                None => r matches Err(e) && e@ == "JSON parse error"@,
                Some(v) => match entries_of_val(v) {
                    None => r matches Err(e) && e@ == "JSON parse error"@,
                    Some(es) => r matches Ok(f) && opt_string_view(f.0) == spec_hook_field(
                        es,
                        "title"@,
                    ) && opt_string_view(f.1) == spec_hook_field(es, "message"@)
                        && opt_string_view(f.2) == spec_hook_field(es, "notification_type"@),
                },
            }
        }),
{
    let v = match parse_json(json) {
        Some(v) => v,
        None => {
            let mut e = String::new();
            e.append("JSON parse error");
            return Err(e);
        },
    };
    let entries = match val_entries(&v) {
        Some(e) => e,
        None => {
            let mut e = String::new();
            e.append("JSON parse error");
            return Err(e);
        },
    };
    let ghost ev = entry_views(entries@);
    let mut title: Option<String> = None;
    let mut message: Option<String> = None;
    let mut kind: Option<String> = None;
    let mut i: usize = 0;
    proof {
        assert(ev.take(0) =~= Seq::<(Seq<char>, serde_json::Value)>::empty());
    }
    while i < entries.len()
        invariant
            i <= entries@.len(),
            ev == entry_views(entries@),
            ev.len() == entries@.len(),
            opt_string_view(title) == spec_hook_field(ev.take(i as int), "title"@),
            opt_string_view(message) == spec_hook_field(ev.take(i as int), "message"@),
            opt_string_view(kind) == spec_hook_field(ev.take(i as int), "notification_type"@),
        decreases entries@.len() - i,
    {
        proof {
            assert(ev[i as int] == (entries@[i as int].0@, entries@[i as int].1));
            assert(ev.take(i + 1).drop_last() =~= ev.take(i as int));
            assert(ev.take(i + 1).last() == ev[i as int]);
            reveal_strlit("title");
            reveal_strlit("message");
            reveal_strlit("notification_type");
            assert("title"@.len() == 5 && "message"@.len() == 7 && "notification_type"@.len()
                == 17);
        }
        let (k, val) = &entries[i];
        if str_eq(k.as_str(), "title") {
            title = val_string(val);
        } else if str_eq(k.as_str(), "message") {
            message = val_string(val);
        } else if str_eq(k.as_str(), "notification_type") {
            kind = val_string(val);
        }
        i = i + 1;
    }
    proof {
        assert(ev.take(ev.len() as int) =~= ev);
    }
    Ok((title, message, kind))
}

/// The partition identifier a settings document names: the string under
/// the override key inside the document's `env` object.
pub fn settings_list_id(text: &str) -> (r: Option<String>)
    ensures
        ({
            let found = match parsed_val(text@) {
                None => None::<Seq<char>>,
                Some(v) => match entries_of_val(v) {
                    None => None,
                    Some(es) => match spec_entry_first(es, "env"@) {
                        None => None,
                        Some(env) => match entries_of_val(env) {
                            None => None,
                            Some(envs) => match spec_entry_first(envs, "TASKDECK_LIST_ID"@) {
                                None => None,
                                Some(idv) => str_of_val(idv),
                            },
                        },
                    },
                },
            };
            opt_string_view(r) == found
        }),
{
    let v = match parse_json(text) {
        Some(v) => v,
        None => {
            return None;
        },
    };
    let entries = match val_entries(&v) {
        Some(e) => e,
        None => {
            return None;
        },
    };
    let env = match find_entry(&entries, "env") {
        Some(e) => e,
        None => {
            return None;
        },
    };
    let envs = match val_entries(&env) {
        Some(e) => e,
        None => {
            return None;
        },
    };
    let idv = match find_entry(&envs, "TASKDECK_LIST_ID") {
        Some(e) => e,
        None => {
            return None;
        },
    };
    val_string(&idv)
}

/// Relies on serde_json::Value::clone (via the entry list): the first entry
/// under a key, as a value of its own.
fn find_entry(entries: &Vec<(String, serde_json::Value)>, key: &str) -> (r: Option<
    serde_json::Value,
>)
    ensures
        match r {
            Some(v) => spec_entry_first(entry_views(entries@), key@) == Some(v),
            None => spec_entry_first(entry_views(entries@), key@) is None,
        },
{
    let ghost ev = entry_views(entries@);
    let mut i: usize = 0;
    proof {
        assert(ev.skip(0) =~= ev);
    }
    while i < entries.len()
        invariant
            i <= entries@.len(),
            ev == entry_views(entries@),
            ev.len() == entries@.len(),
            spec_entry_first(ev, key@) == spec_entry_first(ev.skip(i as int), key@),
        decreases entries@.len() - i,
    {
        proof {
            assert(ev[i as int] == (entries@[i as int].0@, entries@[i as int].1));
            assert(ev.skip(i as int)[0] == ev[i as int]);
            assert(ev.skip(i as int).skip(1) =~= ev.skip(i + 1));
        }
        let (k, val) = &entries[i];
        if str_eq(k.as_str(), key) {
            return Some(clone_value(val));
        }
        i = i + 1;
    }
    proof {
        assert(ev.skip(ev.len() as int) =~= Seq::<(Seq<char>, serde_json::Value)>::empty());
    }
    None
}

/// Relies on serde_json::Value::clone: an equal value.
#[verifier::external_body]
fn clone_value(v: &serde_json::Value) -> (r: serde_json::Value)
    ensures
        r == *v,
{
    v.clone()
}

} // verus!
