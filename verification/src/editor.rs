//! The free-form editor round trip: a record rendered as an editable text
//! draft, and the draft parsed back into the record, with metadata edits
//! merged over the original.

use vstd::prelude::*;
use crate::codec::{cleared, spec_cleared};
use crate::filter::clone_task;
use crate::record::{MetaVal, MetaValV, Priority, Status, Task, TaskV};
use crate::record::{spec_priority_from, spec_status_from, status_str, priority_str};
use crate::filter::{lex_le, lex_le_chars};
use crate::strutil::{
    find_char, lines_of, slice_range, spec_find_char, spec_trim, split_lines, str_chars,
    string_of_chars, trim_chars, chars_eq, str_eq,
};

verus! {

/// The views of a pair list.
pub open spec fn pair_views(v: Seq<(String, String)>) -> Seq<(Seq<char>, Seq<char>)> {
    Seq::new(v.len(), |k: int| (v[k].0@, v[k].1@))
}

/// The typed metadata fields in display order, with their stored values.
pub open spec fn spec_typed_pairs(t: TaskV) -> Seq<(Seq<char>, Seq<char>)> {
    seq![
        ("branch"@, spec_cleared(t.branch)),
        ("parent_id"@, spec_cleared(t.parent_id)),
        ("plan_file"@, spec_cleared(t.plan_file)),
        (
            "priority"@,
            if t.priority is Unset {
                Seq::<char>::empty()
            } else {
                priority_str(t.priority)
            },
        ),
        ("project"@, spec_cleared(t.project)),
        ("slug"@, spec_cleared(t.slug)),
        ("spec_file"@, spec_cleared(t.spec_file)),
        ("status_detail"@, spec_cleared(t.status_detail)),
        ("type"@, spec_cleared(t.task_type)),
    ]
}

/// The unmodeled entries the draft shows: text values as they are, opaque
/// values as their serialized text, null values left out entirely.
pub open spec fn spec_shown_extras(mx: Seq<(Seq<char>, MetaValV)>) -> Seq<(Seq<char>, Seq<char>)>
    decreases mx.len(),
{
    if mx.len() == 0 {
        Seq::empty()
    } else {
        spec_shown_extras(mx.drop_last()) + (match mx.last().1 {
            MetaValV::Text(s) => seq![(mx.last().0, s)],
            MetaValV::Json(j) => if j == "null"@ {
                Seq::<(Seq<char>, Seq<char>)>::empty()
            } else {
                seq![(mx.last().0, j)]
            },
        })
    }
}

/// The candidate metadata entries before ordering: every stored typed field
/// and every shown unmodeled entry.
pub open spec fn spec_meta_candidates(t: TaskV) -> Seq<(Seq<char>, Seq<char>)> {
    spec_typed_pairs(t).filter(|p: (Seq<char>, Seq<char>)| p.1.len() > 0) + spec_shown_extras(
        t.meta_extra,
    )
}

/// Where a metadata entry lands when inserted into a key-ordered run from
/// the right: after every entry whose key does not order after its own, so
/// entries with equal keys keep their order.
pub open spec fn spec_pair_insert(
    x: (Seq<char>, Seq<char>),
    s: Seq<(Seq<char>, Seq<char>)>,
) -> Seq<(Seq<char>, Seq<char>)>
    decreases s.len(),
{
    if s.len() == 0 {
        seq![x]
    } else if !lex_le(s.last().0, x.0) {
        spec_pair_insert(x, s.drop_last()).push(s.last())
    } else {
        s.push(x)
    }
}

/// Insertion sort of metadata entries by key.
pub open spec fn spec_sort_pairs(s: Seq<(Seq<char>, Seq<char>)>) -> Seq<(Seq<char>, Seq<char>)>
    decreases s.len(),
{
    if s.len() == 0 {
        Seq::empty()
    } else {
        spec_pair_insert(s.last(), spec_sort_pairs(s.drop_last()))
    }
}

/// The metadata entries a record draft shows: every stored typed field and
/// every non-null unmodeled entry, all in one key-sorted order.
pub open spec fn spec_meta_pairs(t: TaskV) -> Seq<(Seq<char>, Seq<char>)> {
    spec_sort_pairs(spec_meta_candidates(t))
}

/// `spec_pair_insert` laid out explicitly: the entry lands at the first
/// spot, counted from the right, whose left neighbour's key does not order
/// after its own.
proof fn lemma_pair_insert_at(
    x: (Seq<char>, Seq<char>),
    s: Seq<(Seq<char>, Seq<char>)>,
    p: int,
)
    requires
        0 <= p <= s.len(),
        forall|k: int| p <= k < s.len() ==> !lex_le((#[trigger] s[k]).0, x.0),
        p > 0 ==> lex_le(s[p - 1].0, x.0),
    ensures
        spec_pair_insert(x, s) == s.take(p) + seq![x] + s.skip(p),
    decreases s.len(),
{
    if p == s.len() {
        if s.len() == 0 {
            assert(spec_pair_insert(x, s) =~= s.take(p) + seq![x] + s.skip(p));
        } else {
            assert(lex_le(s.last().0, x.0));
            assert(spec_pair_insert(x, s) == s.push(x));
            assert(s.push(x) =~= s.take(p) + seq![x] + s.skip(p));
        }
    } else {
        assert(!lex_le(s.last().0, x.0));
        lemma_pair_insert_at(x, s.drop_last(), p);
        assert(s.drop_last().take(p) =~= s.take(p));
        assert(s.drop_last().skip(p) =~= s.skip(p).drop_last());
        assert((s.take(p) + seq![x] + s.skip(p).drop_last()).push(s.last()) =~= s.take(p)
            + seq![x] + s.skip(p));
    }
}

/// Whether one key orders at-most the other.
fn key_le(a: &String, b: &String) -> (r: bool)
    ensures
        r == lex_le(a@, b@),
{
    let ac = str_chars(a.as_str());
    let bc = str_chars(b.as_str());
    lex_le_chars(ac.as_slice(), bc.as_slice())
}

fn insert_pair_sorted(x: (String, String), r: &mut Vec<(String, String)>)
    ensures
        pair_views(final(r)@) == spec_pair_insert((x.0@, x.1@), pair_views(old(r)@)),
{
    let ghost dv = pair_views(r@);
    let mut p: usize = r.len();
    while p > 0 && !key_le(&r[p - 1].0, &x.0)
        invariant
            p <= r@.len(),
            dv == pair_views(r@),
            dv.len() == r@.len(),
            forall|k: int| p <= k < dv.len() ==> !lex_le((#[trigger] dv[k]).0, x.0@),
        decreases p,
    {
        proof {
            assert(dv[p - 1] == (r@[p - 1].0@, r@[p - 1].1@));
        }
        p = p - 1;
    }
    proof {
        if p > 0 {
            assert(dv[p - 1] == (r@[p - 1].0@, r@[p - 1].1@));
        }
        lemma_pair_insert_at((x.0@, x.1@), dv, p as int);
    }
    let ghost xv = (x.0@, x.1@);
    r.insert(p, x);
    proof {
        assert(pair_views(r@) =~= dv.take(p as int) + seq![xv] + dv.skip(p as int));
    }
}

/// Sorts metadata entries by key, entries with equal keys keeping their
/// order.
fn sort_pairs(v: Vec<(String, String)>) -> (r: Vec<(String, String)>)
    ensures
        pair_views(r@) == spec_sort_pairs(pair_views(v@)),
{
    let ghost cv = pair_views(v@);
    let mut r: Vec<(String, String)> = Vec::new();
    let mut i: usize = 0;
    proof {
        assert(cv.take(0) =~= Seq::<(Seq<char>, Seq<char>)>::empty());
        assert(pair_views(r@) =~= spec_sort_pairs(cv.take(0)));
    }
    while i < v.len()
        invariant
            i <= v@.len(),
            cv == pair_views(v@),
            cv.len() == v@.len(),
            pair_views(r@) == spec_sort_pairs(cv.take(i as int)),
        decreases v@.len() - i,
    {
        proof {
            assert(cv[i as int] == (v@[i as int].0@, v@[i as int].1@));
            assert(cv.take(i + 1).drop_last() =~= cv.take(i as int));
            assert(cv.take(i + 1).last() == cv[i as int]);
        }
        let (k, val) = &v[i];
        insert_pair_sorted((k.clone(), val.clone()), &mut r);
        i = i + 1;
    }
    proof {
        assert(cv.take(cv.len() as int) =~= cv);
    }
    r
}

/// One metadata line of the draft.
pub open spec fn spec_meta_line(p: (Seq<char>, Seq<char>)) -> Seq<char> {
    p.0 + ": "@ + p.1 + "\n"@
}

pub open spec fn spec_meta_lines(ps: Seq<(Seq<char>, Seq<char>)>) -> Seq<char>
    decreases ps.len(),
{
    if ps.len() == 0 {
        Seq::empty()
    } else {
        spec_meta_lines(ps.drop_last()) + spec_meta_line(ps.last())
    }
}

/// The draft's opening lines.
pub open spec fn spec_head(t: TaskV) -> Seq<char> {
    "Subject: "@ + t.subject + "\n"@ + "Status: "@ + status_str(t.status) + "\n"@ + (
    if t.active_form.len() > 0 {
        "ActiveForm: "@ + t.active_form + "\n"@
    } else {
        Seq::<char>::empty()
    })
}

/// The editable draft of a record: its subject, status and active form,
/// its metadata entries, its description, and the trailing comment lines
/// with the record's identifier and the editing rules.
pub open spec fn spec_marshal(t: TaskV) -> Seq<char> {
    let meta = {
        let ps = spec_meta_pairs(t);
        if ps.len() > 0 {
            "\n## Metadata\n"@ + spec_meta_lines(ps)
        } else {
            Seq::<char>::empty()
        }
    };
    let desc = "\n## Description\n"@ + (if t.description.len() > 0 {
        t.description + "\n"@
    } else {
        Seq::<char>::empty()
    });
    let tail = "\n# ID: "@ + t.id + "\n"@
        + "# Edit fields above. Lines starting with '#' are ignored.\n"@
        + "# Empty metadata values are removed. Use -- to explicitly clear.\n"@;
    spec_head(t) + meta + desc + tail
}

fn owned(s: &str) -> (r: String)
    ensures
        r@ == s@,
{
    s.to_owned()
}

/// The metadata entries of the draft, as rendered.
fn meta_pairs(task: &Task) -> (r: Vec<(String, String)>)
    ensures
        pair_views(r@) == spec_meta_pairs(task@),
{
    let ghost tv = task@;
    // The typed candidates, in display order.
    let mut typed: Vec<(String, String)> = Vec::new();
    typed.push((owned("branch"), cleared(&task.branch)));
    typed.push((owned("parent_id"), cleared(&task.parent_id)));
    typed.push((owned("plan_file"), cleared(&task.plan_file)));
    let prio = if task.priority == Priority::Unset {
        proof {
            reveal_strlit("");
        }
        String::new()
    } else {
        owned(task.priority.as_str())
    };
    typed.push((owned("priority"), prio));
    typed.push((owned("project"), cleared(&task.project)));
    typed.push((owned("slug"), cleared(&task.slug)));
    typed.push((owned("spec_file"), cleared(&task.spec_file)));
    typed.push((owned("status_detail"), cleared(&task.status_detail)));
    typed.push((owned("type"), cleared(&task.task_type)));
    proof {
        assert(pair_views(typed@) =~= spec_typed_pairs(tv));
    }
    // Keep the stored ones.
    let ghost keep = |p: (Seq<char>, Seq<char>)| p.1.len() > 0;
    let ghost views = spec_typed_pairs(tv);
    let mut out: Vec<(String, String)> = Vec::new();
    let mut i: usize = 0;
    proof {
        assert(views.take(0) =~= Seq::<(Seq<char>, Seq<char>)>::empty());
        reveal_with_fuel(Seq::filter, 1);
        assert(pair_views(out@) =~= views.take(0).filter(keep));
    }
    while i < typed.len()
        invariant
            i <= typed@.len(),
            pair_views(typed@) == views,
            views.len() == typed@.len(),
            keep == (|p: (Seq<char>, Seq<char>)| p.1.len() > 0),
            pair_views(out@) == views.take(i as int).filter(keep),
        decreases typed@.len() - i,
    {
        proof {
            assert(views[i as int] == (typed@[i as int].0@, typed@[i as int].1@));
            assert(views.take(i + 1).drop_last() =~= views.take(i as int));
            assert(views.take(i + 1).last() == views[i as int]);
            reveal_with_fuel(Seq::filter, 2);
        }
        let ghost old_ov = out@;
        let (k, v) = &typed[i];
        if v.as_str().unicode_len() > 0 {
            out.push((k.clone(), v.clone()));
            proof {
                assert(views.take(i + 1).filter(keep) == views.take(i as int).filter(keep).push(
                    views[i as int],
                ));
                assert(pair_views(out@).len() == out@.len());
                assert(pair_views(out@)[old_ov.len() as int] == views[i as int]);
                assert forall|q: int| 0 <= q < old_ov.len() implies pair_views(out@)[q]
                    == pair_views(old_ov)[q] by {
                    assert(out@[q] == old_ov[q]);
                }
                assert(pair_views(out@) =~= views.take(i + 1).filter(keep));
            }
        } else {
            proof {
                assert(views.take(i + 1).filter(keep) == views.take(i as int).filter(keep));
            }
        }
        i = i + 1;
    }
    proof {
        assert(views.take(views.len() as int) =~= views);
    }
    let ghost filtered = views.filter(keep);
    // Then the shown unmodeled entries, in stored order; null values are
    // not shown.
    let mut j: usize = 0;
    proof {
        assert(tv.meta_extra.take(0) =~= Seq::<(Seq<char>, MetaValV)>::empty());
        assert(pair_views(out@) =~= filtered + spec_shown_extras(tv.meta_extra.take(0)));
    }
    while j < task.meta_extra.len()
        invariant
            j <= task.meta_extra@.len(),
            tv == task@,
            tv.meta_extra.len() == task.meta_extra@.len(),
            pair_views(out@) == filtered + spec_shown_extras(tv.meta_extra.take(j as int)),
        decreases task.meta_extra@.len() - j,
    {
        proof {
            assert(tv.meta_extra[j as int] == (
                task.meta_extra@[j as int].0@,
                task.meta_extra@[j as int].1@,
            ));
            assert(tv.meta_extra.take(j + 1).drop_last() =~= tv.meta_extra.take(j as int));
            assert(tv.meta_extra.take(j + 1).last() == tv.meta_extra[j as int]);
        }
        let ghost prev_vec = out@;
        let (mk, mv) = &task.meta_extra[j];
        match mv {
            MetaVal::Text(s) => {
                out.push((mk.clone(), s.clone()));
                proof {
                    lemma_pair_views_push(prev_vec, out@.last());
                    assert(out@ == prev_vec.push(out@.last()));
                    assert(pair_views(out@) =~= filtered + spec_shown_extras(
                        tv.meta_extra.take(j + 1),
                    ));
                }
            },
            MetaVal::Json(jx) => {
                if !str_eq(jx.as_str(), "null") {
                    out.push((mk.clone(), jx.clone()));
                    proof {
                        lemma_pair_views_push(prev_vec, out@.last());
                        assert(out@ == prev_vec.push(out@.last()));
                        assert(pair_views(out@) =~= filtered + spec_shown_extras(
                            tv.meta_extra.take(j + 1),
                        ));
                    }
                } else {
                    proof {
                        assert(pair_views(out@) =~= filtered + spec_shown_extras(
                            tv.meta_extra.take(j + 1),
                        ));
                    }
                }
            },
        }
        j = j + 1;
    }
    proof {
        assert(tv.meta_extra.take(tv.meta_extra.len() as int) =~= tv.meta_extra);
    }
    sort_pairs(out)
}

/// A pushed pair extends the views by one.
proof fn lemma_pair_views_push(prev_vec: Seq<(String, String)>, x: (String, String))
    ensures
        pair_views(prev_vec.push(x)) == pair_views(prev_vec).push((x.0@, x.1@)),
{
    assert(pair_views(prev_vec.push(x)) =~= pair_views(prev_vec).push((x.0@, x.1@)));
}

/// Renders a record as its editable draft.
#[verifier::rlimit(80)]
pub fn marshal_task(task: &Task) -> (r: String)
    ensures
        r@ == spec_marshal(task@),
{
    let mut r = String::new();
    r.append("Subject: ");
    r.append(task.subject.as_str());
    r.append("\n");
    r.append("Status: ");
    r.append(task.status.as_str());
    r.append("\n");
    if task.active_form.as_str().unicode_len() > 0 {
        r.append("ActiveForm: ");
        r.append(task.active_form.as_str());
        r.append("\n");
    }
    proof {
        assert(r@ =~= spec_head(task@));
    }
    let pairs = meta_pairs(task);
    if pairs.len() > 0 {
        r.append("\n## Metadata\n");
        let ghost ps = spec_meta_pairs(task@);
        let ghost base = r@;
        let mut i: usize = 0;
        proof {
            assert(ps.take(0) =~= Seq::<(Seq<char>, Seq<char>)>::empty());
            assert(r@ =~= base + spec_meta_lines(ps.take(0)));
        }
        while i < pairs.len()
            invariant
                i <= pairs@.len(),
                pairs@.len() == ps.len(),
                pair_views(pairs@) == ps,
                r@ == base + spec_meta_lines(ps.take(i as int)),
            decreases pairs@.len() - i,
        {
            proof {
                assert(ps.take(i + 1).drop_last() =~= ps.take(i as int));
                assert(ps.take(i + 1).last() == ps[i as int]);
                assert(pair_views(pairs@)[i as int] == (pairs@[i as int].0@, pairs@[i as int].1@));
            }
            let (k, v) = &pairs[i];
            r.append(k.as_str());
            r.append(": ");
            r.append(v.as_str());
            r.append("\n");
            proof {
                assert(r@ =~= base + spec_meta_lines(ps.take(i + 1)));
            }
            i = i + 1;
        }
        proof {
            assert(ps.take(ps.len() as int) =~= ps);
        }
    } else {
        proof {
            assert(pair_views(pairs@).len() == 0);
        }
    }
    r.append("\n## Description\n");
    if task.description.as_str().unicode_len() > 0 {
        r.append(task.description.as_str());
        r.append("\n");
    }
    r.append("\n# ID: ");
    r.append(task.id.as_str());
    r.append("\n");
    r.append("# Edit fields above. Lines starting with '#' are ignored.\n");
    r.append("# Empty metadata values are removed. Use -- to explicitly clear.\n");
    proof {
        assert(r@ =~= spec_marshal(task@));
    }
    r
}

/// What one draft line contributes while parsing: which section it opens,
/// or which field it sets.
pub open spec fn is_comment_line(l: Seq<char>) -> bool {
    l.len() >= 1 && l[0] == '#' && !starts_with_hh(l)
}

pub open spec fn starts_with_hh(l: Seq<char>) -> bool {
    l.len() >= 3 && l[0] == '#' && l[1] == '#' && l[2] == ' '
}

/// The parser's gathered state: subject, status name, active form, the
/// metadata edits in order (an empty or clear-marker value marks removal),
/// the description lines, and the open section (0 header, 1 metadata, 2
/// description).
pub open spec fn spec_unmarshal_step(
    st: (Seq<char>, Seq<char>, Seq<char>, Seq<(Seq<char>, Option<Seq<char>>)>, Seq<Seq<char>>, int),
    line: Seq<char>,
) -> (Seq<char>, Seq<char>, Seq<char>, Seq<(Seq<char>, Option<Seq<char>>)>, Seq<Seq<char>>, int) {
    let (subject, status, active, metas, desc, section) = st;
    if is_comment_line(line) {
        st
    } else if spec_trim(line) == "## Metadata"@ {
        (subject, status, active, metas, desc, 1int)
    } else if spec_trim(line) == "## Description"@ {
        (subject, status, active, metas, desc, 2int)
    } else if section == 0 {
        if line.len() == 0 {
            st
        } else {
            match spec_find_char(line, ':', 0) {
                Some(i) => {
                    let key = spec_trim(line.take(i));
                    let val = spec_trim(line.skip(i + 1));
                    if key == "Subject"@ {
                        (val, status, active, metas, desc, section)
                    } else if key == "Status"@ {
                        (subject, val, active, metas, desc, section)
                    } else if key == "ActiveForm"@ {
                        (subject, status, val, metas, desc, section)
                    } else {
                        st
                    }
                },
                None => st,
            }
        }
    } else if section == 1 {
        if line.len() == 0 {
            st
        } else {
            match spec_find_char(line, ':', 0) {
                Some(i) => {
                    let key = spec_trim(line.take(i));
                    let val = spec_trim(line.skip(i + 1));
                    if val.len() == 0 || val == "--"@ {
                        (subject, status, active, metas.push((key, None)), desc, section)
                    } else {
                        (subject, status, active, metas.push((key, Some(val))), desc, section)
                    }
                },
                None => st,
            }
        }
    } else {
        (subject, status, active, metas, desc.push(line), section)
    }
}

pub open spec fn spec_unmarshal_fold(ls: Seq<Seq<char>>) -> (
    Seq<char>,
    Seq<char>,
    Seq<char>,
    Seq<(Seq<char>, Option<Seq<char>>)>,
    Seq<Seq<char>>,
    int,
)
    decreases ls.len(),
{
    if ls.len() == 0 {
        (Seq::empty(), Seq::empty(), Seq::empty(), Seq::empty(), Seq::empty(), 0int)
    } else {
        spec_unmarshal_step(spec_unmarshal_fold(ls.drop_last()), ls.last())
    }
}

/// The description text: the gathered lines joined with newlines, trimmed.
pub open spec fn spec_desc_text(desc: Seq<Seq<char>>) -> Seq<char>
    decreases desc.len(),
{
    if desc.len() == 0 {
        Seq::empty()
    } else if desc.len() == 1 {
        desc[0]
    } else {
        spec_desc_text(desc.drop_last()) + seq!['\n'] + desc.last()
    }
}

/// One metadata edit applied to the record: the typed fields under their
/// stored keys (removal clears them), any other key updating or removing
/// the unmodeled entry of that name.
pub open spec fn spec_apply_meta(t: TaskV, key: Seq<char>, val: Option<Seq<char>>) -> TaskV {
    let text = match val {
        Some(v) => v,
        None => Seq::<char>::empty(),
    };
    if key == "priority"@ {
        TaskV { priority: spec_priority_from(text), ..t }
    } else if key == "type"@ {
        TaskV { task_type: text, ..t }
    } else if key == "parent_id"@ {
        TaskV { parent_id: text, ..t }
    } else if key == "branch"@ {
        TaskV { branch: text, ..t }
    } else if key == "status_detail"@ {
        TaskV { status_detail: text, ..t }
    } else if key == "project"@ {
        TaskV { project: text, ..t }
    } else if key == "plan_file"@ {
        TaskV { plan_file: text, ..t }
    } else if key == "spec_file"@ {
        TaskV { spec_file: text, ..t }
    } else if key == "slug"@ {
        TaskV { slug: text, ..t }
    } else {
        let dropped = t.meta_extra.filter(|m: (Seq<char>, MetaValV)| m.0 != key);
        match val {
            Some(v) => TaskV { meta_extra: dropped.push((key, MetaValV::Text(v))), ..t },
            None => TaskV { meta_extra: dropped, ..t },
        }
    }
}

pub open spec fn spec_apply_metas(t: TaskV, metas: Seq<(Seq<char>, Option<Seq<char>>)>) -> TaskV
    decreases metas.len(),
{
    if metas.len() == 0 {
        t
    } else {
        spec_apply_meta(spec_apply_metas(t, metas.drop_last()), metas.last().0, metas.last().1)
    }
}

/// The record a parsed draft denotes, over the original record.
pub open spec fn spec_unmarshal(text: Seq<char>, original: TaskV) -> Option<TaskV> {
    let (subject, status, active, metas, desc, _) = spec_unmarshal_fold(lines_of(text));
    if subject.len() == 0 {
        None
    } else {
        let base = TaskV {
            subject,
            description: spec_trim(spec_desc_text(desc)),
            active_form: active,
            status: if status.len() > 0 {
                spec_status_from(status)
            } else {
                original.status
            },
            ..original
        };
        Some(spec_apply_metas(base, metas))
    }
}

/// Parses an edited draft back into a record, over the original: the
/// draft's subject, status, active form and description replace the
/// original's, and each metadata line updates or removes its field. A
/// draft without a subject is rejected.
pub fn unmarshal_task(text: &str, original: &Task) -> (r: Result<Task, String>)
    ensures
        match r {
            Ok(t) => spec_unmarshal(text@, original@) == Some(t@),
            Err(e) => spec_unmarshal(text@, original@) is None && e@ == "subject is required"@,
        },
{
    let cs = str_chars(text);
    let ls = split_lines(cs.as_slice());
    let ghost lv = ls.deep_view();
    let mut subject: Vec<char> = Vec::new();
    let mut status_name: Vec<char> = Vec::new();
    let mut active: Vec<char> = Vec::new();
    let mut metas: Vec<(String, Option<String>)> = Vec::new();
    let mut desc: Vec<Vec<char>> = Vec::new();
    let mut section: u8 = 0;
    let mut i: usize = 0;
    proof {
        assert(lv.take(0) =~= Seq::<Seq<char>>::empty());
        reveal_strlit("## Metadata");
        reveal_strlit("## Description");
        reveal_strlit("--");
        reveal_strlit("Subject");
        reveal_strlit("Status");
        reveal_strlit("ActiveForm");
        assert(meta_views(metas@) =~= Seq::<(Seq<char>, Option<Seq<char>>)>::empty());
        assert(desc.deep_view() =~= Seq::<Seq<char>>::empty());
    }
    while i < ls.len()
        invariant
            i <= ls@.len(),
            lv == ls.deep_view(),
            lv.len() == ls@.len(),
            section <= 2,
            ({
                let st = spec_unmarshal_fold(lv.take(i as int));
                &&& subject@ == st.0
                &&& status_name@ == st.1
                &&& active@ == st.2
                &&& meta_views(metas@) == st.3
                &&& desc.deep_view() == st.4
                &&& section as int == st.5
            }),
        decreases ls@.len() - i,
    {
        proof {
            assert(lv[i as int] == ls@[i as int]@);
            assert(lv.take(i + 1).drop_last() =~= lv.take(i as int));
            assert(lv.take(i + 1).last() == lv[i as int]);
        }
        let line = &ls[i];
        let ln = line.len();
        let is_comment = ln >= 1 && line[0] == '#' && !(ln >= 3 && line[0] == '#' && line[1] == '#'
            && line[2] == ' ');
        if is_comment {
        } else {
            let t = trim_chars(line.as_slice());
            let md = str_chars("## Metadata");
            let dd = str_chars("## Description");
            if chars_eq(t.as_slice(), md.as_slice()) {
                section = 1;
            } else if chars_eq(t.as_slice(), dd.as_slice()) {
                section = 2;
            } else if section == 0 {
                if ln == 0 {
                } else {
                    match find_char(line.as_slice(), ':') {
                        Some(ci) => {
                            let key_part = slice_range(line.as_slice(), 0, ci);
                            let key = trim_chars(key_part.as_slice());
                            let val_part = slice_range(line.as_slice(), ci + 1, ln);
                            let val = trim_chars(val_part.as_slice());
                            proof {
                                assert(key_part@ =~= lv[i as int].take(ci as int));
                                assert(val_part@ =~= lv[i as int].skip(ci + 1));
                            }
                            let sub_k = str_chars("Subject");
                            let st_k = str_chars("Status");
                            let af_k = str_chars("ActiveForm");
                            if chars_eq(key.as_slice(), sub_k.as_slice()) {
                                subject = val;
                            } else if chars_eq(key.as_slice(), st_k.as_slice()) {
                                status_name = val;
                            } else if chars_eq(key.as_slice(), af_k.as_slice()) {
                                active = val;
                            }
                        },
                        None => {},
                    }
                }
            } else if section == 1 {
                if ln == 0 {
                } else {
                    match find_char(line.as_slice(), ':') {
                        Some(ci) => {
                            let key_part = slice_range(line.as_slice(), 0, ci);
                            let key = trim_chars(key_part.as_slice());
                            let val_part = slice_range(line.as_slice(), ci + 1, ln);
                            let val = trim_chars(val_part.as_slice());
                            proof {
                                assert(key_part@ =~= lv[i as int].take(ci as int));
                                assert(val_part@ =~= lv[i as int].skip(ci + 1));
                            }
                            let ghost old_mv = meta_views(metas@);
                            let clear = str_chars("--");
                            if val.len() == 0 || chars_eq(val.as_slice(), clear.as_slice()) {
                                metas.push((string_of_chars(key.as_slice()), None));
                                proof {
                                    assert(meta_views(metas@) =~= old_mv.push((key@, None)));
                                }
                            } else {
                                metas.push(
                                    (
                                        string_of_chars(key.as_slice()),
                                        Some(string_of_chars(val.as_slice())),
                                    ),
                                );
                                proof {
                                    assert(meta_views(metas@) =~= old_mv.push((key@, Some(val@))));
                                }
                            }
                        },
                        None => {},
                    }
                }
            } else {
                let ghost old_desc = desc.deep_view();
                let copy = slice_range(line.as_slice(), 0, ln);
                proof {
                    assert(copy@ =~= lv[i as int]);
                }
                desc.push(copy);
                proof {
                    assert(desc.deep_view() =~= old_desc.push(lv[i as int]));
                }
            }
        }
        i = i + 1;
    }
    proof {
        assert(lv.take(lv.len() as int) =~= lv);
    }
    if subject.len() == 0 {
        return Err(owned("subject is required"));
    }
    // Assemble the description, then apply the edits over the original.
    let mut desc_text: Vec<char> = Vec::new();
    let mut d: usize = 0;
    let ghost dv2 = desc.deep_view();
    proof {
        assert(dv2.take(0) =~= Seq::<Seq<char>>::empty());
        assert(desc_text@ =~= spec_desc_text(dv2.take(0)));
        reveal_strlit("\n");
        assert("\n"@.len() == 1);
    }
    while d < desc.len()
        invariant
            d <= desc@.len(),
            dv2 == desc.deep_view(),
            dv2.len() == desc@.len(),
            desc_text@ == spec_desc_text(dv2.take(d as int)),
            "\n"@.len() == 1,
        decreases desc@.len() - d,
    {
        proof {
            assert(dv2[d as int] == desc@[d as int]@);
            assert(dv2.take(d + 1).drop_last() =~= dv2.take(d as int));
            assert(dv2.take(d + 1).last() == dv2[d as int]);
        }
        if d > 0 {
            desc_text.push('\n');
        }
        let mut q: usize = 0;
        let ghost base = desc_text@;
        while q < desc[d].len()
            invariant
                d < desc@.len(),
                q <= desc@[d as int]@.len(),
                desc_text@ == base + desc@[d as int]@.take(q as int),
            decreases desc@[d as int]@.len() - q,
        {
            desc_text.push(desc[d][q]);
            proof {
                assert(desc_text@ =~= base + desc@[d as int]@.take(q + 1));
            }
            q = q + 1;
        }
        proof {
            assert(desc@[d as int]@.take(desc@[d as int]@.len() as int) =~= dv2[d as int]);
            if d == 0 {
                assert(dv2.take(1).len() == 1);
                assert(desc_text@ =~= spec_desc_text(dv2.take(1)));
            } else {
                assert(desc_text@ =~= spec_desc_text(dv2.take(d as int)) + seq!['\n']
                    + dv2[d as int]);
            }
        }
        d = d + 1;
    }
    proof {
        assert(dv2.take(dv2.len() as int) =~= dv2);
    }
    let trimmed_desc = trim_chars(desc_text.as_slice());

    let mut task = clone_task(original);
    task.subject = string_of_chars(subject.as_slice());
    task.description = string_of_chars(trimmed_desc.as_slice());
    task.active_form = string_of_chars(active.as_slice());
    if status_name.len() > 0 {
        task.status = Status::from_str(string_of_chars(status_name.as_slice()).as_str());
    }
    let ghost base_v = task@;
    proof {
        let st = spec_unmarshal_fold(lines_of(text@));
        assert(base_v =~~= (TaskV {
            subject: st.0,
            description: spec_trim(spec_desc_text(st.4)),
            active_form: st.2,
            status: if st.1.len() > 0 {
                spec_status_from(st.1)
            } else {
                original@.status
            },
            ..original@
        }));
    }
    // Apply the metadata edits in draft order.
    let ghost mv = meta_views(metas@);
    let mut m: usize = 0;
    proof {
        assert(mv.take(0) =~= Seq::<(Seq<char>, Option<Seq<char>>)>::empty());
        assert(task@ == spec_apply_metas(base_v, mv.take(0)));
    }
    while m < metas.len()
        invariant
            m <= metas@.len(),
            mv == meta_views(metas@),
            mv.len() == metas@.len(),
            task@ == spec_apply_metas(base_v, mv.take(m as int)),
        decreases metas@.len() - m,
    {
        proof {
            assert(mv[m as int] == (metas@[m as int].0@, match metas@[m as int].1 {
                Some(s) => Some(s@),
                None => None::<Seq<char>>,
            }));
            assert(mv.take(m + 1).drop_last() =~= mv.take(m as int));
            assert(mv.take(m + 1).last() == mv[m as int]);
        }
        let (k, v) = &metas[m];
        apply_meta(&mut task, k.as_str(), v);
        m = m + 1;
    }
    proof {
        assert(mv.take(mv.len() as int) =~= mv);
    }
    Ok(task)
}

/// The views of the gathered metadata edits.
pub open spec fn meta_views(v: Seq<(String, Option<String>)>) -> Seq<(Seq<char>, Option<Seq<char>>)> {
    Seq::new(
        v.len(),
        |k: int|
            (
                v[k].0@,
                match v[k].1 {
                    Some(s) => Some(s@),
                    None => None,
                },
            ),
    )
}

/// Applies one metadata edit to the record.
fn apply_meta(task: &mut Task, key: &str, val: &Option<String>)
    ensures
        final(task)@ == spec_apply_meta(old(task)@, key@, match val {
            Some(s) => Some(s@),
            None => None,
        }),
{
    let text = match val {
        Some(s) => s.clone(),
        None => {
            proof {
                reveal_strlit("");
            }
            String::new()
        },
    };
    let ghost tv0 = old(task)@;
    if str_eq(key, "priority") {
        task.priority = Priority::from_str(text.as_str());
        proof {
            assert(task@ =~~= spec_apply_meta(tv0, key@, match val {
                Some(s) => Some(s@),
                None => None,
            }));
        }
    } else if str_eq(key, "type") {
        task.task_type = text;
        proof {
            assert(task@ =~~= spec_apply_meta(tv0, key@, match val {
                Some(s) => Some(s@),
                None => None,
            }));
        }
    } else if str_eq(key, "parent_id") {
        task.parent_id = text;
        proof {
            assert(task@ =~~= spec_apply_meta(tv0, key@, match val {
                Some(s) => Some(s@),
                None => None,
            }));
        }
    } else if str_eq(key, "branch") {
        task.branch = text;
        proof {
            assert(task@ =~~= spec_apply_meta(tv0, key@, match val {
                Some(s) => Some(s@),
                None => None,
            }));
        }
    } else if str_eq(key, "status_detail") {
        task.status_detail = text;
        proof {
            assert(task@ =~~= spec_apply_meta(tv0, key@, match val {
                Some(s) => Some(s@),
                None => None,
            }));
        }
    } else if str_eq(key, "project") {
        task.project = text;
        proof {
            assert(task@ =~~= spec_apply_meta(tv0, key@, match val {
                Some(s) => Some(s@),
                None => None,
            }));
        }
    } else if str_eq(key, "plan_file") {
        task.plan_file = text;
        proof {
            assert(task@ =~~= spec_apply_meta(tv0, key@, match val {
                Some(s) => Some(s@),
                None => None,
            }));
        }
    } else if str_eq(key, "spec_file") {
        task.spec_file = text;
        proof {
            assert(task@ =~~= spec_apply_meta(tv0, key@, match val {
                Some(s) => Some(s@),
                None => None,
            }));
        }
    } else if str_eq(key, "slug") {
        task.slug = text;
        proof {
            assert(task@ =~~= spec_apply_meta(tv0, key@, match val {
                Some(s) => Some(s@),
                None => None,
            }));
        }
    } else {
        // Remove any entry under this key, then append the new value.
        let ghost keep = |mp: (Seq<char>, MetaValV)| mp.0 != key@;
        let mut kept: Vec<(String, MetaVal)> = Vec::new();
        let mut i: usize = 0;
        let ghost extras = tv0.meta_extra;
        proof {
            assert(extras.take(0) =~= Seq::<(Seq<char>, MetaValV)>::empty());
            reveal_with_fuel(Seq::filter, 1);
            assert(extra_views(kept@) =~= extras.take(0).filter(keep));
        }
        while i < task.meta_extra.len()
            invariant
                i <= task.meta_extra@.len(),
                extras == old(task)@.meta_extra,
                extras.len() == task.meta_extra@.len(),
                task.meta_extra == old(task).meta_extra,
                keep == (|mp: (Seq<char>, MetaValV)| mp.0 != key@),
                extra_views(kept@) == extras.take(i as int).filter(keep),
            decreases task.meta_extra@.len() - i,
        {
            proof {
                assert(extras[i as int] == (
                    task.meta_extra@[i as int].0@,
                    task.meta_extra@[i as int].1@,
                ));
                assert(extras.take(i + 1).drop_last() =~= extras.take(i as int));
                assert(extras.take(i + 1).last() == extras[i as int]);
                reveal_with_fuel(Seq::filter, 2);
            }
            let (mk, mval) = &task.meta_extra[i];
            let ghost old_kept = extra_views(kept@);
            if !str_eq(mk.as_str(), key) {
                kept.push((mk.clone(), crate::codec::copy_meta_val(mval)));
                proof {
                    assert(extra_views(kept@) =~= old_kept.push(extras[i as int]));
                    assert(extras.take(i + 1).filter(keep) == extras.take(i as int).filter(
                        keep,
                    ).push(extras[i as int]));
                }
            } else {
                proof {
                    assert(extras.take(i + 1).filter(keep) == extras.take(i as int).filter(keep));
                }
            }
            i = i + 1;
        }
        proof {
            assert(extras.take(extras.len() as int) =~= extras);
        }
        match val {
            Some(s) => {
                let ghost old_kept = extra_views(kept@);
                kept.push((owned(key), MetaVal::Text(s.clone())));
                proof {
                    assert(extra_views(kept@) =~= old_kept.push(
                        (key@, MetaValV::Text(s@)),
                    ));
                }
            },
            None => {},
        }
        task.meta_extra = kept;
        proof {
            assert(task@ =~~= spec_apply_meta(tv0, key@, match val {
                Some(s) => Some(s@),
                None => None,
            }));
        }
    }
}

/// The views of an unmodeled metadata list.
pub open spec fn extra_views(v: Seq<(String, MetaVal)>) -> Seq<(Seq<char>, MetaValV)> {
    Seq::new(v.len(), |k: int| (v[k].0@, v[k].1@))
}

} // verus!
