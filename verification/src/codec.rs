//! The stored shape of a record, and the conversions between it and the
//! typed model.
//!
//! A record file holds one JSON object. `RecordDoc` is this crate's view of
//! that object: every typed field as the stored text, plus the unmodeled
//! fields carried through verbatim. Saving turns a `Task` into a `RecordDoc`
//! (`doc_of_task`), loading turns a `RecordDoc` back into a `Task`
//! (`task_of_doc`). Writing clears a metadata field whose value is empty or
//! the explicit clear marker `--`; a cleared field reads back as empty.

use vstd::prelude::*;
use crate::record::{MetaVal, MetaValV, Priority, Status, StatusV, Task, TaskV};
use crate::record::{
    priority_str, spec_priority_from, spec_status_from, status_normalized, status_str,
};
use crate::strutil::str_eq;

verus! {

/// The stored form of one record: typed fields as text, unmodeled fields
/// carried through unchanged.
pub struct RecordDoc {
    pub id: String,
    pub subject: String,
    pub description: String,
    pub status_name: String,
    pub active_form: String,
    pub owner: String,
    pub blocks: Vec<String>,
    pub blocked_by: Vec<String>,
    pub priority_name: String,
    pub task_type: String,
    pub parent_id: String,
    pub branch: String,
    pub status_detail: String,
    pub project: String,
    pub plan_file: String,
    pub spec_file: String,
    pub slug: String,
    pub extra: Vec<(String, String)>,
    pub meta_extra: Vec<(String, MetaVal)>,
}

/// The mathematical form of a stored record document.
#[verifier::ext_equal]
pub struct RecordDocV {
    pub id: Seq<char>,
    pub subject: Seq<char>,
    pub description: Seq<char>,
    pub status_name: Seq<char>,
    pub active_form: Seq<char>,
    pub owner: Seq<char>,
    pub blocks: Seq<Seq<char>>,
    pub blocked_by: Seq<Seq<char>>,
    pub priority_name: Seq<char>,
    pub task_type: Seq<char>,
    pub parent_id: Seq<char>,
    pub branch: Seq<char>,
    pub status_detail: Seq<char>,
    pub project: Seq<char>,
    pub plan_file: Seq<char>,
    pub spec_file: Seq<char>,
    pub slug: Seq<char>,
    pub extra: Seq<(Seq<char>, Seq<char>)>,
    pub meta_extra: Seq<(Seq<char>, MetaValV)>,
}

impl View for RecordDoc {
    type V = RecordDocV;

    open spec fn view(&self) -> RecordDocV {
        RecordDocV {
            id: self.id@,
            subject: self.subject@,
            description: self.description@,
            status_name: self.status_name@,
            active_form: self.active_form@,
            owner: self.owner@,
            blocks: self.blocks.deep_view(),
            blocked_by: self.blocked_by.deep_view(),
            priority_name: self.priority_name@,
            task_type: self.task_type@,
            parent_id: self.parent_id@,
            branch: self.branch@,
            status_detail: self.status_detail@,
            project: self.project@,
            plan_file: self.plan_file@,
            spec_file: self.spec_file@,
            slug: self.slug@,
            extra: Seq::new(self.extra@.len(), |i: int| (self.extra@[i].0@, self.extra@[i].1@)),
            meta_extra: Seq::new(
                self.meta_extra@.len(),
                |i: int| (self.meta_extra@[i].0@, self.meta_extra@[i].1@),
            ),
        }
    }
}

impl DeepView for RecordDoc {
    type V = RecordDocV;

    open spec fn deep_view(&self) -> RecordDocV {
        self.view()
    }
}

/// The clear marker: writing it removes the stored field.
pub open spec fn spec_cleared(v: Seq<char>) -> Seq<char> {
    if v == "--"@ {
        Seq::<char>::empty()
    } else {
        v
    }
}

/// The text under which a metadata field is stored: empty and the clear
/// marker both end up absent, so both read back as empty.
pub fn cleared(v: &String) -> (r: String)
    ensures
        r@ == spec_cleared(v@),
{
    if str_eq(v.as_str(), "--") {
        proof {
            reveal_strlit("--");
            reveal_strlit("");
            assert(""@ =~= Seq::<char>::empty());
        }
        String::new()
    } else {
        v.clone()
    }
}

pub fn copy_strings(v: &Vec<String>) -> (r: Vec<String>)
    ensures
        r@ == v@,
{
    let mut r: Vec<String> = Vec::new();
    let mut i: usize = 0;
    while i < v.len()
        invariant
            i <= v@.len(),
            r@ == v@.take(i as int),
        decreases v@.len() - i,
    {
        r.push(v[i].clone());
        proof {
            assert(r@ =~= v@.take(i + 1));
        }
        i = i + 1;
    }
    proof {
        assert(r@ =~= v@);
    }
    r
}

pub fn copy_string_pairs(v: &Vec<(String, String)>) -> (r: Vec<(String, String)>)
    ensures
        r@ == v@,
{
    let mut r: Vec<(String, String)> = Vec::new();
    let mut i: usize = 0;
    while i < v.len()
        invariant
            i <= v@.len(),
            r@ == v@.take(i as int),
        decreases v@.len() - i,
    {
        let (k, val) = &v[i];
        r.push((k.clone(), val.clone()));
        proof {
            assert(r@ =~= v@.take(i + 1));
        }
        i = i + 1;
    }
    proof {
        assert(r@ =~= v@);
    }
    r
}

pub fn copy_meta_val(v: &MetaVal) -> (r: MetaVal)
    ensures
        r == *v,
{
    match v {
        MetaVal::Text(s) => MetaVal::Text(s.clone()),
        MetaVal::Json(s) => MetaVal::Json(s.clone()),
    }
}

pub fn copy_meta_pairs(v: &Vec<(String, MetaVal)>) -> (r: Vec<(String, MetaVal)>)
    ensures
        r@ == v@,
{
    let mut r: Vec<(String, MetaVal)> = Vec::new();
    let mut i: usize = 0;
    while i < v.len()
        invariant
            i <= v@.len(),
            r@ == v@.take(i as int),
        decreases v@.len() - i,
    {
        let (k, val) = &v[i];
        r.push((k.clone(), copy_meta_val(val)));
        proof {
            assert(r@ =~= v@.take(i + 1));
        }
        i = i + 1;
    }
    proof {
        assert(r@ =~= v@);
    }
    r
}

pub fn copy_status(s: &Status) -> (r: Status)
    ensures
        r == *s,
{
    match s {
        Status::Pending => Status::Pending,
        Status::InProgress => Status::InProgress,
        Status::Completed => Status::Completed,
        Status::Other(t) => Status::Other(t.clone()),
    }
}

pub fn copy_priority(p: &Priority) -> (r: Priority)
    ensures
        r == *p,
{
    match p {
        Priority::P1 => Priority::P1,
        Priority::P2 => Priority::P2,
        Priority::P3 => Priority::P3,
        Priority::Unset => Priority::Unset,
    }
}

/// What `doc_of_task` promises of every stored field.
pub open spec fn doc_encodes(t: TaskV, d: RecordDocV) -> bool {
    &&& d.id == t.id
    &&& d.subject == t.subject
    &&& d.description == t.description
    &&& d.status_name == status_str(t.status)
    &&& d.active_form == t.active_form
    &&& d.owner == t.owner
    &&& d.blocks == t.blocks
    &&& d.blocked_by == t.blocked_by
    &&& d.priority_name == (if t.priority is Unset {
        Seq::<char>::empty()
    } else {
        priority_str(t.priority)
    })
    &&& d.task_type == spec_cleared(t.task_type)
    &&& d.parent_id == spec_cleared(t.parent_id)
    &&& d.branch == spec_cleared(t.branch)
    &&& d.status_detail == spec_cleared(t.status_detail)
    &&& d.project == spec_cleared(t.project)
    &&& d.plan_file == spec_cleared(t.plan_file)
    &&& d.spec_file == spec_cleared(t.spec_file)
    &&& d.slug == spec_cleared(t.slug)
    &&& d.extra == t.extra
    &&& d.meta_extra == t.meta_extra
}

/// What `task_of_doc` promises of every typed field.
pub open spec fn doc_decodes(d: RecordDocV, t: TaskV) -> bool {
    &&& t.id == d.id
    &&& t.subject == d.subject
    &&& t.description == d.description
    &&& t.status == spec_status_from(d.status_name)
    &&& t.active_form == d.active_form
    &&& t.owner == d.owner
    &&& t.blocks == d.blocks
    &&& t.blocked_by == d.blocked_by
    &&& t.priority == spec_priority_from(d.priority_name)
    &&& t.task_type == d.task_type
    &&& t.parent_id == d.parent_id
    &&& t.branch == d.branch
    &&& t.status_detail == d.status_detail
    &&& t.project == d.project
    &&& t.plan_file == d.plan_file
    &&& t.spec_file == d.spec_file
    &&& t.slug == d.slug
    &&& t.extra == d.extra
    &&& t.meta_extra == d.meta_extra
}

/// A record that saving then loading reproduces exactly: its status is
/// normalized, and no typed metadata field holds the clear marker itself.
pub open spec fn task_round_trippable(t: TaskV) -> bool {
    &&& status_normalized(t.status)
    &&& t.task_type != "--"@
    &&& t.parent_id != "--"@
    &&& t.branch != "--"@
    &&& t.status_detail != "--"@
    &&& t.project != "--"@
    &&& t.plan_file != "--"@
    &&& t.spec_file != "--"@
    &&& t.slug != "--"@
}

impl RecordDoc {
    /// The stored form of a record, as saving writes it.
    pub fn doc_of_task(t: &Task) -> (d: RecordDoc)
        ensures
            doc_encodes(t@, d@),
    {
        let priority_name = if t.priority == Priority::Unset {
            proof {
                reveal_strlit("");
            }
            String::new()
        } else {
            str_to_string(t.priority.as_str())
        };
        RecordDoc {
            id: t.id.clone(),
            subject: t.subject.clone(),
            description: t.description.clone(),
            status_name: str_to_string(t.status.as_str()),
            active_form: t.active_form.clone(),
            owner: t.owner.clone(),
            blocks: copy_strings(&t.blocks),
            blocked_by: copy_strings(&t.blocked_by),
            priority_name,
            task_type: cleared(&t.task_type),
            parent_id: cleared(&t.parent_id),
            branch: cleared(&t.branch),
            status_detail: cleared(&t.status_detail),
            project: cleared(&t.project),
            plan_file: cleared(&t.plan_file),
            spec_file: cleared(&t.spec_file),
            slug: cleared(&t.slug),
            extra: copy_string_pairs(&t.extra),
            meta_extra: copy_meta_pairs(&t.meta_extra),
        }
    }

    /// The typed record a stored document denotes, as loading reads it.
    pub fn task_of_doc(&self) -> (t: Task)
        ensures
            doc_decodes(self@, t@),
    {
        Task {
            id: self.id.clone(),
            subject: self.subject.clone(),
            description: self.description.clone(),
            active_form: self.active_form.clone(),
            status: Status::from_str(self.status_name.as_str()),
            owner: self.owner.clone(),
            blocks: copy_strings(&self.blocks),
            blocked_by: copy_strings(&self.blocked_by),
            priority: Priority::from_str(self.priority_name.as_str()),
            task_type: self.task_type.clone(),
            parent_id: self.parent_id.clone(),
            branch: self.branch.clone(),
            status_detail: self.status_detail.clone(),
            project: self.project.clone(),
            plan_file: self.plan_file.clone(),
            spec_file: self.spec_file.clone(),
            slug: self.slug.clone(),
            extra: copy_string_pairs(&self.extra),
            meta_extra: copy_meta_pairs(&self.meta_extra),
        }
    }
}

fn str_to_string(s: &str) -> (r: String)
    ensures
        r@ == s@,
{
    s.to_owned()
}

/// The stored name of a normalized status maps back to that same status.
pub proof fn lemma_status_name_round_trip(s: StatusV)
    requires
        status_normalized(s),
    ensures
        spec_status_from(status_str(s)) == s,
{
    reveal_strlit("pending");
    reveal_strlit("in_progress");
    reveal_strlit("completed");
    assert("pending"@.len() == 7);
    assert("in_progress"@.len() == 11);
    assert("completed"@.len() == 9);
}

/// The stored name of a priority maps back to that same priority; an unset
/// priority is stored as absent and read back as unset.
pub proof fn lemma_priority_name_round_trip(p: Priority)
    ensures
        spec_priority_from(
            if p is Unset {
                Seq::<char>::empty()
            } else {
                priority_str(p)
            },
        ) == p,
{
    reveal_strlit("P1");
    reveal_strlit("P2");
    reveal_strlit("P3");
    reveal_strlit("1");
    reveal_strlit("2");
    reveal_strlit("3");
    assert("P1"@.len() == 2 && "P2"@.len() == 2 && "P3"@.len() == 2);
    assert("1"@.len() == 1 && "2"@.len() == 1 && "3"@.len() == 1);
    assert("P1"@[1] == '1' && "P2"@[1] == '2' && "P3"@[1] == '3');
}

/// Saving a record and loading it back reproduces it whole: every typed
/// field and every unmodeled field, for any record whose fields can be
/// stored at all (status normalized, no field holding the bare clear
/// marker).
pub proof fn lemma_record_round_trip(t: TaskV, d: RecordDocV, u: TaskV)
    requires
        task_round_trippable(t),
        doc_encodes(t, d),
        doc_decodes(d, u),
    ensures
        u == t,
{
    lemma_status_name_round_trip(t.status);
    lemma_priority_name_round_trip(t.priority);
    reveal_strlit("--");
    assert(spec_cleared(t.task_type) == t.task_type);
    assert(u =~= t);
}

} // verus!
