//! The record model: one work item with its typed fields and the opaque
//! payload that carries fields this crate does not model.

use vstd::prelude::*;
use crate::strutil::str_eq;

verus! {

/// Lifecycle state of a record. Unrecognized names are preserved verbatim.
#[derive(Debug, Clone)]
pub enum Status {
    Pending,
    InProgress,
    Completed,
    Other(String),
}

/// The mathematical form of a status: the unrecognized name as a character
/// sequence.
#[verifier::ext_equal]
pub enum StatusV {
    Pending,
    InProgress,
    Completed,
    Other(Seq<char>),
}

impl View for Status {
    type V = StatusV;

    open spec fn view(&self) -> StatusV {
        match self {
            Status::Pending => StatusV::Pending,
            Status::InProgress => StatusV::InProgress,
            Status::Completed => StatusV::Completed,
            Status::Other(t) => StatusV::Other(t@),
        }
    }
}

impl DeepView for Status {
    type V = StatusV;

    open spec fn deep_view(&self) -> StatusV {
        self.view()
    }
}

/// The stored name of a status.
pub open spec fn status_str(s: StatusV) -> Seq<char> {
    match s {
        StatusV::Pending => "pending"@,
        StatusV::InProgress => "in_progress"@,
        StatusV::Completed => "completed"@,
        StatusV::Other(t) => t,
    }
}

/// Whether a name denotes one of the fixed lifecycle states.
pub open spec fn is_known_status_name(t: Seq<char>) -> bool {
    t == "pending"@ || t == "in_progress"@ || t == "completed"@
}

/// The status a stored name denotes.
pub open spec fn spec_status_from(t: Seq<char>) -> StatusV {
    if t == "pending"@ {
        StatusV::Pending
    } else if t == "in_progress"@ {
        StatusV::InProgress
    } else if t == "completed"@ {
        StatusV::Completed
    } else {
        StatusV::Other(t)
    }
}

/// A status as `from_str` builds it: `Other` only holds unrecognized names.
pub open spec fn status_normalized(s: StatusV) -> bool {
    s matches StatusV::Other(t) ==> !is_known_status_name(t)
}

impl PartialEq for Status {
    fn eq(&self, other: &Status) -> (r: bool) {
        match (self, other) {
            (Status::Pending, Status::Pending) => true,
            (Status::InProgress, Status::InProgress) => true,
            (Status::Completed, Status::Completed) => true,
            (Status::Other(a), Status::Other(b)) => str_eq(a.as_str(), b.as_str()),
            _ => false,
        }
    }
}

impl vstd::std_specs::cmp::PartialEqSpecImpl for Status {
    open spec fn obeys_eq_spec() -> bool {
        true
    }

    open spec fn eq_spec(&self, other: &Status) -> bool {
        match (self, other) {
            (Status::Pending, Status::Pending) => true,
            (Status::InProgress, Status::InProgress) => true,
            (Status::Completed, Status::Completed) => true,
            (Status::Other(a), Status::Other(b)) => a@ == b@,
            _ => false,
        }
    }
}

impl Status {
    /// The stored name of this status.
    pub fn as_str(&self) -> (r: &str)
        ensures
            r@ == status_str(self@),
    {
        match self {
            Status::Pending => "pending",
            Status::InProgress => "in_progress",
            Status::Completed => "completed",
            Status::Other(t) => t.as_str(),
        }
    }

    /// The status a stored name denotes; an unrecognized name is kept verbatim.
    pub fn from_str(s: &str) -> (r: Status)
        ensures
            r@ == spec_status_from(s@),
            status_normalized(r@),
    {
        if str_eq(s, "pending") {
            Status::Pending
        } else if str_eq(s, "in_progress") {
            Status::InProgress
        } else if str_eq(s, "completed") {
            Status::Completed
        } else {
            Status::Other(s.to_owned())
        }
    }
}

/// Ranked priority of a record; `Unset` ranks last.
#[derive(Debug, Clone, PartialEq, Eq, Structural)]
pub enum Priority {
    P1,
    P2,
    P3,
    Unset,
}

/// The stored name of a priority; `Unset` is stored as the cleared marker.
pub open spec fn priority_str(p: Priority) -> Seq<char> {
    match p {
        Priority::P1 => "P1"@,
        Priority::P2 => "P2"@,
        Priority::P3 => "P3"@,
        Priority::Unset => "--"@,
    }
}

impl Priority {
    /// The stored name of this priority.
    pub fn as_str(&self) -> (r: &str)
        ensures
            r@ == priority_str(*self),
    {
        match self {
            Priority::P1 => "P1",
            Priority::P2 => "P2",
            Priority::P3 => "P3",
            Priority::Unset => "--",
        }
    }

    /// The priority a stored name denotes; either the full name or the bare
    /// rank digit is accepted, and anything else means no priority.
    pub fn from_str(s: &str) -> (r: Priority)
        ensures
            r == spec_priority_from(s@),
    {
        if str_eq(s, "P1") || str_eq(s, "1") {
            Priority::P1
        } else if str_eq(s, "P2") || str_eq(s, "2") {
            Priority::P2
        } else if str_eq(s, "P3") || str_eq(s, "3") {
            Priority::P3
        } else {
            Priority::Unset
        }
    }

    /// The priority a rank number denotes.
    pub fn from_u8(v: u8) -> (r: Priority)
        ensures
            r == (if v == 1 {
                Priority::P1
            } else if v == 2 {
                Priority::P2
            } else if v == 3 {
                Priority::P3
            } else {
                Priority::Unset
            }),
    {
        match v {
            1 => Priority::P1,
            2 => Priority::P2,
            3 => Priority::P3,
            _ => Priority::Unset,
        }
    }

    /// Rank used for ordering: most urgent first, no priority last.
    pub fn sort_key(&self) -> (r: u8)
        ensures
            r == spec_priority_rank(*self),
    {
        match self {
            Priority::P1 => 1,
            Priority::P2 => 2,
            Priority::P3 => 3,
            Priority::Unset => 4,
        }
    }
}

pub open spec fn spec_priority_from(t: Seq<char>) -> Priority {
    if t == "P1"@ || t == "1"@ {
        Priority::P1
    } else if t == "P2"@ || t == "2"@ {
        Priority::P2
    } else if t == "P3"@ || t == "3"@ {
        Priority::P3
    } else {
        Priority::Unset
    }
}

pub open spec fn spec_priority_rank(p: Priority) -> u8 {
    match p {
        Priority::P1 => 1u8,
        Priority::P2 => 2u8,
        Priority::P3 => 3u8,
        Priority::Unset => 4u8,
    }
}

/// A metadata value this crate does not model: either a plain string, or the
/// serialized text of any other payload shape.
#[derive(Debug, Clone)]
pub enum MetaVal {
    Text(String),
    Json(String),
}

/// The mathematical form of an unmodeled metadata value.
#[verifier::ext_equal]
pub enum MetaValV {
    Text(Seq<char>),
    Json(Seq<char>),
}

impl View for MetaVal {
    type V = MetaValV;

    open spec fn view(&self) -> MetaValV {
        match self {
            MetaVal::Text(s) => MetaValV::Text(s@),
            MetaVal::Json(s) => MetaValV::Json(s@),
        }
    }
}

impl DeepView for MetaVal {
    type V = MetaValV;

    open spec fn deep_view(&self) -> MetaValV {
        self.view()
    }
}

/// One work item. Typed fields are extracted from the stored document;
/// `extra` and `meta_extra` carry every field the model does not understand,
/// so saving a loaded record never drops data.
#[derive(Debug, Clone)]
pub struct Task {
    pub id: String,
    pub subject: String,
    pub description: String,
    pub active_form: String,
    pub status: Status,
    pub owner: String,
    pub blocks: Vec<String>,
    pub blocked_by: Vec<String>,
    pub priority: Priority,
    pub task_type: String,
    pub parent_id: String,
    pub branch: String,
    pub status_detail: String,
    pub project: String,
    pub plan_file: String,
    pub spec_file: String,
    pub slug: String,
    /// Unmodeled top-level fields, as (name, serialized value) pairs.
    pub extra: Vec<(String, String)>,
    /// Unmodeled metadata fields, in stored order.
    pub meta_extra: Vec<(String, MetaVal)>,
}

/// The mathematical form of one record.
#[verifier::ext_equal]
pub struct TaskV {
    pub id: Seq<char>,
    pub subject: Seq<char>,
    pub description: Seq<char>,
    pub active_form: Seq<char>,
    pub status: StatusV,
    pub owner: Seq<char>,
    pub blocks: Seq<Seq<char>>,
    pub blocked_by: Seq<Seq<char>>,
    pub priority: Priority,
    pub task_type: Seq<char>,
    pub parent_id: Seq<char>,
    pub branch: Seq<char>,
    pub status_detail: Seq<char>,
    pub project: Seq<char>,
    pub plan_file: Seq<char>,
    pub spec_file: Seq<char>,
    pub slug: Seq<char>,
    pub extra: Seq<(Seq<char>, Seq<char>)>,
    pub meta_extra: Seq<(Seq<char>, MetaValV)>,
}

impl View for Task {
    type V = TaskV;

    open spec fn view(&self) -> TaskV {
        TaskV {
            id: self.id@,
            subject: self.subject@,
            description: self.description@,
            active_form: self.active_form@,
            status: self.status@,
            owner: self.owner@,
            blocks: self.blocks.deep_view(),
            blocked_by: self.blocked_by.deep_view(),
            priority: self.priority,
            task_type: self.task_type@,
            parent_id: self.parent_id@,
            branch: self.branch@,
            status_detail: self.status_detail@,
            project: self.project@,
            plan_file: self.plan_file@,
            spec_file: self.spec_file@,
            slug: self.slug@,
            extra: Seq::new(self.extra@.len(), |i: int| (self.extra@[i].0@, self.extra@[i].1@)),
            meta_extra: Seq::new(
                self.meta_extra@.len(),
                |i: int| (self.meta_extra@[i].0@, self.meta_extra@[i].1@),
            ),
        }
    }
}

impl DeepView for Task {
    type V = TaskV;

    open spec fn deep_view(&self) -> TaskV {
        self.view()
    }
}

impl Task {
    /// A record with nothing filled in: default status, no priority.
    pub fn empty() -> (r: Task)
        ensures
            r.id@ == Seq::<char>::empty(),
            r.subject@ == Seq::<char>::empty(),
            r.status == Status::Pending,
            r.priority == Priority::Unset,
            r.parent_id@ == Seq::<char>::empty(),
    {
        Task {
            id: String::new(),
            subject: String::new(),
            description: String::new(),
            active_form: String::new(),
            status: Status::Pending,
            owner: String::new(),
            blocks: Vec::new(),
            blocked_by: Vec::new(),
            priority: Priority::Unset,
            task_type: String::new(),
            parent_id: String::new(),
            branch: String::new(),
            status_detail: String::new(),
            project: String::new(),
            plan_file: String::new(),
            spec_file: String::new(),
            slug: String::new(),
            extra: Vec::new(),
            meta_extra: Vec::new(),
        }
    }
}

/// A named partition of records: one directory under the store root.
#[derive(Debug, Clone)]
pub struct TaskList {
    pub id: String,
}

} // verus!
