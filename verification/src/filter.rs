//! Pure filtering and ordering of records: status filter, completed-record
//! visibility, substring search, and the three sort keys.

use vstd::prelude::*;
use crate::record::{Priority, Status, Task, TaskV};
use crate::record::spec_priority_rank;
use crate::strutil::{chars_contain, contains_seq, parse_u64, spec_parse_u64, str_chars};

verus! {

/// The case-folded form of a string, as the platform's Unicode lowercasing
/// produces it; the result depends on the characters alone.
pub uninterp spec fn lower_of(s: Seq<char>) -> Seq<char>;

/// Relies on str::to_lowercase of std: the lowercase form of the text,
/// a function of the characters alone.
#[verifier::external_body]
pub fn lowercase(s: &str) -> (r: String)
    ensures
        r@ == lower_of(s@),
{
    s.to_lowercase()
}

/// Which lifecycle states a view admits.
#[derive(Debug, Clone, Copy, PartialEq, Eq, Structural)]
pub enum StatusFilter {
    All,
    Active,
    Pending,
    InProgress,
    Completed,
}

/// Whether a status passes a filter.
pub open spec fn spec_filter_matches(f: StatusFilter, s: crate::record::StatusV) -> bool {
    match f {
        StatusFilter::All => true,
        StatusFilter::Active => !(s is Completed),
        StatusFilter::Pending => s is Pending,
        StatusFilter::InProgress => s is InProgress,
        StatusFilter::Completed => s is Completed,
    }
}

impl StatusFilter {
    /// The next filter in the cycling order.
    pub fn next(self) -> (r: StatusFilter)
        ensures
            r == (match self {
                StatusFilter::All => StatusFilter::Active,
                StatusFilter::Active => StatusFilter::Pending,
                StatusFilter::Pending => StatusFilter::InProgress,
                StatusFilter::InProgress => StatusFilter::Completed,
                StatusFilter::Completed => StatusFilter::All,
            }),
    {
        match self {
            StatusFilter::All => StatusFilter::Active,
            StatusFilter::Active => StatusFilter::Pending,
            StatusFilter::Pending => StatusFilter::InProgress,
            StatusFilter::InProgress => StatusFilter::Completed,
            StatusFilter::Completed => StatusFilter::All,
        }
    }

    /// The short name shown for this filter.
    pub fn label(self) -> (r: &'static str)
        ensures
            r@ == (match self {
                StatusFilter::All => "all"@,
                StatusFilter::Active => "active"@,
                StatusFilter::Pending => "pending"@,
                StatusFilter::InProgress => "in_progress"@,
                StatusFilter::Completed => "completed"@,
            }),
    {
        match self {
            StatusFilter::All => "all",
            StatusFilter::Active => "active",
            StatusFilter::Pending => "pending",
            StatusFilter::InProgress => "in_progress",
            StatusFilter::Completed => "completed",
        }
    }

    /// Whether a status passes this filter.
    pub fn matches(self, status: &Status) -> (r: bool)
        ensures
            r == spec_filter_matches(self, status@),
    {
        match self {
            StatusFilter::All => true,
            StatusFilter::Active => !matches!(status, Status::Completed),
            StatusFilter::Pending => matches!(status, Status::Pending),
            StatusFilter::InProgress => matches!(status, Status::InProgress),
            StatusFilter::Completed => matches!(status, Status::Completed),
        }
    }
}

/// The key records are ordered by.
#[derive(Debug, Clone, Copy, PartialEq, Eq, Structural)]
pub enum SortOrder {
    Id,
    Priority,
    Subject,
}

impl SortOrder {
    /// The next sort key in the cycling order.
    pub fn next(self) -> (r: SortOrder)
        ensures
            r == (match self {
                SortOrder::Id => SortOrder::Priority,
                SortOrder::Priority => SortOrder::Subject,
                SortOrder::Subject => SortOrder::Id,
            }),
    {
        match self {
            SortOrder::Id => SortOrder::Priority,
            SortOrder::Priority => SortOrder::Subject,
            SortOrder::Subject => SortOrder::Id,
        }
    }

    /// The short name shown for this sort key.
    pub fn label(self) -> (r: &'static str)
        ensures
            r@ == (match self {
                SortOrder::Id => "id"@,
                SortOrder::Priority => "priority"@,
                SortOrder::Subject => "subject"@,
            }),
    {
        match self {
            SortOrder::Id => "id",
            SortOrder::Priority => "priority",
            SortOrder::Subject => "subject",
        }
    }
}

/// The numeric value of an identifier; identifiers that are not plain
/// decimal numbers order after every numeric one.
pub open spec fn spec_id_key(id: Seq<char>) -> u64 {
    match spec_parse_u64(id) {
        Some(n) => n,
        None => u64::MAX,
    }
}

/// The numeric value a record's identifier sorts by.
pub fn id_sort_key(id: &str) -> (r: u64)
    ensures
        r == spec_id_key(id@),
{
    let cs = str_chars(id);
    match parse_u64(cs.as_slice()) {
        Some(n) => n,
        None => u64::MAX,
    }
}

/// Lexicographic order on character sequences by code point, the order the
/// platform's string comparison gives.
pub open spec fn lex_le(a: Seq<char>, b: Seq<char>) -> bool
    decreases a.len(),
{
    if a.len() == 0 {
        true
    } else if b.len() == 0 {
        false
    } else if a[0] < b[0] {
        true
    } else if a[0] > b[0] {
        false
    } else {
        lex_le(a.skip(1), b.skip(1))
    }
}

pub proof fn lemma_lex_le_total(a: Seq<char>, b: Seq<char>)
    ensures
        lex_le(a, b) || lex_le(b, a),
    decreases a.len(),
{
    if a.len() > 0 && b.len() > 0 && !(a[0] < b[0]) && !(a[0] > b[0]) {
        assert(a[0] == b[0]);
        lemma_lex_le_total(a.skip(1), b.skip(1));
    }
}

pub proof fn lemma_lex_le_trans(a: Seq<char>, b: Seq<char>, c: Seq<char>)
    requires
        lex_le(a, b),
        lex_le(b, c),
    ensures
        lex_le(a, c),
    decreases a.len(),
{
    if a.len() == 0 {
    } else {
        assert(b.len() > 0);
        assert(c.len() > 0);
        if a[0] < b[0] {
        } else {
            assert(a[0] == b[0]);
            if b[0] < c[0] {
            } else {
                assert(b[0] == c[0]);
                lemma_lex_le_trans(a.skip(1), b.skip(1), c.skip(1));
            }
        }
    }
}

/// Whether two character slices compare at-most in lexicographic order.
pub fn lex_le_chars(a: &[char], b: &[char]) -> (r: bool)
    ensures
        r == lex_le(a@, b@),
{
    let mut i: usize = 0;
    let na = a.len();
    let nb = b.len();
    proof {
        assert(a@.skip(0) =~= a@);
        assert(b@.skip(0) =~= b@);
    }
    while i < na && i < nb
        invariant
            na == a@.len() && nb == b@.len(),
            i <= na && i <= nb,
            lex_le(a@, b@) == lex_le(a@.skip(i as int), b@.skip(i as int)),
        decreases na - i,
    {
        let ca = a[i];
        let cb = b[i];
        if ca < cb {
            proof {
                assert(a@.skip(i as int)[0] == ca && b@.skip(i as int)[0] == cb);
            }
            return true;
        }
        if ca > cb {
            proof {
                assert(a@.skip(i as int)[0] == ca && b@.skip(i as int)[0] == cb);
            }
            return false;
        }
        proof {
            assert(a@.skip(i as int)[0] == ca && b@.skip(i as int)[0] == cb);
            assert(a@.skip(i as int).skip(1) =~= a@.skip(i + 1));
            assert(b@.skip(i as int).skip(1) =~= b@.skip(i + 1));
        }
        i = i + 1;
    }
    proof {
        if i >= na {
            assert(a@.skip(i as int).len() == 0);
        } else {
            assert(b@.skip(i as int).len() == 0);
            assert(a@.skip(i as int).len() > 0);
        }
    }
    i >= na
}

/// The order two records stand in under a sort key; ties keep input order.
pub open spec fn sort_le(ord: SortOrder, a: TaskV, b: TaskV) -> bool {
    match ord {
        SortOrder::Id => spec_id_key(a.id) <= spec_id_key(b.id),
        SortOrder::Priority => spec_priority_rank(a.priority) <= spec_priority_rank(b.priority),
        SortOrder::Subject => lex_le(lower_of(a.subject), lower_of(b.subject)),
    }
}

pub proof fn lemma_sort_le_total(ord: SortOrder, a: TaskV, b: TaskV)
    ensures
        sort_le(ord, a, b) || sort_le(ord, b, a),
{
    if ord is Subject {
        lemma_lex_le_total(lower_of(a.subject), lower_of(b.subject));
    }
}

pub proof fn lemma_sort_le_trans(ord: SortOrder, a: TaskV, b: TaskV, c: TaskV)
    requires
        sort_le(ord, a, b),
        sort_le(ord, b, c),
    ensures
        sort_le(ord, a, c),
{
    if ord is Subject {
        lemma_lex_le_trans(lower_of(a.subject), lower_of(b.subject), lower_of(c.subject));
    }
}

fn task_le(ord: SortOrder, a: &Task, b: &Task) -> (r: bool)
    ensures
        r == sort_le(ord, a@, b@),
{
    match ord {
        SortOrder::Id => id_sort_key(a.id.as_str()) <= id_sort_key(b.id.as_str()),
        SortOrder::Priority => a.priority.sort_key() <= b.priority.sort_key(),
        SortOrder::Subject => {
            let la = lowercase(a.subject.as_str());
            let lb = lowercase(b.subject.as_str());
            let ca = str_chars(la.as_str());
            let cb = str_chars(lb.as_str());
            lex_le_chars(ca.as_slice(), cb.as_slice())
        },
    }
}

/// Whether a record is shown under the given view settings: a completed
/// record is hidden while completed records are switched off, unless the
/// status filter asks for completed records; the status filter must accept
/// it; and a non-empty search text must occur in its subject,
/// case-insensitively.
pub open spec fn spec_included(
    t: TaskV,
    f: StatusFilter,
    show_closed: bool,
    query: Seq<char>,
) -> bool {
    &&& !(!show_closed && t.status is Completed && f != StatusFilter::Completed)
    &&& spec_filter_matches(f, t.status)
    &&& (query.len() == 0 || contains_seq(lower_of(t.subject), lower_of(query)))
}

/// The records that pass the view settings, in input order.
pub open spec fn spec_filtered(
    ts: Seq<TaskV>,
    f: StatusFilter,
    show_closed: bool,
    query: Seq<char>,
) -> Seq<TaskV> {
    ts.filter(|t: TaskV| spec_included(t, f, show_closed, query))
}

/// Where an element lands when inserted into an ordered run from the right:
/// after every element it does not order strictly before, so records with
/// equal keys keep their input order.
pub open spec fn spec_insert(ord: SortOrder, x: TaskV, s: Seq<TaskV>) -> Seq<TaskV>
    decreases s.len(),
{
    if s.len() == 0 {
        seq![x]
    } else if !sort_le(ord, s.last(), x) {
        spec_insert(ord, x, s.drop_last()).push(s.last())
    } else {
        s.push(x)
    }
}

/// Insertion sort over a record sequence; stable because `spec_insert`
/// never moves an element past an equal key.
pub open spec fn spec_sort(ord: SortOrder, s: Seq<TaskV>) -> Seq<TaskV>
    decreases s.len(),
{
    if s.len() == 0 {
        Seq::empty()
    } else {
        spec_insert(ord, s.last(), spec_sort(ord, s.drop_last()))
    }
}

pub open spec fn seq_sorted(ord: SortOrder, s: Seq<TaskV>) -> bool {
    forall|i: int, j: int| 0 <= i < j < s.len() ==> sort_le(ord, s[i], s[j])
}

proof fn lemma_insert_membership(ord: SortOrder, x: TaskV, s: Seq<TaskV>, e: TaskV)
    ensures
        spec_insert(ord, x, s).contains(e) <==> (s.contains(e) || e == x),
    decreases s.len(),
{
    if s.len() == 0 {
        assert(spec_insert(ord, x, s) =~= seq![x]);
        assert(seq![x][0] == x);
        if spec_insert(ord, x, s).contains(e) {
            assert(e == x);
        }
        assert(seq![x].contains(x));
    } else if !sort_le(ord, s.last(), x) {
        lemma_insert_membership(ord, x, s.drop_last(), e);
        let inner = spec_insert(ord, x, s.drop_last());
        let r = inner.push(s.last());
        lemma_push_membership(inner, s.last(), e);
        lemma_push_membership(s.drop_last(), s.last(), e);
        assert(s =~= s.drop_last().push(s.last()));
    } else {
        lemma_push_membership(s, x, e);
    }
}

proof fn lemma_push_membership(s: Seq<TaskV>, x: TaskV, e: TaskV)
    ensures
        s.push(x).contains(e) <==> (s.contains(e) || e == x),
{
    if s.contains(e) {
        let i = choose|i: int| 0 <= i < s.len() && s[i] == e;
        assert(s.push(x)[i] == e);
    }
    assert(s.push(x)[s.len() as int] == x);
    if s.push(x).contains(e) {
        let i = choose|i: int| 0 <= i < s.push(x).len() && s.push(x)[i] == e;
        if i < s.len() {
            assert(s[i] == e);
        }
    }
}

proof fn lemma_insert_sorted(ord: SortOrder, x: TaskV, s: Seq<TaskV>)
    requires
        seq_sorted(ord, s),
    ensures
        seq_sorted(ord, spec_insert(ord, x, s)),
    decreases s.len(),
{
    if s.len() == 0 {
    } else if !sort_le(ord, s.last(), x) {
        assert(seq_sorted(ord, s.drop_last()));
        lemma_insert_sorted(ord, x, s.drop_last());
        let inner = spec_insert(ord, x, s.drop_last());
        let r = inner.push(s.last());
        lemma_sort_le_total(ord, s.last(), x);
        assert forall|i: int, j: int| 0 <= i < j < r.len() implies sort_le(ord, r[i], r[j]) by {
            if j == r.len() - 1 {
                lemma_insert_membership(ord, x, s.drop_last(), r[i]);
                if r[i] == x {
                    assert(sort_le(ord, x, s.last()));
                } else {
                    let k = choose|k: int|
                        0 <= k < s.drop_last().len() && s.drop_last()[k] == r[i];
                    assert(s[k] == r[i]);
                    assert(sort_le(ord, s[k], s.last()));
                }
            }
        }
    } else {
        let r = s.push(x);
        assert forall|i: int, j: int| 0 <= i < j < r.len() implies sort_le(ord, r[i], r[j]) by {
            if j == r.len() - 1 {
                if i == s.len() - 1 {
                    assert(sort_le(ord, s.last(), x));
                } else {
                    assert(sort_le(ord, s[i], s.last()));
                    lemma_sort_le_trans(ord, s[i], s.last(), x);
                }
            }
        }
    }
}

proof fn lemma_insert_len(ord: SortOrder, x: TaskV, s: Seq<TaskV>)
    ensures
        spec_insert(ord, x, s).len() == s.len() + 1,
    decreases s.len(),
{
    if s.len() > 0 && !sort_le(ord, s.last(), x) {
        lemma_insert_len(ord, x, s.drop_last());
    }
}

/// The ordering and membership guarantees of `spec_sort`.
pub proof fn lemma_sort_properties(ord: SortOrder, s: Seq<TaskV>)
    ensures
        seq_sorted(ord, spec_sort(ord, s)),
        forall|e: TaskV| spec_sort(ord, s).contains(e) <==> s.contains(e),
        spec_sort(ord, s).len() == s.len(),
    decreases s.len(),
{
    if s.len() == 0 {
    } else {
        lemma_sort_properties(ord, s.drop_last());
        lemma_insert_sorted(ord, s.last(), spec_sort(ord, s.drop_last()));
        lemma_insert_len(ord, s.last(), spec_sort(ord, s.drop_last()));
        assert forall|e: TaskV| spec_sort(ord, s).contains(e) <==> s.contains(e) by {
            lemma_insert_membership(ord, s.last(), spec_sort(ord, s.drop_last()), e);
            lemma_push_membership(s.drop_last(), s.last(), e);
            assert(s =~= s.drop_last().push(s.last()));
        }
    }
}

/// `spec_insert` laid out explicitly: the element lands at the first spot,
/// counted from the right, whose left neighbour does not order after it.
proof fn lemma_insert_at(ord: SortOrder, x: TaskV, s: Seq<TaskV>, p: int)
    requires
        0 <= p <= s.len(),
        forall|k: int| p <= k < s.len() ==> !sort_le(ord, #[trigger] s[k], x),
        p > 0 ==> sort_le(ord, s[p - 1], x),
    ensures
        spec_insert(ord, x, s) == s.take(p) + seq![x] + s.skip(p),
    decreases s.len(),
{
    if p == s.len() {
        if s.len() == 0 {
            assert(spec_insert(ord, x, s) =~= s.take(p) + seq![x] + s.skip(p));
        } else {
            assert(sort_le(ord, s.last(), x));
            assert(spec_insert(ord, x, s) == s.push(x));
            assert(s.push(x) =~= s.take(p) + seq![x] + s.skip(p));
        }
    } else {
        assert(!sort_le(ord, s.last(), x));
        lemma_insert_at(ord, x, s.drop_last(), p);
        assert(s.drop_last().take(p) =~= s.take(p));
        assert(s.drop_last().skip(p) =~= s.skip(p).drop_last());
        assert((s.take(p) + seq![x] + s.skip(p).drop_last()).push(s.last()) =~= s.take(p)
            + seq![x] + s.skip(p));
    }
}

fn insert_sorted(ord: SortOrder, x: Task, r: &mut Vec<Task>)
    ensures
        final(r).deep_view() == spec_insert(ord, x@, old(r).deep_view()),
{
    let ghost dv = r.deep_view();
    let mut p: usize = r.len();
    while p > 0 && !task_le(ord, &r[p - 1], &x)
        invariant
            p <= r@.len(),
            dv == r.deep_view(),
            dv.len() == r@.len(),
            forall|k: int| p <= k < dv.len() ==> !sort_le(ord, #[trigger] dv[k], x@),
        decreases p,
    {
        proof {
            assert(dv[p - 1] == r@[p - 1]@);
        }
        p = p - 1;
    }
    proof {
        if p > 0 {
            assert(dv[p - 1] == r@[p - 1]@);
        }
        lemma_insert_at(ord, x@, dv, p as int);
    }
    r.insert(p, x);
    proof {
        assert(r.deep_view() =~= dv.take(p as int) + seq![x@] + dv.skip(p as int));
    }
}

/// The records passing the view settings, in the order the sort key gives;
/// records with equal keys keep their input order.
pub fn filter_and_sort(
    tasks: &Vec<Task>,
    status_filter: StatusFilter,
    sort_order: SortOrder,
    show_closed: bool,
    query: &str,
) -> (r: Vec<Task>)
    ensures
        r.deep_view() == spec_sort(
            sort_order,
            spec_filtered(tasks.deep_view(), status_filter, show_closed, query@),
        ),
        seq_sorted(sort_order, r.deep_view()),
        forall|e: TaskV|
            r.deep_view().contains(e) <==> spec_filtered(
                tasks.deep_view(),
                status_filter,
                show_closed,
                query@,
            ).contains(e),
        r.deep_view().len() == spec_filtered(
            tasks.deep_view(),
            status_filter,
            show_closed,
            query@,
        ).len(),
{
    let query_empty = query.unicode_len() == 0;
    let lowered_query = lowercase(query);
    let query_chars = str_chars(lowered_query.as_str());
    let ghost dv = tasks.deep_view();
    let ghost pred = |t: TaskV| spec_included(t, status_filter, show_closed, query@);

    let mut r: Vec<Task> = Vec::new();
    let mut i: usize = 0;
    proof {
        assert(dv.take(0) =~= Seq::<TaskV>::empty());
        reveal_with_fuel(Seq::filter, 1);
        assert(r.deep_view() =~= Seq::<TaskV>::empty());
    }
    while i < tasks.len()
        invariant
            i <= tasks@.len(),
            dv == tasks.deep_view(),
            dv.len() == tasks@.len(),
            query_empty <==> query@.len() == 0,
            query_chars@ == lower_of(query@),
            r.deep_view() == spec_sort(sort_order, dv.take(i as int).filter(pred)),
            pred == (|t: TaskV| spec_included(t, status_filter, show_closed, query@)),
        decreases tasks@.len() - i,
    {
        let t = &tasks[i];
        proof {
            assert(dv[i as int] == tasks@[i as int]@);
        }
        let visible = show_closed || !matches!(t.status, Status::Completed) || matches!(
            status_filter,
            StatusFilter::Completed,
        );
        let mut keep = visible && status_filter.matches(&t.status);
        if keep && !query_empty {
            let lowered_subject = lowercase(t.subject.as_str());
            let subject_chars = str_chars(lowered_subject.as_str());
            keep = chars_contain(subject_chars.as_slice(), query_chars.as_slice());
        }
        proof {
            assert(keep == pred(dv[i as int]));
            assert(dv.take(i + 1).drop_last() =~= dv.take(i as int));
            assert(dv.take(i + 1).last() == dv[i as int]);
            reveal_with_fuel(Seq::filter, 2);
        }
        if keep {
            let copy = clone_task(t);
            insert_sorted(sort_order, copy, &mut r);
            proof {
                let fprev = dv.take(i as int).filter(pred);
                let fnow = dv.take(i + 1).filter(pred);
                assert(fnow == fprev.push(dv[i as int]));
                assert(fnow.drop_last() =~= fprev);
                assert(fnow.last() == dv[i as int]);
            }
        } else {
            proof {
                assert(dv.take(i + 1).filter(pred) == dv.take(i as int).filter(pred));
            }
        }
        i = i + 1;
    }
    proof {
        assert(dv.take(dv.len() as int) =~= dv);
        lemma_sort_properties(
            sort_order,
            spec_filtered(dv, status_filter, show_closed, query@),
        );
    }
    r
}

/// A copy of a record, equal to it in every field.
pub fn clone_task(t: &Task) -> (r: Task)
    ensures
        r@ == t@,
{
    let r = Task {
        id: t.id.clone(),
        subject: t.subject.clone(),
        description: t.description.clone(),
        active_form: t.active_form.clone(),
        status: crate::codec::copy_status(&t.status),
        owner: t.owner.clone(),
        blocks: crate::codec::copy_strings(&t.blocks),
        blocked_by: crate::codec::copy_strings(&t.blocked_by),
        priority: crate::codec::copy_priority(&t.priority),
        task_type: t.task_type.clone(),
        parent_id: t.parent_id.clone(),
        branch: t.branch.clone(),
        status_detail: t.status_detail.clone(),
        project: t.project.clone(),
        plan_file: t.plan_file.clone(),
        spec_file: t.spec_file.clone(),
        slug: t.slug.clone(),
        extra: crate::codec::copy_string_pairs(&t.extra),
        meta_extra: crate::codec::copy_meta_pairs(&t.meta_extra),
    };
    proof {
        assert(r@ =~~= t@);
    }
    r
}

/// The scenario the record views guarantee: a completed record is listed
/// when the filter asks for completed records, even with completed records
/// globally hidden; and it is not listed under the unfiltered view with
/// completed records hidden.
pub proof fn lemma_completed_visibility(t: TaskV, show_closed: bool, query: Seq<char>)
    requires
        t.status is Completed,
        !show_closed,
        query.len() == 0,
    ensures
        spec_included(t, StatusFilter::Completed, show_closed, query),
        !spec_included(t, StatusFilter::All, show_closed, query),
{
}

} // verus!
