//! Plan and specification listings: the artifact records shown in the plan
//! views, their frontmatter extraction, and the size and date formatting
//! used in the tables.

use vstd::prelude::*;
use crate::artifact::{civil_from_days, spec_civil_from_days};
use crate::strutil::{
    chars_start_with, lines_of, slice_range, split_lines, spec_trim, spec_u64_str, starts_with,
    str_chars, string_of_chars, trim_chars, u64_to_string,
};

verus! {

/// One plan document on disk (or in a notes store): its name, location,
/// frontmatter title and project, modification time and size.
#[derive(Debug, Clone)]
pub struct Plan {
    pub name: String,
    pub path: String,
    pub title: String,
    pub project: String,
    pub mod_time: u64,
    pub size: u64,
}

/// One specification document on disk, with the same shape as a plan.
#[derive(Debug, Clone)]
pub struct Spec {
    pub name: String,
    pub path: String,
    pub title: String,
    pub project: String,
    pub mod_time: u64,
    pub size: u64,
}

/// One step of frontmatter scanning: delimiters open and close the block,
/// `topic:` and `project:` lines inside it fill the fields, and a heading
/// before any frontmatter titles the document and stops the scan.
pub open spec fn spec_fm_step(
    st: (Seq<char>, Seq<char>, bool, bool),
    line: Seq<char>,
) -> (Seq<char>, Seq<char>, bool, bool) {
    let (title, project, in_fm, done) = st;
    if done {
        st
    } else {
        let t = spec_trim(line);
        if t == "---"@ {
            if in_fm {
                (title, project, in_fm, true)
            } else {
                (title, project, true, false)
            }
        } else if in_fm {
            if starts_with(t, "topic:"@) {
                (spec_trim(t.skip(6)), project, in_fm, false)
            } else if starts_with(t, "project:"@) {
                (title, spec_trim(t.skip(8)), in_fm, false)
            } else {
                st
            }
        } else if starts_with(t, "# "@) {
            (t.skip(2), project, in_fm, true)
        } else {
            st
        }
    }
}

pub open spec fn spec_fm_fold(ls: Seq<Seq<char>>) -> (Seq<char>, Seq<char>, bool, bool)
    decreases ls.len(),
{
    if ls.len() == 0 {
        (Seq::empty(), Seq::empty(), false, false)
    } else {
        spec_fm_step(spec_fm_fold(ls.drop_last()), ls.last())
    }
}

/// The title and project a document's frontmatter (or leading heading)
/// declares.
pub open spec fn spec_extract_frontmatter(content: Seq<char>) -> (Seq<char>, Seq<char>) {
    let (title, project, _, _) = spec_fm_fold(lines_of(content));
    (title, project)
}

/// Reads the title and project out of a document's frontmatter; a heading
/// line before any frontmatter titles the document instead.
pub fn extract_frontmatter_from_str(content: &str) -> (r: (String, String))
    ensures
        r.0@ == spec_extract_frontmatter(content@).0,
        r.1@ == spec_extract_frontmatter(content@).1,
{
    let cs = str_chars(content);
    let ls = split_lines(cs.as_slice());
    let ghost lv = ls.deep_view();
    let mut title: Vec<char> = Vec::new();
    let mut project: Vec<char> = Vec::new();
    let mut in_fm = false;
    let mut done = false;
    let mut i: usize = 0;
    proof {
        assert(lv.take(0) =~= Seq::<Seq<char>>::empty());
        reveal_strlit("---");
        reveal_strlit("topic:");
        reveal_strlit("project:");
        reveal_strlit("# ");
    }
    while i < ls.len()
        invariant
            i <= ls@.len(),
            lv == ls.deep_view(),
            lv.len() == ls@.len(),
            "topic:"@.len() == 6,
            "project:"@.len() == 8,
            "# "@.len() == 2,
            ({
                let st = spec_fm_fold(lv.take(i as int));
                &&& title@ == st.0
                &&& project@ == st.1
                &&& in_fm == st.2
                &&& done == st.3
            }),
        decreases ls@.len() - i,
    {
        proof {
            assert(lv[i as int] == ls@[i as int]@);
            assert(lv.take(i + 1).drop_last() =~= lv.take(i as int));
            assert(lv.take(i + 1).last() == lv[i as int]);
        }
        if !done {
            let t = trim_chars(ls[i].as_slice());
            let dash3 = str_chars("---");
            let topic_p = str_chars("topic:");
            let project_p = str_chars("project:");
            let heading_p = str_chars("# ");
            if crate::strutil::chars_eq(t.as_slice(), dash3.as_slice()) {
                if in_fm {
                    done = true;
                } else {
                    in_fm = true;
                }
            } else if in_fm {
                if chars_start_with(t.as_slice(), topic_p.as_slice()) {
                    let rest = slice_range(t.as_slice(), 6, t.len());
                    proof {
                        assert(rest@ =~= t@.skip(6));
                    }
                    title = trim_chars(rest.as_slice());
                } else if chars_start_with(t.as_slice(), project_p.as_slice()) {
                    let rest = slice_range(t.as_slice(), 8, t.len());
                    proof {
                        assert(rest@ =~= t@.skip(8));
                    }
                    project = trim_chars(rest.as_slice());
                }
            } else if chars_start_with(t.as_slice(), heading_p.as_slice()) {
                let rest = slice_range(t.as_slice(), 2, t.len());
                proof {
                    assert(rest@ =~= t@.skip(2));
                }
                title = rest;
                done = true;
            }
        }
        i = i + 1;
    }
    proof {
        assert(lv.take(lv.len() as int) =~= lv);
    }
    (string_of_chars(title.as_slice()), string_of_chars(project.as_slice()))
}

/// A byte count shown humanly: bytes below a kibibyte, then tenths of
/// kibibytes, then tenths of mebibytes, rounded half away from zero.
pub open spec fn spec_format_size(bytes: u64) -> Seq<char> {
    if bytes < 1024 {
        spec_u64_str(bytes) + "B"@
    } else if bytes < 1024 * 1024 {
        let tenths = ((bytes * 10 + 512) / 1024) as u64;
        spec_u64_str((tenths / 10) as u64) + "."@ + spec_u64_str((tenths % 10) as u64) + "K"@
    } else {
        let mb = (bytes / 1048576) as u64;
        let rem = (bytes % 1048576) as u64;
        let tenths = (mb * 10 + (rem * 10 + 524288) / 1048576) as u64;
        spec_u64_str((tenths / 10) as u64) + "."@ + spec_u64_str((tenths % 10) as u64) + "M"@
    }
}

/// A byte count shown humanly.
pub fn format_size(bytes: u64) -> (r: String)
    ensures
        r@ == spec_format_size(bytes),
{
    if bytes < 1024 {
        let mut r = u64_to_string(bytes);
        r.append("B");
        r
    } else if bytes < 1024 * 1024 {
        let tenths = (bytes * 10 + 512) / 1024;
        let mut r = u64_to_string(tenths / 10);
        r.append(".");
        let f = u64_to_string(tenths % 10);
        r.append(f.as_str());
        r.append("K");
        r
    } else {
        let mb = bytes / 1048576;
        let rem = bytes % 1048576;
        proof {
            assert(mb * 10 + (rem * 10 + 524288) / 1048576 <= u64::MAX) by (nonlinear_arith)
                requires
                    mb == bytes / 1048576,
                    rem == bytes % 1048576,
                    bytes <= u64::MAX,
            ;
        }
        let tenths = mb * 10 + (rem * 10 + 524288) / 1048576;
        let mut r = u64_to_string(tenths / 10);
        r.append(".");
        let f = u64_to_string(tenths % 10);
        r.append(f.as_str());
        r.append("M");
        r
    }
}

/// The short month name of a month number.
pub fn month_name(m: u64) -> (r: &'static str)
    ensures
        r@ == spec_month_name(m),
{
    match m {
        1 => "Jan",
        2 => "Feb",
        3 => "Mar",
        4 => "Apr",
        5 => "May",
        6 => "Jun",
        7 => "Jul",
        8 => "Aug",
        9 => "Sep",
        10 => "Oct",
        11 => "Nov",
        _ => "Dec",
    }
}

pub open spec fn spec_month_name(m: u64) -> Seq<char> {
    if m == 1 {
        "Jan"@
    } else if m == 2 {
        "Feb"@
    } else if m == 3 {
        "Mar"@
    } else if m == 4 {
        "Apr"@
    } else if m == 5 {
        "May"@
    } else if m == 6 {
        "Jun"@
    } else if m == 7 {
        "Jul"@
    } else if m == 8 {
        "Aug"@
    } else if m == 9 {
        "Sep"@
    } else if m == 10 {
        "Oct"@
    } else if m == 11 {
        "Nov"@
    } else {
        "Dec"@
    }
}

/// Whether a year has a leap day.
pub fn is_leap(y: u64) -> (r: bool)
    ensures
        r == ((y % 4 == 0 && y % 100 != 0) || y % 400 == 0),
{
    (y % 4 == 0 && y % 100 != 0) || y % 400 == 0
}

/// A modification time shown against the current moment: month and day for
/// dates in the current year, month and year otherwise.
pub fn format_date(time_secs: u64, now_secs: u64) -> (r: String)
    ensures
        ({
            let (y, m, d) = spec_civil_from_days((time_secs / 86400) as u64);
            let (ny, _, _) = spec_civil_from_days((now_secs / 86400) as u64);
            r@ == (if y != ny {
                spec_month_name(m) + " "@ + spec_u64_str(y)
            } else {
                spec_month_name(m) + " "@ + (if d < 10 {
                    seq!['0'] + spec_u64_str(d)
                } else {
                    spec_u64_str(d)
                })
            })
        }),
{
    let days = time_secs / 86400;
    let now_days = now_secs / 86400;
    proof {
        assert(days <= 300_000_000_000_000 && now_days <= 300_000_000_000_000)
            by (nonlinear_arith)
            requires
                days == time_secs / 86400,
                now_days == now_secs / 86400,
                time_secs <= u64::MAX,
                now_secs <= u64::MAX,
        ;
    }
    let (y, m, d) = civil_from_days(days);
    let (ny, _, _) = civil_from_days(now_days);
    let mut r = String::new();
    let mn = month_name(m);
    r.append(mn);
    r.append(" ");
    proof {
        reveal_strlit(" ");
    }
    if y != ny {
        let ys = u64_to_string(y);
        r.append(ys.as_str());
    } else {
        if d < 10 {
            r.append("0");
            proof {
                reveal_strlit("0");
                assert("0"@ =~= seq!['0']);
            }
        }
        let ds = u64_to_string(d);
        r.append(ds.as_str());
    }
    r
}


/// The first stored project path whose display name is the given slug.
pub open spec fn spec_find_project(dv: Seq<crate::record::TaskV>, slug: Seq<char>, from: int) -> Option<
    Seq<char>,
>
    decreases dv.len() - from,
{
    if from < 0 || from >= dv.len() {
        None
    } else if dv[from].project.len() > 0 && crate::artifact::spec_project_name(dv[from].project)
        == slug {
        Some(dv[from].project)
    } else {
        spec_find_project(dv, slug, from + 1)
    }
}

/// The project path a display slug names, taken from the first record whose
/// project matches; nothing when no record's project carries that name.
pub fn find_project_path(tasks: &Vec<crate::record::Task>, slug: &str) -> (r: Option<String>)
    ensures
        match r {
            Some(p) => spec_find_project(tasks.deep_view(), slug@, 0) == Some(p@),
            None => spec_find_project(tasks.deep_view(), slug@, 0) is None,
        },
{
    let ghost dv = tasks.deep_view();
    let mut i: usize = 0;
    while i < tasks.len()
        invariant
            i <= tasks@.len(),
            dv == tasks.deep_view(),
            dv.len() == tasks@.len(),
            spec_find_project(dv, slug@, 0) == spec_find_project(dv, slug@, i as int),
        decreases tasks@.len() - i,
    {
        proof {
            assert(dv[i as int] == tasks@[i as int]@);
        }
        let t = &tasks[i];
        if t.project.as_str().unicode_len() > 0 {
            let name = crate::artifact::project_name(t.project.as_str());
            if crate::strutil::str_eq(name.as_str(), slug) {
                return Some(t.project.clone());
            }
        }
        i = i + 1;
    }
    None
}

/// How many records stand in each lifecycle state, in the order pending,
/// in progress, completed.
pub open spec fn spec_status_counts(dv: Seq<crate::record::TaskV>) -> (int, int, int)
    decreases dv.len(),
{
    if dv.len() == 0 {
        (0int, 0int, 0int)
    } else {
        let (p, a, c) = spec_status_counts(dv.drop_last());
        match dv.last().status {
            crate::record::StatusV::Pending => (p + 1, a, c),
            crate::record::StatusV::InProgress => (p, a + 1, c),
            crate::record::StatusV::Completed => (p, a, c + 1),
            crate::record::StatusV::Other(_) => (p, a, c),
        }
    }
}

/// Counts the records in each lifecycle state.
pub fn status_counts(tasks: &Vec<crate::record::Task>) -> (r: (usize, usize, usize))
    ensures
        ({
            let (p, a, c) = spec_status_counts(tasks.deep_view());
            r.0 == p && r.1 == a && r.2 == c
        }),
{
    let ghost dv = tasks.deep_view();
    let mut p: usize = 0;
    let mut a: usize = 0;
    let mut c: usize = 0;
    let mut i: usize = 0;
    proof {
        assert(dv.take(0) =~= Seq::<crate::record::TaskV>::empty());
    }
    while i < tasks.len()
        invariant
            i <= tasks@.len(),
            dv == tasks.deep_view(),
            dv.len() == tasks@.len(),
            p + a + c <= i,
            ({
                let (sp, sa, sc) = spec_status_counts(dv.take(i as int));
                p == sp && a == sa && c == sc
            }),
        decreases tasks@.len() - i,
    {
        proof {
            assert(dv[i as int] == tasks@[i as int]@);
            assert(dv.take(i + 1).drop_last() =~= dv.take(i as int));
            assert(dv.take(i + 1).last() == dv[i as int]);
        }
        match &tasks[i].status {
            crate::record::Status::Pending => {
                p = p + 1;
            },
            crate::record::Status::InProgress => {
                a = a + 1;
            },
            crate::record::Status::Completed => {
                c = c + 1;
            },
            crate::record::Status::Other(_) => {},
        }
        i = i + 1;
    }
    proof {
        assert(dv.take(dv.len() as int) =~= dv);
    }
    (p, a, c)
}

} // verus!
