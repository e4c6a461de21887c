//! Plan phase parsing: phase markers, their numbered tasks and indented
//! sub-items, the dependency rule between consecutive phases, and the JSON
//! rendering of the result.

use vstd::prelude::*;
use crate::filter::{lower_of, lowercase};
use crate::strutil::{
    chars_contain, chars_end_with, chars_start_with, contains_seq, ends_with, find_char, lines_of,
    parse_u64, replace_chars, slice_range, spec_find_char, spec_find_sub, spec_parse_u64,
    spec_replace, spec_trim, spec_u64_str, split_lines, starts_with, str_chars, string_of_chars,
    trim_chars, u64_to_string, find_sub,
};


verus! {

/// One numbered task of a phase, with its indented sub-items.
#[derive(Debug)]
pub struct Task {
    pub text: String,
    pub sub_tasks: Vec<String>,
}

/// The mathematical form of a task line.
#[verifier::ext_equal]
pub struct TaskItemV {
    pub text: Seq<char>,
    pub sub_tasks: Seq<Seq<char>>,
}

impl View for Task {
    type V = TaskItemV;

    open spec fn view(&self) -> TaskItemV {
        TaskItemV { text: self.text@, sub_tasks: self.sub_tasks.deep_view() }
    }
}

impl DeepView for Task {
    type V = TaskItemV;

    open spec fn deep_view(&self) -> TaskItemV {
        self.view()
    }
}

/// One plan phase: its number, title, tasks and dependencies.
#[derive(Debug)]
pub struct Phase {
    pub phase: u32,
    pub title: String,
    pub tasks: Vec<Task>,
    pub deps: Vec<u32>,
}

/// The mathematical form of a phase.
#[verifier::ext_equal]
pub struct PhaseV {
    pub phase: u32,
    pub title: Seq<char>,
    pub tasks: Seq<TaskItemV>,
    pub deps: Seq<u32>,
}

impl View for Phase {
    type V = PhaseV;

    open spec fn view(&self) -> PhaseV {
        PhaseV {
            phase: self.phase,
            title: self.title@,
            tasks: self.tasks.deep_view(),
            deps: self.deps@,
        }
    }
}

impl DeepView for Phase {
    type V = PhaseV;

    open spec fn deep_view(&self) -> PhaseV {
        self.view()
    }
}

/// The document body with any leading frontmatter removed.
pub open spec fn spec_strip_frontmatter(content: Seq<char>) -> Seq<char> {
    if !starts_with(content, "---\n"@) {
        content
    } else {
        let rest = content.skip(4);
        match spec_find_sub(rest, "\n---\n"@, 0) {
            Some(e) => rest.skip(e + 5),
            None => {
                if ends_with(rest, "\n---"@) {
                    Seq::empty()
                } else {
                    content
                }
            },
        }
    }
}

/// The document body with any leading frontmatter removed.
pub fn strip_frontmatter(content: &str) -> (r: String)
    ensures
        r@ == spec_strip_frontmatter(content@),
{
    let cs = str_chars(content);
    let open_delim = str_chars("---\n");
    proof {
        reveal_strlit("---\n");
        reveal_strlit("\n---\n");
        reveal_strlit("\n---");
        assert("---\n"@.len() == 4);
        assert("\n---\n"@.len() == 5);
        assert("\n---"@.len() == 4);
    }
    if !chars_start_with(cs.as_slice(), open_delim.as_slice()) {
        return string_of_chars(cs.as_slice());
    }
    let rest = slice_range(cs.as_slice(), 4, cs.len());
    proof {
        assert(rest@ =~= content@.skip(4));
    }
    let close_delim = str_chars("\n---\n");
    match find_sub(rest.as_slice(), close_delim.as_slice()) {
        Some(e) => {
            let body = slice_range(rest.as_slice(), e + 5, rest.len());
            proof {
                assert(body@ =~= content@.skip(4).skip(e + 5));
            }
            string_of_chars(body.as_slice())
        },
        None => {
            let close_end = str_chars("\n---");
            if chars_end_with(rest.as_slice(), close_end.as_slice()) {
                String::new()
            } else {
                string_of_chars(cs.as_slice())
            }
        },
    }
}

/// The phase number and title a bold phase marker line declares.
pub open spec fn spec_parse_bold_phase(line: Seq<char>) -> Option<(u32, Seq<char>)> {
    if starts_with(line, "**Phase "@) && ends_with(line, "**"@) && line.len() >= 10 {
        spec_phase_parts(line.subrange(8, line.len() - 2))
    } else {
        None
    }
}

/// The phase number and title a heading phase marker line declares.
pub open spec fn spec_parse_heading_phase(line: Seq<char>) -> Option<(u32, Seq<char>)> {
    if starts_with(line, "### Phase "@) {
        spec_phase_parts(line.skip(10))
    } else {
        None
    }
}

/// The number and title on either side of the colon of a phase marker.
pub open spec fn spec_phase_parts(s: Seq<char>) -> Option<(u32, Seq<char>)> {
    match spec_find_char(s, ':', 0) {
        Some(i) => {
            match spec_parse_u64(spec_trim(s.take(i))) {
                Some(n) => if n <= u32::MAX {
                    Some((n as u32, spec_trim(s.skip(i + 1))))
                } else {
                    None
                },
                None => None,
            }
        },
        None => None,
    }
}

fn phase_parts(s: &[char]) -> (r: Option<(u32, String)>)
    ensures
        match r {
            Some(p) => spec_phase_parts(s@) == Some((p.0, p.1@)),
            None => spec_phase_parts(s@) is None,
        },
{
    let n = s.len();
    match find_char(s, ':') {
        Some(i) => {
            let num_part = slice_range(s, 0, i);
            let num_t = trim_chars(num_part.as_slice());
            proof {
                assert(num_part@ =~= s@.take(i as int));
            }
            match parse_u64(num_t.as_slice()) {
                Some(num) => {
                    if num <= 0xffff_ffff {
                        let title_part = slice_range(s, i + 1, n);
                        let title = trim_chars(title_part.as_slice());
                        proof {
                            assert(title_part@ =~= s@.skip(i + 1));
                        }
                        Some((num as u32, string_of_chars(title.as_slice())))
                    } else {
                        None
                    }
                },
                None => None,
            }
        },
        None => None,
    }
}

/// Parses a bold phase marker: `**Phase N: Title**`.
pub fn parse_bold_phase(line: &str) -> (r: Option<(u32, String)>)
    ensures
        match r {
            Some(p) => spec_parse_bold_phase(line@) == Some((p.0, p.1@)),
            None => spec_parse_bold_phase(line@) is None,
        },
{
    let cs = str_chars(line);
    let prefix = str_chars("**Phase ");
    let suffix = str_chars("**");
    proof {
        reveal_strlit("**Phase ");
        reveal_strlit("**");
        assert("**Phase "@.len() == 8);
        assert("**"@.len() == 2);
    }
    if chars_start_with(cs.as_slice(), prefix.as_slice()) && chars_end_with(
        cs.as_slice(),
        suffix.as_slice(),
    ) && cs.len() >= 10 {
        let middle = slice_range(cs.as_slice(), 8, cs.len() - 2);
        proof {
            assert(middle@ =~= line@.subrange(8, line@.len() - 2));
        }
        phase_parts(middle.as_slice())
    } else {
        None
    }
}

/// Parses a heading phase marker: `### Phase N: Title`.
pub fn parse_heading_phase(line: &str) -> (r: Option<(u32, String)>)
    ensures
        match r {
            Some(p) => spec_parse_heading_phase(line@) == Some((p.0, p.1@)),
            None => spec_parse_heading_phase(line@) is None,
        },
{
    let cs = str_chars(line);
    let prefix = str_chars("### Phase ");
    proof {
        reveal_strlit("### Phase ");
        assert("### Phase "@.len() == 10);
    }
    if chars_start_with(cs.as_slice(), prefix.as_slice()) {
        let rest = slice_range(cs.as_slice(), 10, cs.len());
        proof {
            assert(rest@ =~= line@.skip(10));
        }
        phase_parts(rest.as_slice())
    } else {
        None
    }
}

/// The text of a numbered list item: digits, a dot, then a non-empty rest.
pub open spec fn spec_parse_numbered_item(line: Seq<char>) -> Option<Seq<char>> {
    let t = spec_trim(line);
    match spec_find_char(t, '.', 0) {
        Some(dot) => {
            let num = t.take(dot);
            if num.len() > 0 && (forall|j: int| 0 <= j < num.len() ==> '0' <= #[trigger] num[j]
                && num[j] <= '9') {
                let rest = spec_trim(t.skip(dot + 1));
                if rest.len() > 0 {
                    Some(rest)
                } else {
                    None
                }
            } else {
                None
            }
        },
        None => None,
    }
}

/// Parses a numbered list item into its text.
pub fn parse_numbered_item(line: &str) -> (r: Option<String>)
    ensures
        match r {
            Some(s) => spec_parse_numbered_item(line@) == Some(s@),
            None => spec_parse_numbered_item(line@) is None,
        },
{
    let cs0 = str_chars(line);
    let t = trim_chars(cs0.as_slice());
    match find_char(t.as_slice(), '.') {
        Some(dot) => {
            if dot == 0 {
                proof {
                    assert(spec_trim(line@).take(0).len() == 0);
                }
                return None;
            }
            let mut j: usize = 0;
            let mut all_digits = true;
            while j < dot
                invariant
                    dot < t@.len(),
                    j <= dot,
                    all_digits <==> (forall|q: int|
                        0 <= q < j ==> '0' <= #[trigger] t@[q] && t@[q] <= '9'),
                decreases dot - j,
            {
                let c = t[j];
                if !('0' <= c && c <= '9') {
                    all_digits = false;
                    j = dot;
                } else {
                    j = j + 1;
                }
            }
            if !all_digits {
                proof {
                    let num = spec_trim(line@).take(dot as int);
                    let q = choose|q: int| 0 <= q < dot && !('0' <= #[trigger] t@[q] && t@[q] <= '9');
                    assert(num[q] == t@[q]);
                }
                return None;
            }
            let tn = t.len();
            let rest_part = slice_range(t.as_slice(), dot + 1, tn);
            let rest = trim_chars(rest_part.as_slice());
            proof {
                assert(rest_part@ =~= spec_trim(line@).skip(dot + 1));
                let num = spec_trim(line@).take(dot as int);
                assert(forall|q: int| 0 <= q < num.len() ==> '0' <= #[trigger] num[q] && num[q]
                    <= '9') by {
                    assert(forall|q: int| 0 <= q < dot ==> #[trigger] num[q] == t@[q]);
                }
            }
            if rest.len() > 0 {
                Some(string_of_chars(rest.as_slice()))
            } else {
                None
            }
        },
        None => None,
    }
}

/// The text of an indented sub-item: a line starting with blank indent and
/// a dash or star bullet.
pub open spec fn spec_is_sub_item(line: Seq<char>) -> Option<Seq<char>> {
    if starts_with(line, "  "@) || starts_with(line, "\t"@) {
        let t = spec_trim(line);
        if starts_with(t, "- "@) {
            Some(t.skip(2))
        } else if starts_with(t, "* "@) {
            Some(t.skip(2))
        } else {
            None
        }
    } else {
        None
    }
}

/// Parses an indented sub-item into its text.
pub fn is_sub_item(line: &str) -> (r: Option<String>)
    ensures
        match r {
            Some(s) => spec_is_sub_item(line@) == Some(s@),
            None => spec_is_sub_item(line@) is None,
        },
{
    let cs = str_chars(line);
    let two_sp = str_chars("  ");
    let tab = str_chars("\t");
    proof {
        reveal_strlit("  ");
        reveal_strlit("\t");
        reveal_strlit("- ");
        reveal_strlit("* ");
        assert("- "@.len() == 2 && "* "@.len() == 2);
    }
    if chars_start_with(cs.as_slice(), two_sp.as_slice()) || chars_start_with(
        cs.as_slice(),
        tab.as_slice(),
    ) {
        let t = trim_chars(cs.as_slice());
        let dash = str_chars("- ");
        let star = str_chars("* ");
        if chars_start_with(t.as_slice(), dash.as_slice()) {
            let rest = slice_range(t.as_slice(), 2, t.len());
            proof {
                assert(rest@ =~= spec_trim(line@).skip(2));
            }
            Some(string_of_chars(rest.as_slice()))
        } else if chars_start_with(t.as_slice(), star.as_slice()) {
            let rest = slice_range(t.as_slice(), 2, t.len());
            proof {
                assert(rest@ =~= spec_trim(line@).skip(2));
            }
            Some(string_of_chars(rest.as_slice()))
        } else {
            None
        }
    } else {
        None
    }
}

/// The view of an optional open phase.
pub open spec fn cur_view(cur: Option<Phase>) -> Option<PhaseV> {
    match cur {
        Some(p) => Some(p@),
        None => None,
    }
}

/// One line's effect on the gathered phases: a phase marker closes the open
/// phase and opens a new one; inside a phase, an indented sub-item joins
/// the latest task, and a numbered line opens a new task; everything else
/// is prose and changes nothing.
pub open spec fn spec_phase_step(
    st: (Seq<PhaseV>, Option<PhaseV>),
    line: Seq<char>,
) -> (Seq<PhaseV>, Option<PhaseV>) {
    let (done, cur) = st;
    let t = spec_trim(line);
    let marker = if spec_parse_bold_phase(t) is Some {
        spec_parse_bold_phase(t)
    } else {
        spec_parse_heading_phase(t)
    };
    match marker {
        Some((num, title)) => {
            let done2 = match cur {
                Some(p) => done.push(p),
                None => done,
            };
            (done2, Some(PhaseV { phase: num, title, tasks: Seq::empty(), deps: Seq::empty() }))
        },
        None => {
            match cur {
                None => st,
                Some(p) => {
                    match spec_is_sub_item(line) {
                        Some(sub) => {
                            if p.tasks.len() > 0 {
                                let last = p.tasks.last();
                                let updated = TaskItemV {
                                    text: last.text,
                                    sub_tasks: last.sub_tasks.push(sub),
                                };
                                (
                                    done,
                                    Some(
                                        PhaseV {
                                            tasks: p.tasks.drop_last().push(updated),
                                            ..p
                                        },
                                    ),
                                )
                            } else {
                                st
                            }
                        },
                        None => {
                            match spec_parse_numbered_item(t) {
                                Some(text) => (
                                    done,
                                    Some(
                                        PhaseV {
                                            tasks: p.tasks.push(
                                                TaskItemV { text, sub_tasks: Seq::empty() },
                                            ),
                                            ..p
                                        },
                                    ),
                                ),
                                None => st,
                            }
                        },
                    }
                },
            }
        },
    }
}

pub open spec fn spec_phase_fold(ls: Seq<Seq<char>>) -> (Seq<PhaseV>, Option<PhaseV>)
    decreases ls.len(),
{
    if ls.len() == 0 {
        (Seq::empty(), None)
    } else {
        spec_phase_step(spec_phase_fold(ls.drop_last()), ls.last())
    }
}

/// Sequences joined with a separator.
pub open spec fn spec_join_with(xs: Seq<Seq<char>>, sep: Seq<char>) -> Seq<char>
    decreases xs.len(),
{
    if xs.len() == 0 {
        Seq::empty()
    } else if xs.len() == 1 {
        xs[0]
    } else {
        spec_join_with(xs.drop_last(), sep) + sep + xs.last()
    }
}

/// The text a phase's independence is judged on: its title and every task
/// text, space-separated.
pub open spec fn spec_combined(p: PhaseV) -> Seq<char> {
    p.title + " "@ + spec_join_with(p.tasks.map_values(|t: TaskItemV| t.text), " "@)
}

/// The dependency rule: the first phase and any phase declaring itself
/// independent depend on nothing; every other phase depends on its
/// predecessor.
pub open spec fn spec_with_deps(ps: Seq<PhaseV>) -> Seq<PhaseV> {
    Seq::new(
        ps.len(),
        |i: int|
            PhaseV {
                deps: if i == 0 || spec_is_independent(spec_combined(ps[i])) {
                    Seq::empty()
                } else {
                    seq![ps[i - 1].phase]
                },
                ..ps[i]
            },
    )
}

/// The phases a plan document declares.
pub open spec fn spec_parse_phases(content: Seq<char>) -> Seq<PhaseV> {
    let (done, cur) = spec_phase_fold(lines_of(spec_strip_frontmatter(content)));
    let all = match cur {
        Some(p) => done.push(p),
        None => done,
    };
    spec_with_deps(all)
}

/// Parses a plan document into its phases, with their tasks, sub-items and
/// dependencies.
pub fn parse_phases(content: &str) -> (r: Vec<Phase>)
    ensures
        r.deep_view() == spec_parse_phases(content@),
{
    let body = strip_frontmatter(content);
    let bc = str_chars(body.as_str());
    let ls = split_lines(bc.as_slice());
    let ghost lv = ls.deep_view();
    let mut done: Vec<Phase> = Vec::new();
    let mut cur: Option<Phase> = None;
    let mut i: usize = 0;
    proof {
        assert(lv.take(0) =~= Seq::<Seq<char>>::empty());
        assert(done.deep_view() =~= Seq::<PhaseV>::empty());
    }
    while i < ls.len()
        invariant
            i <= ls@.len(),
            lv == ls.deep_view(),
            lv.len() == ls@.len(),
            ({
                let st = spec_phase_fold(lv.take(i as int));
                &&& done.deep_view() == st.0
                &&& cur_view(cur) == st.1
            }),
        decreases ls@.len() - i,
    {
        proof {
            assert(lv[i as int] == ls@[i as int]@);
            assert(lv.take(i + 1).drop_last() =~= lv.take(i as int));
            assert(lv.take(i + 1).last() == lv[i as int]);
        }
        let ghost old_done = done.deep_view();
        let ghost old_cur = cur_view(cur);
        let t = trim_chars(ls[i].as_slice());
        let ts = string_of_chars(t.as_slice());
        let mut marker = parse_bold_phase(ts.as_str());
        if marker.is_none() {
            marker = parse_heading_phase(ts.as_str());
        }
        match marker {
            Some((num, title)) => {
                match cur {
                    Some(p) => {
                        let ghost pv = p@;
                        let ghost old_dv = done@;
                        done.push(p);
                        proof {
                            assert(done@ == old_dv.push(p));
                            assert(old_done.len() == old_dv.len());
                            assert(done.deep_view().len() == done@.len());
                            assert(done.deep_view()[old_dv.len() as int] == pv);
                            assert forall|j: int|
                                0 <= j < old_dv.len() implies done.deep_view()[j] == old_done[j] by {
                                assert(done@[j] == old_dv[j]);
                            }
                            assert(done.deep_view() =~= old_done.push(old_cur.unwrap()));
                        }
                    },
                    None => {},
                }
                cur = Some(Phase { phase: num, title, tasks: Vec::new(), deps: Vec::new() });
                proof {
                    assert(cur_view(cur).unwrap() =~~= spec_phase_step(
                        (old_done, old_cur),
                        lv[i as int],
                    ).1.unwrap());
                }
            },
            None => {
                match cur {
                    None => {
                        cur = None;
                    },
                    Some(p) => {
                        let mut p = p;
                        let raw_line = string_of_chars(ls[i].as_slice());
                        match is_sub_item(raw_line.as_str()) {
                            Some(sub) => {
                                if p.tasks.len() > 0 {
                                    let ghost before = p.tasks.deep_view();
                                    let ghost subv = sub@;
                                    let ghost before_rv = p.tasks@;
                                    match p.tasks.pop() {
                                        Some(mut task) => {
                                            let ghost tv = task@;
                                            proof {
                                                assert(before.len() == before_rv.len());
                                                assert(tv == before.last());
                                                assert(p.tasks@ == before_rv.subrange(
                                                    0,
                                                    before_rv.len() - 1,
                                                ));
                                                assert(p.tasks.deep_view().len() == p.tasks@.len());
                                                assert forall|j: int|
                                                    0 <= j < p.tasks@.len() implies p.tasks.deep_view()[j]
                                                    == before[j] by {
                                                    assert(p.tasks@[j] == before_rv[j]);
                                                }
                                                assert(p.tasks.deep_view() =~= before.drop_last());
                                            }
                                            task.sub_tasks.push(sub);
                                            proof {
                                                assert(task@ =~~= (TaskItemV {
                                                    text: tv.text,
                                                    sub_tasks: tv.sub_tasks.push(subv),
                                                }));
                                            }
                                            let ghost mid_deep = p.tasks.deep_view();
                                            let ghost mid_rv = p.tasks@;
                                            let ghost taskv = task@;
                                            p.tasks.push(task);
                                            proof {
                                                let stp = spec_phase_step(
                                                    (old_done, old_cur),
                                                    lv[i as int],
                                                );
                                                assert(p.tasks@ == mid_rv.push(task));
                                                assert(mid_deep.len() == mid_rv.len());
                                                assert(p.tasks.deep_view().len() == p.tasks@.len());
                                                assert(p.tasks.deep_view()[mid_rv.len() as int]
                                                    == taskv);
                                                assert forall|j: int|
                                                    0 <= j < mid_rv.len() implies p.tasks.deep_view()[j]
                                                    == mid_deep[j] by {
                                                    assert(p.tasks@[j] == mid_rv[j]);
                                                }
                                                assert(p.tasks.deep_view() =~~= before.drop_last().push(
                                                    TaskItemV {
                                                        text: tv.text,
                                                        sub_tasks: tv.sub_tasks.push(subv),
                                                    },
                                                ));
                                                assert(p.tasks.deep_view() =~~= stp.1.unwrap().tasks);
                                                assert(p@ =~~= stp.1.unwrap());
                                            }
                                        },
                                        None => {},
                                    }
                                }
                                cur = Some(p);
                            },
                            None => {
                                match parse_numbered_item(ts.as_str()) {
                                    Some(text) => {
                                        let ghost before = p.tasks.deep_view();
                                        let ghost before_rv = p.tasks@;
                                        let ghost tx = text@;
                                        let item = Task { text, sub_tasks: Vec::new() };
                                        let ghost itemv = item@;
                                        p.tasks.push(item);
                                        proof {
                                            let stp = spec_phase_step(
                                                (old_done, old_cur),
                                                lv[i as int],
                                            );
                                            assert(p.tasks@ == before_rv.push(item));
                                            assert(before.len() == before_rv.len());
                                            assert(p.tasks.deep_view().len() == p.tasks@.len());
                                            assert(p.tasks.deep_view()[before_rv.len() as int]
                                                == itemv);
                                            assert forall|j: int|
                                                0 <= j < before_rv.len() implies p.tasks.deep_view()[j]
                                                == before[j] by {
                                                assert(p.tasks@[j] == before_rv[j]);
                                            }
                                            assert(itemv =~~= (TaskItemV {
                                                text: tx,
                                                sub_tasks: Seq::empty(),
                                            }));
                                            assert(p.tasks.deep_view() =~~= before.push(
                                                TaskItemV { text: tx, sub_tasks: Seq::empty() },
                                            ));
                                            assert(p.tasks.deep_view() =~~= stp.1.unwrap().tasks);
                                            assert(p@ =~~= stp.1.unwrap());
                                        }
                                    },
                                    None => {},
                                }
                                cur = Some(p);
                            },
                        }
                    },
                }
            },
        }
        i = i + 1;
    }
    proof {
        assert(lv.take(lv.len() as int) =~= lv);
    }
    let ghost flushed_done = done.deep_view();
    let ghost flushed_cur = cur_view(cur);
    match cur {
        Some(p) => {
            let ghost pv = p@;
            let ghost old_dv = done@;
            done.push(p);
            proof {
                assert(done@ == old_dv.push(p));
                assert(flushed_done.len() == old_dv.len());
                assert(done.deep_view().len() == done@.len());
                assert(done.deep_view()[old_dv.len() as int] == pv);
                assert forall|j: int|
                    0 <= j < old_dv.len() implies done.deep_view()[j] == flushed_done[j] by {
                    assert(done@[j] == old_dv[j]);
                }
                assert(done.deep_view() =~= flushed_done.push(flushed_cur.unwrap()));
            }
        },
        None => {},
    }
    // Second pass: the dependency rule over the gathered phases.
    let ghost all = done.deep_view();
    let mut out: Vec<Phase> = Vec::new();
    let mut k: usize = 0;
    let n = done.len();
    proof {
        assert(out.deep_view() =~= spec_with_deps(all).take(0));
    }
    while k < n
        invariant
            k <= n,
            n == done@.len(),
            all == done.deep_view(),
            all.len() == n,
            out.deep_view() == spec_with_deps(all).take(k as int),
        decreases n - k,
    {
        proof {
            assert(all[k as int] == done@[k as int]@);
        }
        let p = &done[k];
        // The independence text: the title, a space, then the task texts
        // space-separated.
        let mut combined = p.title.clone();
        combined.append(" ");
        let mut q: usize = 0;
        let ghost texts = all[k as int].tasks.map_values(|t: TaskItemV| t.text);
        proof {
            reveal_strlit(" ");
            assert(texts.take(0) =~= Seq::<Seq<char>>::empty());
            assert(combined@ =~= all[k as int].title + " "@ + spec_join_with(texts.take(0), " "@));
        }
        while q < p.tasks.len()
            invariant
                q <= p.tasks@.len(),
                k < n,
                n == done@.len(),
                all == done.deep_view(),
                p == &done@[k as int],
                all[k as int] == done@[k as int]@,
                texts == all[k as int].tasks.map_values(|t: TaskItemV| t.text),
                texts.len() == p.tasks@.len(),
                combined@ == all[k as int].title + " "@ + spec_join_with(
                    texts.take(q as int),
                    " "@,
                ),
                " "@.len() == 1,
            decreases p.tasks@.len() - q,
        {
            proof {
                assert(all[k as int].tasks[q as int] == p.tasks@[q as int]@);
                assert(texts[q as int] == p.tasks@[q as int]@.text);
                assert(texts.take(q + 1).drop_last() =~= texts.take(q as int));
                assert(texts.take(q + 1).last() == texts[q as int]);
            }
            if q > 0 {
                combined.append(" ");
            }
            combined.append(p.tasks[q].text.as_str());
            proof {
                if q == 0 {
                    assert(texts.take(1).len() == 1);
                    assert(spec_join_with(texts.take(1), " "@) == texts[0]);
                    assert(combined@ =~= all[k as int].title + " "@ + spec_join_with(
                        texts.take(1),
                        " "@,
                    ));
                } else {
                    assert(combined@ =~= all[k as int].title + " "@ + (spec_join_with(
                        texts.take(q as int),
                        " "@,
                    ) + " "@ + texts[q as int]));
                }
            }
            q = q + 1;
        }
        proof {
            assert(texts.take(texts.len() as int) =~= texts);
            assert(combined@ == spec_combined(all[k as int]));
        }
        let deps: Vec<u32> = if k == 0 || is_independent(combined.as_str()) {
            Vec::new()
        } else {
            let mut d: Vec<u32> = Vec::new();
            d.push(done[k - 1].phase);
            proof {
                assert(all[k - 1] == done@[k - 1]@);
                assert(d@ =~= seq![all[k - 1].phase]);
            }
            d
        };
        let np = Phase {
            phase: p.phase,
            title: p.title.clone(),
            tasks: copy_tasks(&p.tasks),
            deps,
        };
        let ghost npv = np@;
        let ghost old_deep = out.deep_view();
        let ghost old_ov = out@;
        proof {
            assert(np@.tasks =~~= all[k as int].tasks);
            assert(np@ =~~= spec_with_deps(all)[k as int]);
        }
        out.push(np);
        proof {
            assert(out@ == old_ov.push(np));
            assert(old_deep.len() == old_ov.len());
            assert(old_deep.len() == k as int);
            assert(out.deep_view().len() == out@.len());
            assert(out.deep_view()[k as int] == npv);
            assert forall|j: int| 0 <= j < k implies out.deep_view()[j] == old_deep[j] by {
                assert(out@[j] == old_ov[j]);
            }
            assert(out.deep_view() =~~= spec_with_deps(all).take(k + 1));
        }
        k = k + 1;
    }
    proof {
        assert(spec_with_deps(all).take(n as int) =~= spec_with_deps(all));
    }
    out
}

/// A text escaped for a JSON string literal: backslashes, quotes, newlines,
/// carriage returns and tabs.
pub open spec fn spec_json_escape(s: Seq<char>) -> Seq<char> {
    spec_replace(
        spec_replace(
            spec_replace(
                spec_replace(spec_replace(s, seq!['\\'], seq!['\\', '\\']), seq!['"'], seq!['\\', '"']),
                seq!['\n'],
                seq!['\\', 'n'],
            ),
            seq!['\r'],
            seq!['\\', 'r'],
        ),
        seq!['\t'],
        seq!['\\', 't'],
    )
}

fn json_escape(s: &str) -> (r: Vec<char>)
    ensures
        r@ == spec_json_escape(s@),
{
    let cs = str_chars(s);
    let p1 = one_c('\\');
    let r1 = two_c('\\', '\\');
    let a = replace_chars(cs.as_slice(), p1.as_slice(), r1.as_slice());
    let p2 = one_c('"');
    let r2 = two_c('\\', '"');
    let b = replace_chars(a.as_slice(), p2.as_slice(), r2.as_slice());
    let p3 = one_c('\n');
    let r3 = two_c('\\', 'n');
    let c = replace_chars(b.as_slice(), p3.as_slice(), r3.as_slice());
    let p4 = one_c('\r');
    let r4 = two_c('\\', 'r');
    let d = replace_chars(c.as_slice(), p4.as_slice(), r4.as_slice());
    let p5 = one_c('\t');
    let r5 = two_c('\\', 't');
    replace_chars(d.as_slice(), p5.as_slice(), r5.as_slice())
}

fn one_c(c: char) -> (r: Vec<char>)
    ensures
        r@ == seq![c],
{
    let mut r: Vec<char> = Vec::new();
    r.push(c);
    proof {
        assert(r@ =~= seq![c]);
    }
    r
}

fn two_c(a: char, b: char) -> (r: Vec<char>)
    ensures
        r@ == seq![a, b],
{
    let mut r: Vec<char> = Vec::new();
    r.push(a);
    r.push(b);
    proof {
        assert(r@ =~= seq![a, b]);
    }
    r
}

/// The JSON text of one task: its escaped text and its escaped sub-items.
pub open spec fn spec_task_json(t: TaskItemV) -> Seq<char> {
    "{\"text\": \""@ + spec_json_escape(t.text) + "\", \"sub_tasks\": ["@ + spec_join_with(
        t.sub_tasks.map_values(|s: Seq<char>| seq!['"'] + spec_json_escape(s) + seq!['"']),
        ", "@,
    ) + "]}"@
}

/// The JSON text of one phase.
pub open spec fn spec_phase_json(p: PhaseV) -> Seq<char> {
    "  {\n    \"phase\": "@ + spec_u64_str(p.phase as u64) + ",\n    \"title\": \""@
        + spec_json_escape(p.title) + "\",\n    \"tasks\": ["@ + spec_join_with(
        p.tasks.map_values(|t: TaskItemV| spec_task_json(t)),
        ", "@,
    ) + "],\n    \"deps\": ["@ + spec_join_with(
        p.deps.map_values(|d: u32| spec_u64_str(d as u64)),
        ", "@,
    ) + "]\n  }"@
}

/// The JSON document of a phase list.
pub open spec fn spec_phases_json(ps: Seq<PhaseV>) -> Seq<char> {
    "[\n"@ + spec_join_with(ps.map_values(|p: PhaseV| spec_phase_json(p)), ",\n"@) + "\n]"@
}

fn task_json(t: &Task) -> (r: String)
    ensures
        r@ == spec_task_json(t@),
{
    let mut r = String::new();
    r.append("{\"text\": \"");
    let te = json_escape(t.text.as_str());
    let tes = string_of_chars(te.as_slice());
    r.append(tes.as_str());
    r.append("\", \"sub_tasks\": [");
    let ghost items = t@.sub_tasks.map_values(
        |s: Seq<char>| seq!['"'] + spec_json_escape(s) + seq!['"'],
    );
    let ghost base = r@;
    let mut q: usize = 0;
    proof {
        assert(items.take(0) =~= Seq::<Seq<char>>::empty());
        assert(r@ =~= base + spec_join_with(items.take(0), ", "@));
        reveal_strlit(", ");
    }
    while q < t.sub_tasks.len()
        invariant
            q <= t.sub_tasks@.len(),
            items == t@.sub_tasks.map_values(
                |s: Seq<char>| seq!['"'] + spec_json_escape(s) + seq!['"'],
            ),
            items.len() == t.sub_tasks@.len(),
            t@.sub_tasks.len() == t.sub_tasks@.len(),
            r@ == base + spec_join_with(items.take(q as int), ", "@),
            ", "@.len() == 2,
        decreases t.sub_tasks@.len() - q,
    {
        proof {
            assert(t@.sub_tasks[q as int] == t.sub_tasks@[q as int]@);
            assert(items.take(q + 1).drop_last() =~= items.take(q as int));
            assert(items.take(q + 1).last() == items[q as int]);
        }
        if q > 0 {
            r.append(", ");
        }
        r.append("\"");
        let se = json_escape(t.sub_tasks[q].as_str());
        let ses = string_of_chars(se.as_slice());
        r.append(ses.as_str());
        r.append("\"");
        proof {
            reveal_strlit("\"");
            assert("\""@ =~= seq!['"']);
            if q == 0 {
                assert(items.take(1).len() == 1);
                assert(r@ =~= base + spec_join_with(items.take(1), ", "@));
            } else {
                assert(r@ =~= base + (spec_join_with(items.take(q as int), ", "@) + ", "@
                    + items[q as int]));
            }
        }
        q = q + 1;
    }
    proof {
        assert(items.take(items.len() as int) =~= items);
    }
    r.append("]}");
    r
}

/// The JSON rendering of a phase list, with every text escaped.
pub fn to_json(phases: &Vec<Phase>) -> (r: String)
    ensures
        r@ == spec_phases_json(phases.deep_view()),
{
    let ghost pv = phases.deep_view();
    let ghost items = pv.map_values(|p: PhaseV| spec_phase_json(p));
    let mut r = String::new();
    r.append("[\n");
    let ghost base = r@;
    let mut i: usize = 0;
    proof {
        assert(items.take(0) =~= Seq::<Seq<char>>::empty());
        assert(r@ =~= base + spec_join_with(items.take(0), ",\n"@));
        reveal_strlit(",\n");
    }
    while i < phases.len()
        invariant
            i <= phases@.len(),
            pv == phases.deep_view(),
            pv.len() == phases@.len(),
            items == pv.map_values(|p: PhaseV| spec_phase_json(p)),
            items.len() == phases@.len(),
            base == "[\n"@,
            r@ == base + spec_join_with(items.take(i as int), ",\n"@),
            ",\n"@.len() == 2,
        decreases phases@.len() - i,
    {
        proof {
            assert(pv[i as int] == phases@[i as int]@);
            assert(items.take(i + 1).drop_last() =~= items.take(i as int));
            assert(items.take(i + 1).last() == items[i as int]);
        }
        if i > 0 {
            r.append(",\n");
        }
        let pj = phase_json(&phases[i]);
        r.append(pj.as_str());
        proof {
            if i == 0 {
                assert(items.take(1).len() == 1);
                assert(r@ =~= base + spec_join_with(items.take(1), ",\n"@));
            } else {
                assert(r@ =~= base + (spec_join_with(items.take(i as int), ",\n"@) + ",\n"@
                    + items[i as int]));
            }
        }
        i = i + 1;
    }
    proof {
        assert(items.take(items.len() as int) =~= items);
    }
    r.append("\n]");
    r
}

fn phase_json(p: &Phase) -> (r: String)
    ensures
        r@ == spec_phase_json(p@),
{
    let mut r = String::new();
    r.append("  {\n    \"phase\": ");
    let ns = u64_to_string(p.phase as u64);
    r.append(ns.as_str());
    r.append(",\n    \"title\": \"");
    let te = json_escape(p.title.as_str());
    let tes = string_of_chars(te.as_slice());
    r.append(tes.as_str());
    r.append("\",\n    \"tasks\": [");
    let ghost titems = p@.tasks.map_values(|t: TaskItemV| spec_task_json(t));
    let ghost base1 = r@;
    let mut q: usize = 0;
    proof {
        assert(titems.take(0) =~= Seq::<Seq<char>>::empty());
        assert(r@ =~= base1 + spec_join_with(titems.take(0), ", "@));
        reveal_strlit(", ");
    }
    while q < p.tasks.len()
        invariant
            q <= p.tasks@.len(),
            titems == p@.tasks.map_values(|t: TaskItemV| spec_task_json(t)),
            titems.len() == p.tasks@.len(),
            p@.tasks.len() == p.tasks@.len(),
            r@ == base1 + spec_join_with(titems.take(q as int), ", "@),
            ", "@.len() == 2,
        decreases p.tasks@.len() - q,
    {
        proof {
            assert(p@.tasks[q as int] == p.tasks@[q as int]@);
            assert(titems.take(q + 1).drop_last() =~= titems.take(q as int));
            assert(titems.take(q + 1).last() == titems[q as int]);
        }
        if q > 0 {
            r.append(", ");
        }
        let tj = task_json(&p.tasks[q]);
        r.append(tj.as_str());
        proof {
            if q == 0 {
                assert(titems.take(1).len() == 1);
                assert(r@ =~= base1 + spec_join_with(titems.take(1), ", "@));
            } else {
                assert(r@ =~= base1 + (spec_join_with(titems.take(q as int), ", "@) + ", "@
                    + titems[q as int]));
            }
        }
        q = q + 1;
    }
    proof {
        assert(titems.take(titems.len() as int) =~= titems);
    }
    r.append("],\n    \"deps\": [");
    let ghost ditems = p@.deps.map_values(|d: u32| spec_u64_str(d as u64));
    let ghost base2 = r@;
    let mut w: usize = 0;
    proof {
        assert(ditems.take(0) =~= Seq::<Seq<char>>::empty());
        assert(r@ =~= base2 + spec_join_with(ditems.take(0), ", "@));
    }
    while w < p.deps.len()
        invariant
            w <= p.deps@.len(),
            ditems == p@.deps.map_values(|d: u32| spec_u64_str(d as u64)),
            ditems.len() == p.deps@.len(),
            p@.deps.len() == p.deps@.len(),
            r@ == base2 + spec_join_with(ditems.take(w as int), ", "@),
            ", "@.len() == 2,
        decreases p.deps@.len() - w,
    {
        proof {
            assert(p@.deps[w as int] == p.deps@[w as int]);
            assert(ditems.take(w + 1).drop_last() =~= ditems.take(w as int));
            assert(ditems.take(w + 1).last() == ditems[w as int]);
        }
        if w > 0 {
            r.append(", ");
        }
        let ds = u64_to_string(p.deps[w] as u64);
        r.append(ds.as_str());
        proof {
            if w == 0 {
                assert(ditems.take(1).len() == 1);
                assert(r@ =~= base2 + spec_join_with(ditems.take(1), ", "@));
            } else {
                assert(r@ =~= base2 + (spec_join_with(ditems.take(w as int), ", "@) + ", "@
                    + ditems[w as int]));
            }
        }
        w = w + 1;
    }
    proof {
        assert(ditems.take(ditems.len() as int) =~= ditems);
    }
    r.append("]\n  }");
    r
}

fn copy_tasks(v: &Vec<Task>) -> (r: Vec<Task>)
    ensures
        r.deep_view() == v.deep_view(),
{
    let mut r: Vec<Task> = Vec::new();
    let mut i: usize = 0;
    proof {
        assert(r.deep_view() =~= v.deep_view().take(0));
    }
    while i < v.len()
        invariant
            i <= v@.len(),
            v.deep_view().len() == v@.len(),
            r.deep_view() == v.deep_view().take(i as int),
        decreases v@.len() - i,
    {
        proof {
            assert(v.deep_view()[i as int] == v@[i as int]@);
        }
        let t = &v[i];
        let copy = Task { text: t.text.clone(), sub_tasks: crate::codec::copy_strings(&t.sub_tasks) };
        let ghost cv = copy@;
        let ghost old_deep = r.deep_view();
        let ghost old_rv = r@;
        proof {
            assert(copy@ =~~= v@[i as int]@);
        }
        r.push(copy);
        proof {
            assert(r@ == old_rv.push(copy));
            assert(old_deep.len() == old_rv.len());
            assert(old_deep.len() == i as int);
            assert(r.deep_view().len() == r@.len());
            assert(r.deep_view()[i as int] == cv);
            assert forall|j: int| 0 <= j < i implies r.deep_view()[j] == old_deep[j] by {
                assert(r@[j] == old_rv[j]);
            }
            assert(r.deep_view() =~~= v.deep_view().take(i + 1));
        }
        i = i + 1;
    }
    proof {
        assert(v.deep_view().take(v@.len() as int) =~= v.deep_view());
    }
    r
}

/// Whether a phase's text declares it independent of its predecessor.
pub open spec fn spec_is_independent(text: Seq<char>) -> bool {
    contains_seq(lower_of(text), "independent of"@) || contains_seq(
        lower_of(text),
        "no dependency"@,
    )
}

/// Whether a phase's combined text declares it independent, matched
/// case-insensitively.
pub fn is_independent(text: &str) -> (r: bool)
    ensures
        r == spec_is_independent(text@),
{
    let lowered = lowercase(text);
    let lc = str_chars(lowered.as_str());
    let p1 = str_chars("independent of");
    let p2 = str_chars("no dependency");
    chars_contain(lc.as_slice(), p1.as_slice()) || chars_contain(lc.as_slice(), p2.as_slice())
}

} // verus!
