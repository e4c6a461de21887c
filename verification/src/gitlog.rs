//! Parsing of version-control listings: the commit log with its changed
//! files, and the file name of a diff section header.

use vstd::prelude::*;
use crate::strutil::{
    chars_start_with, find_char, lines_of, slice_range, spec_find_char, spec_trim, split_lines,
    starts_with, str_chars, string_of_chars, trim_chars,
};

verus! {

/// One step of commit-log parsing: a blank line closes the commit being
/// gathered; the first non-blank line after a boundary is the commit hash,
/// also closing any gathered files; any other line is a changed file,
/// recorded once per commit.
pub open spec fn spec_log_step(
    st: (Seq<Seq<Seq<char>>>, Seq<Seq<char>>, bool),
    line: Seq<char>,
) -> (Seq<Seq<Seq<char>>>, Seq<Seq<char>>, bool) {
    let (commits, current, before_hash) = st;
    let t = spec_trim(line);
    if t.len() == 0 {
        if current.len() > 0 {
            (commits.push(current), Seq::empty(), true)
        } else {
            (commits, current, true)
        }
    } else if before_hash {
        if current.len() > 0 {
            (commits.push(current), Seq::empty(), false)
        } else {
            (commits, current, false)
        }
    } else {
        if current.contains(t) {
            (commits, current, before_hash)
        } else {
            (commits, current.push(t), before_hash)
        }
    }
}

pub open spec fn spec_log_fold(ls: Seq<Seq<char>>) -> (Seq<Seq<Seq<char>>>, Seq<Seq<char>>, bool)
    decreases ls.len(),
{
    if ls.len() == 0 {
        (Seq::empty(), Seq::empty(), true)
    } else {
        spec_log_step(spec_log_fold(ls.drop_last()), ls.last())
    }
}

/// The commits of a log listing, each as its set of changed files in first
/// appearance order.
pub open spec fn spec_parse_commit_log(output: Seq<char>) -> Seq<Seq<Seq<char>>> {
    let t = spec_trim(output);
    if t.len() == 0 {
        Seq::empty()
    } else {
        let (commits, current, _) = spec_log_fold(lines_of(t));
        if current.len() > 0 {
            commits.push(current)
        } else {
            commits
        }
    }
}

/// Parses a commit log listing — hash lines, changed-file lines, blank
/// boundaries — into one file list per commit, duplicates dropped.
pub fn parse_commit_log(output: &str) -> (r: Vec<Vec<String>>)
    ensures
        r.deep_view() == spec_parse_commit_log(output@),
{
    let cs0 = str_chars(output);
    let cs = trim_chars(cs0.as_slice());
    if cs.len() == 0 {
        let r: Vec<Vec<String>> = Vec::new();
        proof {
            assert(r.deep_view() =~= spec_parse_commit_log(output@));
        }
        return r;
    }
    let ls = split_lines(cs.as_slice());
    let ghost lv = ls.deep_view();
    let mut commits: Vec<Vec<String>> = Vec::new();
    let mut current: Vec<String> = Vec::new();
    let mut before_hash = true;
    let mut i: usize = 0;
    proof {
        assert(lv.take(0) =~= Seq::<Seq<char>>::empty());
        assert(commits.deep_view() =~= Seq::<Seq<Seq<char>>>::empty());
        assert(current.deep_view() =~= Seq::<Seq<char>>::empty());
    }
    while i < ls.len()
        invariant
            i <= ls@.len(),
            lv == ls.deep_view(),
            lv.len() == ls@.len(),
            ({
                let st = spec_log_fold(lv.take(i as int));
                &&& commits.deep_view() == st.0
                &&& current.deep_view() == st.1
                &&& before_hash == st.2
            }),
        decreases ls@.len() - i,
    {
        proof {
            assert(lv[i as int] == ls@[i as int]@);
            assert(lv.take(i + 1).drop_last() =~= lv.take(i as int));
            assert(lv.take(i + 1).last() == lv[i as int]);
        }
        let ghost old_commits = commits.deep_view();
        let ghost old_current = current.deep_view();
        let t = trim_chars(ls[i].as_slice());
        if t.len() == 0 {
            if current.len() > 0 {
                commits.push(current);
                current = Vec::new();
                proof {
                    assert(commits.deep_view() =~= old_commits.push(old_current));
                    assert(current.deep_view() =~= Seq::<Seq<char>>::empty());
                }
            }
            before_hash = true;
        } else if before_hash {
            if current.len() > 0 {
                commits.push(current);
                current = Vec::new();
                proof {
                    assert(commits.deep_view() =~= old_commits.push(old_current));
                    assert(current.deep_view() =~= Seq::<Seq<char>>::empty());
                }
            }
            before_hash = false;
        } else {
            let mut seen = false;
            let mut k: usize = 0;
            while k < current.len()
                invariant
                    k <= current@.len(),
                    old_current == current.deep_view(),
                    old_current.len() == current@.len(),
                    t@ == spec_trim(lv[i as int]),
                    seen <==> (exists|q: int| 0 <= q < k && old_current[q] == t@),
                decreases current@.len() - k,
            {
                proof {
                    assert(old_current[k as int] == current@[k as int]@);
                }
                if crate::strutil::chars_eq_str(t.as_slice(), current[k].as_str()) {
                    seen = true;
                    proof {
                        assert(old_current[k as int] == t@);
                    }
                    k = current.len();
                } else {
                    k = k + 1;
                }
            }
            if !seen {
                proof {
                    assert(!old_current.contains(t@));
                }
                current.push(string_of_chars(t.as_slice()));
                proof {
                    assert(current.deep_view() =~= old_current.push(t@));
                }
            } else {
                proof {
                    assert(old_current.contains(t@));
                }
            }
        }
        i = i + 1;
    }
    proof {
        assert(lv.take(lv.len() as int) =~= lv);
    }
    let ghost final_commits = commits.deep_view();
    let ghost final_current = current.deep_view();
    if current.len() > 0 {
        commits.push(current);
        proof {
            assert(commits.deep_view() =~= final_commits.push(final_current));
        }
    }
    commits
}

/// The file a diff section header names: the first path with its leading
/// marker stripped, or a placeholder when the header has another shape.
pub open spec fn spec_extract_filename(header: Seq<char>) -> Seq<char> {
    let t = spec_trim(header);
    if starts_with(t, "diff --git "@) {
        let after = t.skip(11);
        match spec_find_char(after, ' ', 0) {
            Some(sp) => {
                let a_path = after.take(sp);
                if starts_with(a_path, "a/"@) {
                    a_path.skip(2)
                } else {
                    a_path
                }
            },
            None => "<unknown>"@,
        }
    } else {
        "<unknown>"@
    }
}

/// The file a diff section header names.
pub fn extract_filename(header_line: &str) -> (r: String)
    ensures
        r@ == spec_extract_filename(header_line@),
{
    let cs0 = str_chars(header_line);
    let t = trim_chars(cs0.as_slice());
    let marker = str_chars("diff --git ");
    proof {
        reveal_strlit("diff --git ");
        reveal_strlit("a/");
        assert("diff --git "@.len() == 11);
        assert("a/"@.len() == 2);
    }
    if chars_start_with(t.as_slice(), marker.as_slice()) {
        let after = slice_range(t.as_slice(), 11, t.len());
        proof {
            assert(after@ =~= spec_trim(header_line@).skip(11));
        }
        match find_char(after.as_slice(), ' ') {
            Some(sp) => {
                let a_path = slice_range(after.as_slice(), 0, sp);
                proof {
                    assert(a_path@ =~= after@.take(sp as int));
                }
                let prefix = str_chars("a/");
                if chars_start_with(a_path.as_slice(), prefix.as_slice()) {
                    let stripped = slice_range(a_path.as_slice(), 2, a_path.len());
                    proof {
                        assert(stripped@ =~= a_path@.skip(2));
                    }
                    string_of_chars(stripped.as_slice())
                } else {
                    string_of_chars(a_path.as_slice())
                }
            },
            None => String::from_str("<unknown>"),
        }
    } else {
        String::from_str("<unknown>")
    }
}

} // verus!
