//! Plan and specification artifact handling: project naming, the artifact
//! directory layout, YAML frontmatter reading and writing, and timestamps.

use vstd::prelude::*;
use crate::strutil::{
    blank_char, chars_start_with, find_char, is_blank_char, lines_of, replace_chars, slice_range,
    spec_find_char, spec_replace, spec_trim, spec_u64_str, split_lines, starts_with, str_chars,
    string_of_chars, trim_chars, u64_chars, find_sub, spec_find_sub, ends_with, chars_end_with,
};

verus! {

/// The slash-separated segments of a path, empty segments dropped.
pub open spec fn spec_segments(s: Seq<char>) -> Seq<Seq<char>>
    decreases s.len(),
{
    if s.len() == 0 {
        Seq::empty()
    } else if s[0] == '/' {
        spec_segments(s.skip(1))
    } else {
        match spec_find_char(s, '/', 0) {
            Some(e) => {
                if 0 < e < s.len() {
                    seq![s.take(e)] + spec_segments(s.skip(e))
                } else {
                    Seq::empty()
                }
            },
            None => seq![s],
        }
    }
}

proof fn lemma_find_slash_shift(s: Seq<char>, from: int)
    requires
        0 <= from <= s.len(),
        forall|j: int| 0 <= j < from ==> s[j] != '/',
    ensures
        spec_find_char(s, '/', 0) == spec_find_char(s, '/', from),
    decreases from,
{
    if from > 0 {
        lemma_find_slash_shift(s, from - 1);
    }
}

/// Splits a path into its non-empty slash-separated segments.
pub fn path_segments(s: &[char]) -> (r: Vec<Vec<char>>)
    ensures
        r.deep_view() == spec_segments(s@),
{
    let mut r: Vec<Vec<char>> = Vec::new();
    let mut pos: usize = 0;
    proof {
        assert(s@.skip(0) =~= s@);
        assert(r.deep_view() =~= Seq::<Seq<char>>::empty());
    }
    while pos < s.len()
        invariant
            pos <= s@.len(),
            spec_segments(s@) == r.deep_view() + spec_segments(s@.skip(pos as int)),
        decreases s@.len() - pos,
    {
        let ghost old_deep = r.deep_view();
        if s[pos] == '/' {
            proof {
                let rest = s@.skip(pos as int);
                assert(rest[0] == s@[pos as int]);
                assert(rest.skip(1) =~= s@.skip(pos + 1));
            }
            pos = pos + 1;
        } else {
            let mut e: usize = pos;
            while e < s.len() && s[e] != '/'
                invariant
                    pos <= e <= s@.len(),
                    forall|j: int| pos <= j < e ==> s@[j] != '/',
                decreases s@.len() - e,
            {
                e = e + 1;
            }
            let word = slice_range(s, pos, e);
            let ghost rest = s@.skip(pos as int);
            proof {
                assert(rest[0] == s@[pos as int]);
                crate::strutil::lemma_find_char_in_range(rest, '/', 0);
                assert forall|j: int| 0 <= j < e - pos implies rest[j] != '/' by {
                    assert(rest[j] == s@[pos + j]);
                }
                lemma_find_slash_shift(rest, e - pos as int);
                if e < s.len() {
                    assert(rest[e - pos as int] == s@[e as int]);
                    assert(spec_find_char(rest, '/', e - pos as int) == Some(e - pos as int));
                    assert(rest.take(e - pos as int) =~= s@.subrange(pos as int, e as int));
                    assert(rest.skip(e - pos as int) =~= s@.skip(e as int));
                    assert(spec_segments(rest) == seq![word@] + spec_segments(s@.skip(e as int)));
                } else {
                    crate::strutil::lemma_find_char_in_range(rest, '/', e - pos as int);
                    assert(spec_find_char(rest, '/', e - pos as int) is None);
                    assert(rest =~= s@.subrange(pos as int, e as int));
                    assert(spec_segments(rest) == seq![word@]);
                    assert(s@.skip(e as int).len() == 0);
                }
            }
            proof {
                assert(word.deep_view() =~= word@);
            }
            r.push(word);
            proof {
                assert(r.deep_view() =~= old_deep.push(s@.subrange(pos as int, e as int)));
                assert(old_deep.push(s@.subrange(pos as int, e as int)) + spec_segments(
                    s@.skip(e as int),
                ) =~= old_deep + spec_segments(rest));
                if e >= s.len() {
                    assert(spec_segments(s@.skip(e as int)) =~= Seq::<Seq<char>>::empty());
                }
            }
            pos = e;
        }
    }
    proof {
        assert(spec_segments(s@.skip(pos as int)) =~= Seq::<Seq<char>>::empty());
        assert(r.deep_view() + spec_segments(s@.skip(pos as int)) =~= r.deep_view());
    }
    r
}

/// The remaining segments joined with hyphens.
pub open spec fn spec_join_dash(ws: Seq<Seq<char>>) -> Seq<char>
    decreases ws.len(),
{
    if ws.len() == 0 {
        Seq::empty()
    } else if ws.len() == 1 {
        ws[0]
    } else {
        spec_join_dash(ws.drop_last()) + seq!['-'] + ws.last()
    }
}

/// The display name of a project path: a repository directory (ending in
/// `.git`) gives its stem, with any deeper segments appended hyphenated so
/// worktrees get distinct names; any other path gives its last segment; an
/// empty path has no project.
pub open spec fn spec_project_name(s: Seq<char>) -> Seq<char> {
    if s.len() == 0 {
        "(no project)"@
    } else {
        let segs = spec_segments(s);
        match first_git_seg(segs, 0) {
            Some(i) => {
                let stem = segs[i].take(segs[i].len() - 4);
                if i == segs.len() - 1 {
                    stem
                } else {
                    stem + seq!['-'] + spec_join_dash(segs.skip(i + 1))
                }
            },
            None => {
                if segs.len() == 0 {
                    "(no project)"@
                } else {
                    segs.last()
                }
            },
        }
    }
}

/// The first segment ending in `.git`.
pub open spec fn first_git_seg(segs: Seq<Seq<char>>, from: int) -> Option<int>
    decreases segs.len() - from,
{
    if from < 0 || from >= segs.len() {
        None
    } else if ends_with(segs[from], ".git"@) {
        Some(from)
    } else {
        first_git_seg(segs, from + 1)
    }
}

/// The display name of a project path.
pub fn project_name(project_path: &str) -> (r: String)
    ensures
        r@ == spec_project_name(project_path@),
{
    let cs = str_chars(project_path);
    if cs.len() == 0 {
        let r = String::from_str("(no project)");
        return r;
    }
    let segs = path_segments(cs.as_slice());
    let ghost sv = segs.deep_view();
    let git_suffix = str_chars(".git");
    proof {
        reveal_strlit(".git");
    }
    let mut i: usize = 0;
    while i < segs.len()
        invariant
            i <= segs@.len(),
            sv == segs.deep_view(),
            sv.len() == segs@.len(),
            sv == spec_segments(project_path@),
            project_path@.len() > 0,
            git_suffix@ == ".git"@,
            ".git"@.len() == 4,
            first_git_seg(sv, 0) == first_git_seg(sv, i as int),
        decreases segs@.len() - i,
    {
        proof {
            assert(sv[i as int] == segs@[i as int]@);
        }
        if chars_end_with(segs[i].as_slice(), git_suffix.as_slice()) {
            proof {
                assert(first_git_seg(sv, i as int) == Some(i as int));
            }
            let seg_len = segs[i].len();
            let stem = slice_range(segs[i].as_slice(), 0, seg_len - 4);
            proof {
                assert(stem@ =~= sv[i as int].take(sv[i as int].len() - 4));
            }
            if i == segs.len() - 1 {
                return string_of_chars(stem.as_slice());
            }
            // Join the remaining segments with hyphens after the stem.
            let mut out: Vec<char> = slice_range(stem.as_slice(), 0, stem.len());
            proof {
                assert(out@ =~= stem@);
            }
            let mut k: usize = i + 1;
            proof {
                assert(sv.skip(i + 1).take(0) =~= Seq::<Seq<char>>::empty());
            }
            while k < segs.len()
                invariant
                    i < k <= segs@.len(),
                    i + 1 < segs@.len(),
                    sv == segs.deep_view(),
                    sv.len() == segs@.len(),
                    k > i + 1 ==> out@ == stem@ + seq!['-'] + spec_join_dash(
                        sv.skip(i + 1).take(k - i - 1),
                    ),
                    k == i + 1 ==> out@ == stem@,
                    stem@ == sv[i as int].take(sv[i as int].len() - 4),
                decreases segs@.len() - k,
            {
                proof {
                    assert(sv[k as int] == segs@[k as int]@);
                    assert(sv.skip(i + 1).take(k - i) =~= sv.skip(i + 1).take(k - i - 1).push(
                        sv[k as int],
                    ));
                    assert(sv.skip(i + 1).take(k - i).drop_last() =~= sv.skip(i + 1).take(
                        k - i - 1,
                    ));
                }
                out.push('-');
                let ghost base = out@;
                let mut j: usize = 0;
                while j < segs[k].len()
                    invariant
                        k < segs@.len(),
                        j <= segs@[k as int]@.len(),
                        out@ == base + segs@[k as int]@.take(j as int),
                    decreases segs@[k as int]@.len() - j,
                {
                    out.push(segs[k][j]);
                    proof {
                        assert(out@ =~= base + segs@[k as int]@.take(j + 1));
                    }
                    j = j + 1;
                }
                proof {
                    assert(segs@[k as int]@.take(segs@[k as int]@.len() as int) =~= sv[k as int]);
                    if k == i + 1 {
                        assert(sv.skip(i + 1).take(1).len() == 1);
                        assert(sv.skip(i + 1).take(1)[0] == sv[k as int]);
                        assert(out@ =~= stem@ + seq!['-'] + spec_join_dash(sv.skip(i + 1).take(1)));
                    } else {
                        assert(out@ =~= stem@ + seq!['-'] + (spec_join_dash(
                            sv.skip(i + 1).take(k - i - 1),
                        ) + seq!['-'] + sv[k as int]));
                    }
                }
                k = k + 1;
            }
            proof {
                assert(sv.skip(i + 1).take(sv.skip(i + 1).len() as int) =~= sv.skip(i + 1));
            }
            return string_of_chars(out.as_slice());
        }
        i = i + 1;
    }
    proof {
        assert(first_git_seg(sv, 0) is None);
    }
    if segs.len() == 0 {
        let r = String::from_str("(no project)");
        return r;
    }
    proof {
        assert(sv[sv.len() - 1] == segs@[segs@.len() - 1]@);
    }
    let last = segs.len() - 1;
    string_of_chars(segs[last].as_slice())
}

/// The directory a kind of artifact for a project lives in:
/// `<base>/.taskdeck/<kind>/<project name>`.
pub fn artifact_dir_with_base(project_path: &str, kind: &str, base: &str) -> (r: String)
    ensures
        r@ == base@ + "/.taskdeck/"@ + kind@ + "/"@ + spec_project_name(project_path@),
{
    let name = project_name(project_path);
    let mut r = String::new();
    r.append(base);
    r.append("/.taskdeck/");
    r.append(kind);
    r.append("/");
    r.append(name.as_str());
    r
}

/// The plans directory of a project under a base directory.
pub fn plans_dir_with_base(project_path: &str, base: &str) -> (r: String)
    ensures
        r@ == base@ + "/.taskdeck/"@ + "plans"@ + "/"@ + spec_project_name(project_path@),
{
    let r = artifact_dir_with_base(project_path, "plans", base);
    r
}


fn one_char_vec(c: char) -> (r: Vec<char>)
    ensures
        r@ == seq![c],
{
    let mut r: Vec<char> = Vec::new();
    r.push(c);
    proof {
        assert(r@ =~= seq![c]);
    }
    r
}

fn two_char_vec(a: char, b: char) -> (r: Vec<char>)
    ensures
        r@ == seq![a, b],
{
    let mut r: Vec<char> = Vec::new();
    r.push(a);
    r.push(b);
    proof {
        assert(r@ =~= seq![a, b]);
    }
    r
}

/// Whether a text needs YAML quoting: any structuring character, quote,
/// escape or newline, or a blank edge.
pub open spec fn spec_needs_quote(s: Seq<char>) -> bool {
    ||| (exists|i: int| 0 <= i < s.len() && is_yaml_special(#[trigger] s[i]))
    ||| (s.len() > 0 && (s[0] == ' ' || s.last() == ' '))
}

pub open spec fn is_yaml_special(c: char) -> bool {
    c == ':' || c == '{' || c == '}' || c == '[' || c == ']' || c == '&' || c == '*' || c == '?'
        || c == '|' || c == '>' || c == '!' || c == '%' || c == '@' || c == '`' || c == '#'
        || c == ',' || c == '"' || c == '\'' || c == '\n' || c == '\\'
}

fn yaml_special(c: char) -> (r: bool)
    ensures
        r == is_yaml_special(c),
{
    c == ':' || c == '{' || c == '}' || c == '[' || c == ']' || c == '&' || c == '*' || c == '?'
        || c == '|' || c == '>' || c == '!' || c == '%' || c == '@' || c == '`' || c == '#'
        || c == ',' || c == '"' || c == '\'' || c == '\n' || c == '\\'
}

/// Backslashes and double quotes escaped for a quoted YAML scalar.
pub open spec fn spec_yaml_escape(s: Seq<char>) -> Seq<char> {
    spec_replace(spec_replace(s, seq!['\\'], seq!['\\', '\\']), seq!['"'], seq!['\\', '"'])
}

/// The YAML scalar form of a text: quoted and escaped when it holds any
/// structuring character or a blank edge, verbatim otherwise.
pub fn yaml_quote(s: &str) -> (r: String)
    ensures
        r@ == (if spec_needs_quote(s@) {
            seq!['"'] + spec_yaml_escape(s@) + seq!['"']
        } else {
            s@
        }),
{
    let cs = str_chars(s);
    let mut needs = false;
    let mut i: usize = 0;
    while i < cs.len()
        invariant
            i <= cs@.len(),
            cs@ == s@,
            needs <==> (exists|j: int| 0 <= j < i && is_yaml_special(#[trigger] s@[j])),
        decreases cs@.len() - i,
    {
        if yaml_special(cs[i]) {
            needs = true;
            proof {
                assert(is_yaml_special(s@[i as int]));
            }
        }
        i = i + 1;
    }
    if cs.len() > 0 && (cs[0] == ' ' || cs[cs.len() - 1] == ' ') {
        needs = true;
    }
    if !needs {
        proof {
            assert(!spec_needs_quote(s@));
        }
        return string_of_chars(cs.as_slice());
    }
    let bs = one_char_vec('\\');
    let bs2 = two_char_vec('\\', '\\');
    let qt = one_char_vec('"');
    let qe = two_char_vec('\\', '"');
    let pass1 = replace_chars(cs.as_slice(), bs.as_slice(), bs2.as_slice());
    let pass2 = replace_chars(pass1.as_slice(), qt.as_slice(), qe.as_slice());
    let mut out: Vec<char> = Vec::new();
    out.push('"');
    let mut k: usize = 0;
    let ghost esc = pass2@;
    while k < pass2.len()
        invariant
            k <= pass2@.len(),
            esc == pass2@,
            out@ == seq!['"'] + esc.take(k as int),
        decreases pass2@.len() - k,
    {
        out.push(pass2[k]);
        proof {
            assert(out@ =~= seq!['"'] + esc.take(k + 1));
        }
        k = k + 1;
    }
    out.push('"');
    proof {
        assert(esc.take(esc.len() as int) =~= esc);
        assert(out@ =~= seq!['"'] + spec_yaml_escape(s@) + seq!['"']);
    }
    string_of_chars(out.as_slice())
}

/// How a document splits into frontmatter and body: it must open with a
/// delimiter line; the frontmatter runs to the closing delimiter; a
/// document without a proper close has no frontmatter.
pub open spec fn spec_frontmatter(content: Seq<char>) -> (Option<Seq<char>>, Seq<char>) {
    if !starts_with(content, "---\n"@) {
        (None, content)
    } else {
        let rest = content.skip(4);
        match spec_find_sub(rest, "\n---\n"@, 0) {
            Some(e) => (Some(rest.take(e)), rest.skip(e + 5)),
            None => {
                if ends_with(rest, "\n---"@) {
                    (Some(rest.take(rest.len() - 4)), Seq::empty())
                } else {
                    (None, content)
                }
            },
        }
    }
}

/// Splits a document into its YAML frontmatter and its body.
pub fn parse_frontmatter(content: &str) -> (r: (Option<String>, String))
    ensures
        ({
            let (y, b) = spec_frontmatter(content@);
            &&& (match r.0 {
                Some(ys) => y == Some(ys@),
                None => y is None,
            })
            &&& r.1@ == b
        }),
{
    let cs = str_chars(content);
    let open_delim = str_chars("---\n");
    proof {
        reveal_strlit("---\n");
        reveal_strlit("\n---\n");
        reveal_strlit("\n---");
        assert("---\n"@.len() == 4);
        assert("\n---\n"@.len() == 5);
        assert("\n---"@.len() == 4);
    }
    if !chars_start_with(cs.as_slice(), open_delim.as_slice()) {
        return (None, string_of_chars(cs.as_slice()));
    }
    let rest = slice_range(cs.as_slice(), 4, cs.len());
    proof {
        assert(rest@ =~= content@.skip(4));
    }
    let close_delim = str_chars("\n---\n");
    match find_sub(rest.as_slice(), close_delim.as_slice()) {
        Some(e) => {
            let yaml = slice_range(rest.as_slice(), 0, e);
            let body = slice_range(rest.as_slice(), e + 5, rest.len());
            proof {
                assert(yaml@ =~= content@.skip(4).take(e as int));
                assert(body@ =~= content@.skip(4).skip(e + 5));
            }
            (Some(string_of_chars(yaml.as_slice())), string_of_chars(body.as_slice()))
        },
        None => {
            let close_end = str_chars("\n---");
            if chars_end_with(rest.as_slice(), close_end.as_slice()) {
                let yaml = slice_range(rest.as_slice(), 0, rest.len() - 4);
                proof {
                    assert(yaml@ =~= content@.skip(4).take(content@.skip(4).len() - 4));
                }
                (Some(string_of_chars(yaml.as_slice())), String::new())
            } else {
                (None, string_of_chars(cs.as_slice()))
            }
        },
    }
}

/// One parsed frontmatter line: the trimmed key and its value, unquoted and
/// unescaped when it was quoted.
pub open spec fn spec_yaml_line(line: Seq<char>) -> Option<(Seq<char>, Seq<char>)> {
    let t = spec_trim(line);
    if t.len() == 0 {
        None
    } else {
        match spec_find_char(t, ':', 0) {
            Some(i) => {
                let key = spec_trim(t.take(i));
                let val = spec_trim(t.skip(i + 1));
                Some((key, spec_unquote(val)))
            },
            None => None,
        }
    }
}

/// A quoted scalar loses its quotes and its escapes; anything else stays.
pub open spec fn spec_unquote(val: Seq<char>) -> Seq<char> {
    if val.len() >= 2 && ((val[0] == '"' && val.last() == '"') || (val[0] == '\'' && val.last()
        == '\'')) {
        let inner = val.subrange(1, val.len() - 1);
        spec_replace(spec_replace(inner, seq!['\\', '"'], seq!['"']), seq!['\\', '\\'], seq!['\\'])
    } else {
        val
    }
}

/// The key/value pairs of a frontmatter block, in order; lines without a
/// colon drop out.
pub open spec fn spec_yaml_map(yaml: Seq<char>) -> Seq<(Seq<char>, Seq<char>)>
    decreases lines_of(yaml).len(),
{
    spec_yaml_map_lines(lines_of(yaml))
}

pub open spec fn spec_yaml_map_lines(ls: Seq<Seq<char>>) -> Seq<(Seq<char>, Seq<char>)>
    decreases ls.len(),
{
    if ls.len() == 0 {
        Seq::empty()
    } else {
        let rest = spec_yaml_map_lines(ls.drop_last());
        match spec_yaml_line(ls.last()) {
            Some(kv) => rest.push(kv),
            None => rest,
        }
    }
}

/// Pairwise match between built pairs and their mathematical form.
pub open spec fn yaml_pairs_match(r: Seq<(String, String)>, s: Seq<(Seq<char>, Seq<char>)>) -> bool {
    r.len() == s.len() && (forall|k: int|
        0 <= k < r.len() ==> ((#[trigger] r[k]).0@ == s[k].0 && r[k].1@ == s[k].1))
}

/// Parses a frontmatter block into its key/value pairs, in order.
pub fn parse_yaml_map(yaml: &str) -> (r: Vec<(String, String)>)
    ensures
        yaml_pairs_match(r@, spec_yaml_map(yaml@)),
{
    let cs = str_chars(yaml);
    let ls = split_lines(cs.as_slice());
    let ghost lv = ls.deep_view();
    let mut r: Vec<(String, String)> = Vec::new();
    let mut i: usize = 0;
    proof {
        assert(lv.take(0) =~= Seq::<Seq<char>>::empty());
    }
    while i < ls.len()
        invariant
            i <= ls@.len(),
            lv == ls.deep_view(),
            lv.len() == ls@.len(),
            yaml_pairs_match(r@, spec_yaml_map_lines(lv.take(i as int))),
        decreases ls@.len() - i,
    {
        proof {
            assert(lv[i as int] == ls@[i as int]@);
            assert(lv.take(i + 1).drop_last() =~= lv.take(i as int));
            assert(lv.take(i + 1).last() == lv[i as int]);
        }
        let t = trim_chars(ls[i].as_slice());
        if t.len() > 0 {
            match find_char(t.as_slice(), ':') {
                Some(ci) => {
                    let key_part = slice_range(t.as_slice(), 0, ci);
                    let key = trim_chars(key_part.as_slice());
                    let val_part = slice_range(t.as_slice(), ci + 1, t.len());
                    let val0 = trim_chars(val_part.as_slice());
                    proof {
                        assert(key_part@ =~= t@.take(ci as int));
                        assert(val_part@ =~= t@.skip(ci + 1));
                    }
                    let val = unquote_chars(val0.as_slice());
                    let ghost prev = r@;
                    let ghost prev_spec = spec_yaml_map_lines(lv.take(i as int));
                    proof {
                        assert(spec_yaml_line(lv[i as int]) == Some((key@, val@)));
                    }
                    r.push((string_of_chars(key.as_slice()), string_of_chars(val.as_slice())));
                    proof {
                        let now_spec = spec_yaml_map_lines(lv.take(i + 1));
                        assert(now_spec == prev_spec.push((key@, val@)));
                        assert forall|k: int| 0 <= k < r@.len() implies ((#[trigger] r@[k]).0@
                            == now_spec[k].0 && r@[k].1@ == now_spec[k].1) by {
                            if k < prev.len() {
                                assert(r@[k] == prev[k]);
                                assert(prev[k].0@ == prev_spec[k].0 && prev[k].1@
                                    == prev_spec[k].1);
                                assert(now_spec[k] == prev_spec[k]);
                            } else {
                                assert(now_spec[k] == (key@, val@));
                            }
                        }
                        assert(yaml_pairs_match(r@, now_spec));
                    }
                },
                None => {
                    proof {
                        assert(spec_find_char(t@, ':', 0) is None);
                        assert(spec_yaml_line(lv[i as int]) is None);
                        assert(spec_yaml_map_lines(lv.take(i + 1)) == spec_yaml_map_lines(
                            lv.take(i as int),
                        ));
                    }
                },
            }
        } else {
            proof {
                assert(t@.len() == 0);
                assert(spec_yaml_line(lv[i as int]) is None);
                assert(spec_yaml_map_lines(lv.take(i + 1)) == spec_yaml_map_lines(
                    lv.take(i as int),
                ));
            }
        }
        i = i + 1;
    }
    proof {
        assert(lv.take(lv.len() as int) =~= lv);
    }
    r
}

fn unquote_chars(val: &[char]) -> (r: Vec<char>)
    ensures
        r@ == spec_unquote(val@),
{
    if val.len() >= 2 && ((val[0] == '"' && val[val.len() - 1] == '"') || (val[0] == '\''
        && val[val.len() - 1] == '\'')) {
        let inner = slice_range(val, 1, val.len() - 1);
        let p1 = two_char_vec('\\', '"');
        let r1 = one_char_vec('"');
        let p2 = two_char_vec('\\', '\\');
        let r2 = one_char_vec('\\');
        let pass1 = replace_chars(inner.as_slice(), p1.as_slice(), r1.as_slice());
        let pass2 = replace_chars(pass1.as_slice(), p2.as_slice(), r2.as_slice());
        proof {
            assert(inner@ =~= val@.subrange(1, val@.len() - 1));
        }
        pass2
    } else {
        slice_range(val, 0, val.len())
    }
}

/// The timestamp text of a wall-clock second count, in the ISO-8601 form
/// `YYYY-MM-DDTHH:MM:SSZ` (more year digits when the year needs them).
pub fn chrono_rfc3339(secs: u64) -> (r: String)
    ensures
        r@.len() >= 20,
{
    let days = secs / 86400;
    proof {
        assert(days <= 300_000_000_000_000) by (nonlinear_arith)
            requires
                days == secs / 86400,
                secs <= u64::MAX,
        ;
    }
    let day_secs = secs % 86400;
    let hours = day_secs / 3600;
    let minutes = (day_secs % 3600) / 60;
    let seconds = day_secs % 60;
    let (year, m, d) = civil_from_days(days);
    let mut r = String::new();
    let ys = pad_u64(year, 4);
    r.append(ys.as_str());
    r.append("-");
    let ms = pad_u64(m, 2);
    r.append(ms.as_str());
    r.append("-");
    let ds = pad_u64(d, 2);
    r.append(ds.as_str());
    r.append("T");
    let hs = pad_u64(hours, 2);
    r.append(hs.as_str());
    r.append(":");
    let mins = pad_u64(minutes, 2);
    r.append(mins.as_str());
    r.append(":");
    let ss = pad_u64(seconds, 2);
    r.append(ss.as_str());
    r.append("Z");
    proof {
        reveal_strlit("-");
        reveal_strlit("T");
        reveal_strlit(":");
        reveal_strlit("Z");
    }
    r
}

/// The civil date of a day count since the epoch (proleptic Gregorian).
/// Guards that never fire on real day counts keep the arithmetic total.
pub fn civil_from_days(days_in: u64) -> (r: (u64, u64, u64))
    requires
        days_in <= 300_000_000_000_000,
    ensures
        r == spec_civil_from_days(days_in),
{
    let days = days_in + 719468;
    let era = days / 146097;
    let doe = days % 146097;
    proof {
        assert(doe < 146097) by (nonlinear_arith)
            requires
                doe == days % 146097,
        ;
        assert(doe / 1460 <= doe) by (nonlinear_arith);
        assert(doe - doe / 1460 + doe / 36524 >= doe / 146096) by (nonlinear_arith)
            requires
                doe < 146097,
        ;
        assert(era <= 2_100_000_000) by (nonlinear_arith)
            requires
                era == days / 146097,
                days <= 300_000_000_000_000 + 719468,
        ;
    }
    let yoe = (doe - doe / 1460 + doe / 36524 - doe / 146096) / 365;
    proof {
        assert(yoe <= 400) by (nonlinear_arith)
            requires
                yoe == (doe - doe / 1460 + doe / 36524 - doe / 146096) / 365,
                doe < 146097,
                doe / 1460 <= doe,
        ;
    }
    let y = yoe + era * 400;
    let ydays = 365 * yoe + yoe / 4 - yoe / 100;
    let doy = if doe >= ydays {
        doe - ydays
    } else {
        0
    };
    let mp = (5 * doy + 2) / 153;
    let msh = (153 * mp + 2) / 5;
    let d = if doy + 1 >= msh {
        doy + 1 - msh
    } else {
        0
    };
    let m = if mp < 10 {
        mp + 3
    } else {
        mp - 9
    };
    let year = if m <= 2 {
        y + 1
    } else {
        y
    };
    (year, m, d)
}

/// The civil date a day count denotes.
pub open spec fn spec_civil_from_days(days_in: u64) -> (u64, u64, u64) {
    let days = (days_in + 719468) as u64;
    let era = days / 146097;
    let doe = days % 146097;
    let yoe = ((doe - doe / 1460 + doe / 36524 - doe / 146096) / 365) as u64;
    let y = (yoe + era * 400) as u64;
    let ydays = (365 * yoe + yoe / 4 - yoe / 100) as u64;
    let doy = if doe >= ydays {
        (doe - ydays) as u64
    } else {
        0u64
    };
    let mp = ((5 * doy + 2) / 153) as u64;
    let msh = ((153 * mp + 2) / 5) as u64;
    let d = if doy + 1 >= msh {
        (doy + 1 - msh) as u64
    } else {
        0u64
    };
    let m = if mp < 10 {
        (mp + 3) as u64
    } else {
        (mp - 9) as u64
    };
    let year = if m <= 2 {
        (y + 1) as u64
    } else {
        y
    };
    (year, m, d)
}

/// The decimal text of a number, left-padded with zeros to a width.
pub fn pad_u64(n: u64, width: usize) -> (r: String)
    requires
        width <= 8,
    ensures
        r@.len() >= width,
{
    let ds = u64_chars(n);
    let mut out: Vec<char> = Vec::new();
    let mut pad: usize = 0;
    let need = if ds.len() >= width {
        0
    } else {
        width - ds.len()
    };
    proof {
        crate::strutil::lemma_u64_str_digits(n);
    }
    while pad < need
        invariant
            pad <= need,
            out@.len() == pad,
        decreases need - pad,
    {
        out.push('0');
        pad = pad + 1;
    }
    let mut i: usize = 0;
    while i < ds.len()
        invariant
            i <= ds@.len(),
            out@.len() == need + i,
        decreases ds@.len() - i,
    {
        out.push(ds[i]);
        i = i + 1;
    }
    string_of_chars(out.as_slice())
}

/// One step of splitting an appended notes blob: delimiter lines toggle the
/// frontmatter state, and a delimiter met outside any frontmatter closes
/// the current document and opens the next.
pub open spec fn spec_notes_step(
    st: (Seq<Seq<char>>, Seq<char>, bool, bool),
    line: Seq<char>,
) -> (Seq<Seq<char>>, Seq<char>, bool, bool) {
    let (docs, current, in_fm, seen_fm) = st;
    if spec_trim(line) == "---"@ {
        if !seen_fm {
            (docs, current + line + seq!['\n'], true, true)
        } else if in_fm {
            (docs, current + line + seq!['\n'], false, seen_fm)
        } else {
            let docs2 = if spec_trim(current).len() > 0 {
                docs.push(current)
            } else {
                docs
            };
            (docs2, Seq::empty() + line + seq!['\n'], true, seen_fm)
        }
    } else {
        (docs, current + line + seq!['\n'], in_fm, seen_fm)
    }
}

pub open spec fn spec_notes_fold(ls: Seq<Seq<char>>) -> (Seq<Seq<char>>, Seq<char>, bool, bool)
    decreases ls.len(),
{
    if ls.len() == 0 {
        (Seq::empty(), Seq::empty(), false, false)
    } else {
        spec_notes_step(spec_notes_fold(ls.drop_last()), ls.last())
    }
}

/// The documents of a notes blob: the folded-out documents plus the final
/// one when it is not blank.
pub open spec fn spec_split_notes(content: Seq<char>) -> Seq<Seq<char>> {
    let (docs, current, _, _) = spec_notes_fold(lines_of(content));
    if spec_trim(current).len() > 0 {
        docs.push(current)
    } else {
        docs
    }
}

/// Splits a blob of appended plan documents on their frontmatter
/// boundaries.
pub fn split_notes(content: &str) -> (r: Vec<String>)
    ensures
        r@.len() == spec_split_notes(content@).len(),
        forall|k: int|
            0 <= k < r@.len() ==> (#[trigger] r@[k])@ == spec_split_notes(content@)[k],
{
    let cs = str_chars(content);
    let ls = split_lines(cs.as_slice());
    let ghost lv = ls.deep_view();
    let mut docs: Vec<String> = Vec::new();
    let mut current: Vec<char> = Vec::new();
    let mut in_fm = false;
    let mut seen_fm = false;
    let mut i: usize = 0;
    proof {
        assert(lv.take(0) =~= Seq::<Seq<char>>::empty());
    }
    while i < ls.len()
        invariant
            i <= ls@.len(),
            lv == ls.deep_view(),
            lv.len() == ls@.len(),
            ({
                let st = spec_notes_fold(lv.take(i as int));
                &&& docs@.len() == st.0.len()
                &&& (forall|k: int| 0 <= k < docs@.len() ==> (#[trigger] docs@[k])@ == st.0[k])
                &&& current@ == st.1
                &&& in_fm == st.2
                &&& seen_fm == st.3
            }),
        decreases ls@.len() - i,
    {
        proof {
            assert(lv[i as int] == ls@[i as int]@);
            assert(lv.take(i + 1).drop_last() =~= lv.take(i as int));
            assert(lv.take(i + 1).last() == lv[i as int]);
        }
        let t = trim_chars(ls[i].as_slice());
        let dash3 = str_chars("---");
        let is_delim = crate::strutil::chars_eq(t.as_slice(), dash3.as_slice());
        if is_delim {
            if !seen_fm {
                in_fm = true;
                seen_fm = true;
                append_line(&mut current, ls[i].as_slice());
            } else if in_fm {
                in_fm = false;
                append_line(&mut current, ls[i].as_slice());
            } else {
                let ct = trim_chars(current.as_slice());
                if ct.len() > 0 {
                    docs.push(string_of_chars(current.as_slice()));
                }
                current = Vec::new();
                append_line(&mut current, ls[i].as_slice());
                in_fm = true;
                proof {
                    assert(current@ =~= Seq::<char>::empty() + lv[i as int] + seq!['\n']);
                }
            }
        } else {
            append_line(&mut current, ls[i].as_slice());
        }
        i = i + 1;
    }
    proof {
        assert(lv.take(lv.len() as int) =~= lv);
    }
    let ct = trim_chars(current.as_slice());
    if ct.len() > 0 {
        docs.push(string_of_chars(current.as_slice()));
    }
    docs
}

fn append_line(current: &mut Vec<char>, line: &[char])
    ensures
        final(current)@ == old(current)@ + line@ + seq!['\n'],
{
    let mut j: usize = 0;
    let ghost base = current@;
    while j < line.len()
        invariant
            j <= line@.len(),
            current@ == base + line@.take(j as int),
        decreases line@.len() - j,
    {
        current.push(line[j]);
        proof {
            assert(current@ =~= base + line@.take(j + 1));
        }
        j = j + 1;
    }
    current.push('\n');
    proof {
        assert(line@.take(line@.len() as int) =~= line@);
        assert(current@ =~= base + line@ + seq!['\n']);
    }
}

} // verus!
