//! Slug generation: a short, lowercase, hyphenated token derived from a
//! topic line, with filler words stripped and a length cap that cuts on a
//! word boundary.

use vstd::prelude::*;
use crate::strutil::{
    ascii_alnum, ascii_lower, blank_char, is_ascii_alnum, is_blank_char, slice_range,
    spec_ascii_lower, string_of_chars, str_chars,
};

verus! {

/// The longest slug ever produced.
pub const MAX_SLUG_LEN: usize = 50;

/// Index of the first blank character at or after `from`.
pub open spec fn spec_find_blank(s: Seq<char>, from: int) -> Option<int>
    decreases s.len() - from,
{
    if from < 0 || from >= s.len() {
        None
    } else if is_blank_char(s[from]) {
        Some(from)
    } else {
        spec_find_blank(s, from + 1)
    }
}

/// The blank-separated words of a text, in order.
pub open spec fn spec_words(s: Seq<char>) -> Seq<Seq<char>>
    decreases s.len(),
{
    if s.len() == 0 {
        Seq::empty()
    } else if is_blank_char(s[0]) {
        spec_words(s.skip(1))
    } else {
        match spec_find_blank(s, 0) {
            Some(e) => {
                if 0 < e < s.len() {
                    seq![s.take(e)] + spec_words(s.skip(e))
                } else {
                    Seq::empty()
                }
            },
            None => seq![s],
        }
    }
}

proof fn lemma_find_blank(s: Seq<char>, from: int)
    requires
        0 <= from <= s.len(),
    ensures
        match spec_find_blank(s, from) {
            Some(i) => from <= i < s.len() && is_blank_char(s[i]) && (forall|j: int|
                from <= j < i ==> !is_blank_char(s[j])),
            None => forall|j: int| from <= j < s.len() ==> !is_blank_char(s[j]),
        },
    decreases s.len() - from,
{
    if from < s.len() && !is_blank_char(s[from]) {
        lemma_find_blank(s, from + 1);
    }
}

proof fn lemma_find_blank_shift(s: Seq<char>, from: int)
    requires
        0 <= from <= s.len(),
        forall|j: int| 0 <= j < from ==> !is_blank_char(s[j]),
    ensures
        spec_find_blank(s, 0) == spec_find_blank(s, from),
    decreases from,
{
    if from > 0 {
        lemma_find_blank_shift(s, from - 1);
    }
}

/// Splits a text into blank-separated words.
pub fn split_words(s: &[char]) -> (r: Vec<Vec<char>>)
    ensures
        r.deep_view() == spec_words(s@),
{
    let mut r: Vec<Vec<char>> = Vec::new();
    let mut pos: usize = 0;
    proof {
        assert(s@.skip(0) =~= s@);
        assert(r.deep_view() =~= Seq::<Seq<char>>::empty());
    }
    while pos < s.len()
        invariant
            pos <= s@.len(),
            spec_words(s@) == r.deep_view() + spec_words(s@.skip(pos as int)),
        decreases s@.len() - pos,
    {
        let ghost old_deep = r.deep_view();
        if blank_char(s[pos]) {
            proof {
                let rest = s@.skip(pos as int);
                assert(rest[0] == s@[pos as int]);
                assert(rest.skip(1) =~= s@.skip(pos + 1));
            }
            pos = pos + 1;
        } else {
            // Scan to the end of the word.
            let mut e: usize = pos;
            while e < s.len() && !blank_char(s[e])
                invariant
                    pos <= e <= s@.len(),
                    forall|j: int| pos <= j < e ==> !is_blank_char(s@[j]),
                decreases s@.len() - e,
            {
                e = e + 1;
            }
            let word = slice_range(s, pos, e);
            let ghost rest = s@.skip(pos as int);
            proof {
                assert(rest[0] == s@[pos as int]);
                lemma_find_blank(rest, 0);
                assert forall|j: int| 0 <= j < e - pos implies !is_blank_char(rest[j]) by {
                    assert(rest[j] == s@[pos + j]);
                }
                lemma_find_blank_shift(rest, e - pos as int);
                if e < s.len() {
                    assert(rest[e - pos as int] == s@[e as int]);
                    assert(spec_find_blank(rest, e - pos as int) == Some(e - pos as int));
                    assert(rest.take(e - pos as int) =~= s@.subrange(pos as int, e as int));
                    assert(rest.skip(e - pos as int) =~= s@.skip(e as int));
                    assert(spec_words(rest) == seq![word@] + spec_words(s@.skip(e as int)));
                } else {
                    lemma_find_blank(rest, e - pos as int);
                    assert(spec_find_blank(rest, e - pos as int) is None);
                    assert(rest =~= s@.subrange(pos as int, e as int));
                    assert(spec_words(rest) == seq![word@]);
                    assert(s@.skip(e as int).len() == 0);
                }
            }
            proof {
                assert(word.deep_view() =~= word@);
            }
            r.push(word);
            proof {
                assert(r.deep_view() =~= old_deep.push(s@.subrange(pos as int, e as int)));
                assert(old_deep.push(s@.subrange(pos as int, e as int)) + spec_words(
                    s@.skip(e as int),
                ) =~= old_deep + spec_words(rest));
                if e >= s.len() {
                    assert(spec_words(s@.skip(e as int)) =~= Seq::<Seq<char>>::empty());
                }
            }
            pos = e;
        }
    }
    proof {
        assert(spec_words(s@.skip(pos as int)) =~= Seq::<Seq<char>>::empty());
        assert(r.deep_view() + spec_words(s@.skip(pos as int)) =~= r.deep_view());
    }
    r
}

/// The word reduced to its alphanumeric characters, lowercased.
pub open spec fn spec_clean_lower(w: Seq<char>) -> Seq<char> {
    w.filter(|c: char| is_ascii_alnum(c)).map_values(|c: char| spec_ascii_lower(c))
}

/// The filler words a slug drops.
pub open spec fn spec_is_filler(w: Seq<char>) -> bool {
    ||| w == "a"@
    ||| w == "an"@
    ||| w == "the"@
    ||| w == "for"@
    ||| w == "with"@
    ||| w == "and"@
    ||| w == "or"@
    ||| w == "to"@
    ||| w == "in"@
    ||| w == "of"@
    ||| w == "on"@
    ||| w == "by"@
    ||| w == "is"@
    ||| w == "it"@
    ||| w == "be"@
    ||| w == "as"@
    ||| w == "at"@
    ||| w == "do"@
}

/// Whether a word survives: its alphanumeric core is non-empty and not a
/// filler word.
pub open spec fn spec_keep_word(w: Seq<char>) -> bool {
    spec_clean_lower(w).len() > 0 && !spec_is_filler(spec_clean_lower(w))
}

fn clean_lower(w: &[char]) -> (r: Vec<char>)
    ensures
        r@ == spec_clean_lower(w@),
{
    let mut r: Vec<char> = Vec::new();
    let mut i: usize = 0;
    proof {
        assert(w@.take(0) =~= Seq::<char>::empty());
        reveal_with_fuel(Seq::filter, 1);
        assert(r@ =~= w@.take(0).filter(|c: char| is_ascii_alnum(c)).map_values(
            |c: char| spec_ascii_lower(c),
        ));
    }
    while i < w.len()
        invariant
            i <= w@.len(),
            r@ == w@.take(i as int).filter(|c: char| is_ascii_alnum(c)).map_values(
                |c: char| spec_ascii_lower(c),
            ),
        decreases w@.len() - i,
    {
        proof {
            assert(w@.take(i + 1).drop_last() =~= w@.take(i as int));
            assert(w@.take(i + 1).last() == w@[i as int]);
            reveal_with_fuel(Seq::filter, 2);
        }
        let c = w[i];
        if ascii_alnum(c) {
            r.push(ascii_lower(c));
            proof {
                let fprev = w@.take(i as int).filter(|c: char| is_ascii_alnum(c));
                let fnow = w@.take(i + 1).filter(|c: char| is_ascii_alnum(c));
                assert(fnow == fprev.push(w@[i as int]));
                assert(fnow.map_values(|c: char| spec_ascii_lower(c)) =~= fprev.map_values(
                    |c: char| spec_ascii_lower(c),
                ).push(spec_ascii_lower(w@[i as int])));
            }
        } else {
            proof {
                assert(w@.take(i + 1).filter(|c: char| is_ascii_alnum(c)) == w@.take(
                    i as int,
                ).filter(|c: char| is_ascii_alnum(c)));
            }
        }
        i = i + 1;
    }
    proof {
        assert(w@.take(w@.len() as int) =~= w@);
    }
    r
}

fn is_filler(w: &[char]) -> (r: bool)
    ensures
        r == spec_is_filler(w@),
{
    crate::strutil::chars_eq_str(w, "a") || crate::strutil::chars_eq_str(w, "an")
        || crate::strutil::chars_eq_str(w, "the") || crate::strutil::chars_eq_str(w, "for")
        || crate::strutil::chars_eq_str(w, "with") || crate::strutil::chars_eq_str(w, "and")
        || crate::strutil::chars_eq_str(w, "or") || crate::strutil::chars_eq_str(w, "to")
        || crate::strutil::chars_eq_str(w, "in") || crate::strutil::chars_eq_str(w, "of")
        || crate::strutil::chars_eq_str(w, "on") || crate::strutil::chars_eq_str(w, "by")
        || crate::strutil::chars_eq_str(w, "is") || crate::strutil::chars_eq_str(w, "it")
        || crate::strutil::chars_eq_str(w, "be") || crate::strutil::chars_eq_str(w, "as")
        || crate::strutil::chars_eq_str(w, "at") || crate::strutil::chars_eq_str(w, "do")
}

/// The kept words joined with single hyphens.
pub open spec fn spec_join_hyphen(ws: Seq<Seq<char>>) -> Seq<char>
    decreases ws.len(),
{
    if ws.len() == 0 {
        Seq::empty()
    } else if ws.len() == 1 {
        ws[0]
    } else {
        spec_join_hyphen(ws.drop_last()) + seq!['-'] + ws.last()
    }
}

/// Every character mapped to lowercase, with everything that is not
/// alphanumeric or a hyphen replaced by a hyphen.
pub open spec fn spec_hyphenate(s: Seq<char>) -> Seq<char> {
    s.map_values(
        |c: char|
            if is_ascii_alnum(c) || c == '-' {
                spec_ascii_lower(c)
            } else {
                '-'
            },
    )
}

/// Runs of hyphens collapsed to one.
pub open spec fn spec_collapse(s: Seq<char>) -> Seq<char>
    decreases s.len(),
{
    if s.len() == 0 {
        Seq::empty()
    } else if s.len() >= 2 && s[0] == '-' && s[1] == '-' {
        spec_collapse(s.skip(1))
    } else {
        seq![s[0]] + spec_collapse(s.skip(1))
    }
}

/// Leading and trailing hyphens removed.
pub open spec fn spec_trim_hyphens(s: Seq<char>) -> Seq<char>
    decreases s.len(),
{
    if s.len() == 0 {
        s
    } else if s[0] == '-' {
        spec_trim_hyphens(s.skip(1))
    } else if s.last() == '-' {
        spec_trim_hyphens(s.take(s.len() - 1))
    } else {
        s
    }
}

fn collapse_hyphens(s: &[char]) -> (r: Vec<char>)
    ensures
        r@ == spec_collapse(s@),
{
    let mut r: Vec<char> = Vec::new();
    let mut i: usize = 0;
    proof {
        assert(s@.skip(0) =~= s@);
    }
    while i < s.len()
        invariant
            i <= s@.len(),
            spec_collapse(s@) == r@ + spec_collapse(s@.skip(i as int)),
        decreases s@.len() - i,
    {
        let ghost rest = s@.skip(i as int);
        proof {
            assert(rest[0] == s@[i as int]);
            if i + 1 < s@.len() {
                assert(rest[1] == s@[i + 1]);
            }
            assert(rest.skip(1) =~= s@.skip(i + 1));
        }
        if i + 1 < s.len() && s[i] == '-' && s[i + 1] == '-' {
        } else {
            r.push(s[i]);
            proof {
                assert(r@ + spec_collapse(s@.skip(i + 1)) =~= (r@.drop_last() + (seq![rest[0]]
                    + spec_collapse(rest.skip(1)))));
            }
        }
        i = i + 1;
    }
    proof {
        assert(spec_collapse(s@.skip(i as int)) =~= Seq::<char>::empty());
        assert(r@ + spec_collapse(s@.skip(i as int)) =~= r@);
    }
    r
}

fn trim_hyphens(s: &[char]) -> (r: Vec<char>)
    ensures
        r@ == spec_trim_hyphens(s@),
{
    let mut lo: usize = 0;
    let mut hi: usize = s.len();
    proof {
        assert(s@.subrange(0, s@.len() as int) =~= s@);
    }
    while lo < hi && s[lo] == '-'
        invariant
            lo <= hi <= s@.len(),
            hi == s@.len(),
            spec_trim_hyphens(s@) == spec_trim_hyphens(s@.subrange(lo as int, hi as int)),
        decreases hi - lo,
    {
        proof {
            assert(s@.subrange(lo as int, hi as int).skip(1) =~= s@.subrange(lo + 1, hi as int));
        }
        lo = lo + 1;
    }
    while lo < hi && s[hi - 1] == '-'
        invariant
            lo <= hi <= s@.len(),
            spec_trim_hyphens(s@) == spec_trim_hyphens(s@.subrange(lo as int, hi as int)),
            lo < hi ==> s@[lo as int] != '-',
        decreases hi - lo,
    {
        proof {
            assert(s@.subrange(lo as int, hi as int).take(hi - lo - 1) =~= s@.subrange(
                lo as int,
                hi - 1,
            ));
        }
        hi = hi - 1;
    }
    let r = slice_range(s, lo, hi);
    proof {
        if lo < hi {
            assert(s@.subrange(lo as int, hi as int)[0] != '-');
            assert(s@.subrange(lo as int, hi as int).last() != '-');
        }
    }
    r
}

/// The slug before the length cap: words kept, joined, hyphenated,
/// collapsed and trimmed.
pub open spec fn spec_slug_uncapped(s: Seq<char>) -> Seq<char> {
    spec_trim_hyphens(
        spec_collapse(
            spec_hyphenate(spec_join_hyphen(spec_words(s).filter(|w: Seq<char>| spec_keep_word(w)))),
        ),
    )
}

/// The slug of a topic line: filler words dropped, the rest joined with
/// hyphens, lowercased with punctuation turned into hyphens, hyphen runs
/// collapsed, edges trimmed; a long slug is cut at the length cap and then
/// back to the previous word boundary.
pub open spec fn spec_slug(s: Seq<char>) -> Seq<char> {
    let t = spec_slug_uncapped(s);
    if t.len() <= MAX_SLUG_LEN {
        t
    } else {
        let cut = t.take(MAX_SLUG_LEN as int);
        match spec_rfind_hyphen(cut, cut.len() - 1) {
            Some(last) => {
                if last > 0 {
                    spec_trim_trailing_hyphens(cut.take(last))
                } else {
                    spec_trim_trailing_hyphens(cut)
                }
            },
            None => spec_trim_trailing_hyphens(cut),
        }
    }
}

/// The last hyphen at or before `from`.
pub open spec fn spec_rfind_hyphen(s: Seq<char>, from: int) -> Option<int>
    decreases from + 1,
{
    if from < 0 || from >= s.len() {
        None
    } else if s[from] == '-' {
        Some(from)
    } else {
        spec_rfind_hyphen(s, from - 1)
    }
}

/// Trailing hyphens removed.
pub open spec fn spec_trim_trailing_hyphens(s: Seq<char>) -> Seq<char>
    decreases s.len(),
{
    if s.len() > 0 && s.last() == '-' {
        spec_trim_trailing_hyphens(s.take(s.len() - 1))
    } else {
        s
    }
}

fn rfind_hyphen(s: &[char], from: usize) -> (r: Option<usize>)
    requires
        from < s@.len(),
    ensures
        match r {
            Some(i) => i <= from && spec_rfind_hyphen(s@, from as int) == Some(i as int),
            None => spec_rfind_hyphen(s@, from as int) is None,
        },
{
    let mut i: usize = from;
    loop
        invariant
            i <= from < s@.len(),
            spec_rfind_hyphen(s@, from as int) == spec_rfind_hyphen(s@, i as int),
        decreases i,
    {
        if s[i] == '-' {
            return Some(i);
        }
        if i == 0 {
            proof {
                assert(spec_rfind_hyphen(s@, -1) is None);
            }
            return None;
        }
        i = i - 1;
    }
}

fn trim_trailing_hyphens(s: &[char]) -> (r: Vec<char>)
    ensures
        r@ == spec_trim_trailing_hyphens(s@),
{
    let mut hi: usize = s.len();
    proof {
        assert(s@.take(s@.len() as int) =~= s@);
    }
    while hi > 0 && s[hi - 1] == '-'
        invariant
            hi <= s@.len(),
            spec_trim_trailing_hyphens(s@) == spec_trim_trailing_hyphens(s@.take(hi as int)),
        decreases hi,
    {
        proof {
            assert(s@.take(hi as int).take(hi - 1) =~= s@.take(hi - 1));
        }
        hi = hi - 1;
    }
    let r = slice_range(s, 0, hi);
    proof {
        assert(r@ =~= s@.take(hi as int));
        if hi > 0 {
            assert(s@.take(hi as int).last() != '-');
        }
    }
    r
}

/// The slug of a topic line.
pub fn slug(input: &str) -> (r: String)
    ensures
        r@ == spec_slug(input@),
{
    let cs = str_chars(input);
    let words = split_words(cs.as_slice());
    let ghost keep = |w: Seq<char>| spec_keep_word(w);

    // Keep the words whose alphanumeric core is non-empty and not filler.
    let mut kept: Vec<Vec<char>> = Vec::new();
    let mut i: usize = 0;
    let ghost wv = words.deep_view();
    proof {
        assert(wv.take(0) =~= Seq::<Seq<char>>::empty());
        reveal_with_fuel(Seq::filter, 1);
        assert(kept.deep_view() =~= wv.take(0).filter(keep));
    }
    while i < words.len()
        invariant
            i <= words@.len(),
            wv == words.deep_view(),
            wv.len() == words@.len(),
            kept.deep_view() == wv.take(i as int).filter(keep),
            keep == (|w: Seq<char>| spec_keep_word(w)),
        decreases words@.len() - i,
    {
        proof {
            assert(wv[i as int] == words@[i as int]@);
            assert(wv.take(i + 1).drop_last() =~= wv.take(i as int));
            assert(wv.take(i + 1).last() == wv[i as int]);
            reveal_with_fuel(Seq::filter, 2);
        }
        let ghost old_deep = kept.deep_view();
        let cl = clean_lower(words[i].as_slice());
        if cl.len() > 0 && !is_filler(cl.as_slice()) {
            let w = slice_range(words[i].as_slice(), 0, words[i].len());
            proof {
                assert(w@ =~= wv[i as int]);
            }
            kept.push(w);
            proof {
                assert(kept.deep_view() =~= old_deep.push(wv[i as int]));
                assert(wv.take(i + 1).filter(keep) == old_deep.push(wv[i as int]));
            }
        } else {
            proof {
                assert(wv.take(i + 1).filter(keep) == wv.take(i as int).filter(keep));
            }
        }
        i = i + 1;
    }
    proof {
        assert(wv.take(wv.len() as int) =~= wv);
    }

    // Join with hyphens.
    let mut joined: Vec<char> = Vec::new();
    let mut k: usize = 0;
    let ghost kv = kept.deep_view();
    proof {
        assert(kv.take(0) =~= Seq::<Seq<char>>::empty());
        assert(joined@ =~= spec_join_hyphen(kv.take(0)));
    }
    while k < kept.len()
        invariant
            k <= kept@.len(),
            kv == kept.deep_view(),
            kv.len() == kept@.len(),
            joined@ == spec_join_hyphen(kv.take(k as int)),
        decreases kept@.len() - k,
    {
        proof {
            assert(kv[k as int] == kept@[k as int]@);
            assert(kv.take(k + 1).drop_last() =~= kv.take(k as int));
            assert(kv.take(k + 1).last() == kv[k as int]);
        }
        if k > 0 {
            joined.push('-');
        }
        let mut j: usize = 0;
        let ghost base = joined@;
        while j < kept[k].len()
            invariant
                k < kept@.len(),
                j <= kept@[k as int]@.len(),
                joined@ == base + kept@[k as int]@.take(j as int),
            decreases kept@[k as int]@.len() - j,
        {
            joined.push(kept[k][j]);
            proof {
                assert(joined@ =~= base + kept@[k as int]@.take(j + 1));
            }
            j = j + 1;
        }
        proof {
            assert(kept@[k as int]@.take(kept@[k as int]@.len() as int) =~= kv[k as int]);
            if k == 0 {
                assert(kv.take(1).len() == 1);
                assert(joined@ =~= spec_join_hyphen(kv.take(1)));
            } else {
                assert(joined@ =~= spec_join_hyphen(kv.take(k as int)) + seq!['-'] + kv[k as int]);
            }
        }
        k = k + 1;
    }
    proof {
        assert(kv.take(kv.len() as int) =~= kv);
    }

    // Lowercase and hyphenate.
    let mut mapped: Vec<char> = Vec::new();
    let mut m: usize = 0;
    while m < joined.len()
        invariant
            m <= joined@.len(),
            mapped@ == spec_hyphenate(joined@.take(m as int)),
        decreases joined@.len() - m,
    {
        proof {
            assert(joined@.take(m + 1).drop_last() =~= joined@.take(m as int));
        }
        let c = joined[m];
        if ascii_alnum(c) || c == '-' {
            mapped.push(ascii_lower(c));
        } else {
            mapped.push('-');
        }
        proof {
            assert(mapped@ =~= spec_hyphenate(joined@.take(m + 1)));
        }
        m = m + 1;
    }
    proof {
        assert(joined@.take(joined@.len() as int) =~= joined@);
    }

    let collapsed = collapse_hyphens(mapped.as_slice());
    let trimmed = trim_hyphens(collapsed.as_slice());

    if trimmed.len() <= MAX_SLUG_LEN {
        return string_of_chars(trimmed.as_slice());
    }
    let cut = slice_range(trimmed.as_slice(), 0, MAX_SLUG_LEN);
    match rfind_hyphen(cut.as_slice(), cut.len() - 1) {
        Some(last) => {
            if last > 0 {
                let head = slice_range(cut.as_slice(), 0, last);
                proof {
                    assert(head@ =~= cut@.take(last as int));
                }
                let out = trim_trailing_hyphens(head.as_slice());
                string_of_chars(out.as_slice())
            } else {
                let out = trim_trailing_hyphens(cut.as_slice());
                string_of_chars(out.as_slice())
            }
        },
        None => {
            let out = trim_trailing_hyphens(cut.as_slice());
            string_of_chars(out.as_slice())
        },
    }
}

} // verus!
