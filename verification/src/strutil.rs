//! Verified building blocks for working with text as character sequences.
//!
//! Exec code in this crate handles text as `Vec<char>` wherever it has to
//! reason about contents; `&str` and `String` appear only at the boundary.

use vstd::prelude::*;

verus! {

/// Relies on std's String::push: appends one character at the end.
pub assume_specification[ String::push ](s: &mut String, c: char)
    ensures
        final(s)@ == old(s)@.push(c),
;

/// True of the characters this crate treats as blank when trimming:
/// space, tab, carriage return and newline.
pub open spec fn is_blank_char(c: char) -> bool {
    c == ' ' || c == '\t' || c == '\r' || c == '\n'
}

pub fn blank_char(c: char) -> (r: bool)
    ensures
        r == is_blank_char(c),
{
    c == ' ' || c == '\t' || c == '\r' || c == '\n'
}

/// The characters of a string slice, in order.
pub fn str_chars(s: &str) -> (r: Vec<char>)
    ensures
        r@ == s@,
{
    let n = s.unicode_len();
    let mut r: Vec<char> = Vec::new();
    let mut i: usize = 0;
    while i < n
        invariant
            n == s@.len(),
            i <= n,
            r@ == s@.take(i as int),
        decreases n - i,
    {
        r.push(s.get_char(i));
        proof {
            assert(r@ =~= s@.take(i + 1));
        }
        i = i + 1;
    }
    proof {
        assert(r@ =~= s@);
    }
    r
}

/// A `String` holding exactly the given characters.
pub fn string_of_chars(v: &[char]) -> (r: String)
    ensures
        r@ == v@,
{
    let mut r = String::new();
    let mut i: usize = 0;
    while i < v.len()
        invariant
            i <= v@.len(),
            r@ == v@.take(i as int),
        decreases v@.len() - i,
    {
        r.push(v[i]);
        proof {
            assert(r@ =~= v@.take(i + 1));
        }
        i = i + 1;
    }
    proof {
        assert(r@ =~= v@);
    }
    r
}

/// Whether two string slices hold the same characters.
pub fn str_eq(a: &str, b: &str) -> (r: bool)
    ensures
        r == (a@ == b@),
{
    let na = a.unicode_len();
    let nb = b.unicode_len();
    if na != nb {
        proof {
            assert(a@ != b@);
        }
        return false;
    }
    let mut i: usize = 0;
    while i < na
        invariant
            na == a@.len() && na == b@.len(),
            i <= na,
            forall|j: int| 0 <= j < i ==> a@[j] == b@[j],
        decreases na - i,
    {
        if a.get_char(i) != b.get_char(i) {
            return false;
        }
        i = i + 1;
    }
    proof {
        assert(a@ =~= b@);
    }
    true
}

pub fn chars_eq(a: &[char], b: &[char]) -> (r: bool)
    ensures
        r == (a@ == b@),
{
    if a.len() != b.len() {
        proof {
            assert(a@ != b@);
        }
        return false;
    }
    let mut i: usize = 0;
    while i < a.len()
        invariant
            a@.len() == b@.len(),
            i <= a@.len(),
            forall|j: int| 0 <= j < i ==> a@[j] == b@[j],
        decreases a@.len() - i,
    {
        if a[i] != b[i] {
            return false;
        }
        i = i + 1;
    }
    proof {
        assert(a@ =~= b@);
    }
    true
}

/// Whether the characters of `a` equal the characters of the slice `b`.
pub fn chars_eq_str(a: &[char], b: &str) -> (r: bool)
    ensures
        r == (a@ == b@),
{
    let bv = str_chars(b);
    chars_eq(a, bv.as_slice())
}

pub open spec fn starts_with(s: Seq<char>, p: Seq<char>) -> bool {
    p.len() <= s.len() && s.take(p.len() as int) == p
}

pub open spec fn ends_with(s: Seq<char>, p: Seq<char>) -> bool {
    p.len() <= s.len() && s.skip(s.len() - p.len()) == p
}

pub fn chars_start_with(s: &[char], p: &[char]) -> (r: bool)
    ensures
        r == starts_with(s@, p@),
{
    if p.len() > s.len() {
        return false;
    }
    let mut i: usize = 0;
    while i < p.len()
        invariant
            p@.len() <= s@.len(),
            i <= p@.len(),
            forall|j: int| 0 <= j < i ==> s@[j] == p@[j],
        decreases p@.len() - i,
    {
        if s[i] != p[i] {
            proof {
                assert(s@.take(p@.len() as int)[i as int] != p@[i as int]);
            }
            return false;
        }
        i = i + 1;
    }
    proof {
        assert(s@.take(p@.len() as int) =~= p@);
    }
    true
}

pub fn chars_end_with(s: &[char], p: &[char]) -> (r: bool)
    ensures
        r == ends_with(s@, p@),
{
    if p.len() > s.len() {
        return false;
    }
    let n = s.len();
    let off = n - p.len();
    let mut i: usize = 0;
    while i < p.len()
        invariant
            n == s@.len(),
            off + p@.len() == s@.len(),
            i <= p@.len(),
            forall|j: int| 0 <= j < i ==> s@[off + j] == p@[j],
        decreases p@.len() - i,
    {
        if s[off + i] != p[i] {
            proof {
                assert(s@.skip(off as int)[i as int] != p@[i as int]);
            }
            return false;
        }
        i = i + 1;
    }
    proof {
        assert(s@.skip(off as int) =~= p@);
    }
    true
}

/// The slice with leading and trailing blank characters removed.
pub open spec fn spec_trim(s: Seq<char>) -> Seq<char>
    decreases s.len(),
{
    if s.len() == 0 {
        s
    } else if is_blank_char(s[0]) {
        spec_trim(s.skip(1))
    } else if is_blank_char(s.last()) {
        spec_trim(s.take(s.len() - 1))
    } else {
        s
    }
}

pub fn trim_chars(s: &[char]) -> (r: Vec<char>)
    ensures
        r@ == spec_trim(s@),
{
    let mut lo: usize = 0;
    let mut hi: usize = s.len();
    proof {
        assert(s@.subrange(0, s@.len() as int) =~= s@);
    }
    while lo < hi && blank_char(s[lo])
        invariant
            lo <= hi <= s@.len(),
            spec_trim(s@) == spec_trim(s@.subrange(lo as int, hi as int)),
            hi == s@.len(),
        decreases hi - lo,
    {
        proof {
            assert(s@.subrange(lo as int, hi as int).skip(1) =~= s@.subrange(
                lo + 1,
                hi as int,
            ));
        }
        lo = lo + 1;
    }
    while lo < hi && blank_char(s[hi - 1])
        invariant
            lo <= hi <= s@.len(),
            spec_trim(s@) == spec_trim(s@.subrange(lo as int, hi as int)),
            lo < hi ==> !is_blank_char(s@[lo as int]),
        decreases hi - lo,
    {
        proof {
            assert(s@.subrange(lo as int, hi as int).take(hi - lo - 1) =~= s@.subrange(
                lo as int,
                hi - 1,
            ));
        }
        hi = hi - 1;
    }
    let mut r: Vec<char> = Vec::new();
    let mut i: usize = lo;
    while i < hi
        invariant
            lo <= i <= hi <= s@.len(),
            r@ == s@.subrange(lo as int, i as int),
        decreases hi - i,
    {
        r.push(s[i]);
        proof {
            assert(r@ =~= s@.subrange(lo as int, i + 1));
        }
        i = i + 1;
    }
    proof {
        assert(r@ =~= s@.subrange(lo as int, hi as int));
        if lo < hi {
            assert(!is_blank_char(s@.subrange(lo as int, hi as int)[0]));
            assert(!is_blank_char(s@.subrange(lo as int, hi as int).last()));
        }
    }
    r
}

/// Index of the first occurrence of `c` in `s` at or after `from`.
pub open spec fn spec_find_char(s: Seq<char>, c: char, from: int) -> Option<int>
    decreases s.len() - from,
{
    if from < 0 || from >= s.len() {
        None
    } else if s[from] == c {
        Some(from)
    } else {
        spec_find_char(s, c, from + 1)
    }
}

pub fn find_char_from(s: &[char], c: char, from: usize) -> (r: Option<usize>)
    requires
        from <= s@.len(),
    ensures
        match r {
            Some(i) => from <= i < s@.len() && spec_find_char(s@, c, from as int) == Some(i as int),
            None => spec_find_char(s@, c, from as int) is None,
        },
{
    let mut i: usize = from;
    while i < s.len()
        invariant
            from <= i <= s@.len(),
            spec_find_char(s@, c, from as int) == spec_find_char(s@, c, i as int),
        decreases s@.len() - i,
    {
        if s[i] == c {
            return Some(i);
        }
        i = i + 1;
    }
    None
}

pub fn find_char(s: &[char], c: char) -> (r: Option<usize>)
    ensures
        match r {
            Some(i) => i < s@.len() && spec_find_char(s@, c, 0) == Some(i as int),
            None => spec_find_char(s@, c, 0) is None,
        },
{
    find_char_from(s, c, 0)
}

/// Whether `p` occurs as a contiguous run inside `s`.
pub open spec fn contains_seq(s: Seq<char>, p: Seq<char>) -> bool {
    exists|i: int|
        0 <= i <= s.len() - p.len() && #[trigger] s.subrange(i, i + p.len() as int) == p
}

pub fn chars_contain(s: &[char], p: &[char]) -> (r: bool)
    ensures
        r == contains_seq(s@, p@),
{
    if p.len() > s.len() {
        return false;
    }
    let n = s.len();
    let mut i: usize = 0;
    let last = n - p.len();
    while i <= last
        invariant
            n == s@.len(),
            p@.len() <= s@.len(),
            last + p@.len() == s@.len(),
            i <= last + 1,
            forall|k: int| 0 <= k < i ==> #[trigger] s@.subrange(k, k + p@.len() as int) != p@,
        decreases last - i + 1,
    {
        let mut j: usize = 0;
        let mut ok = true;
        while j < p.len()
            invariant
                n == s@.len(),
                p@.len() <= s@.len(),
                i + p@.len() <= s@.len(),
                j <= p@.len(),
                ok <==> (forall|t: int| 0 <= t < j ==> s@[i + t] == p@[t]),
            decreases p@.len() - j,
        {
            if s[i + j] != p[j] {
                ok = false;
                j = p.len();
            } else {
                j = j + 1;
            }
        }
        if ok {
            proof {
                assert(s@.subrange(i as int, i + p@.len() as int) =~= p@);
            }
            return true;
        }
        proof {
            if s@.subrange(i as int, i + p@.len() as int) == p@ {
                assert(forall|t: int|
                    0 <= t < p@.len() ==> s@[i + t] == #[trigger] s@.subrange(
                        i as int,
                        i + p@.len() as int,
                    )[t]);
                assert(false);
            }
        }
        i = i + 1;
    }
    false
}

/// The decimal number the digits of `s` denote; `None` when `s` is empty,
/// holds a non-digit, or overflows 64 bits.
pub open spec fn spec_parse_u64(s: Seq<char>) -> Option<u64>
    decreases s.len(),
{
    if s.len() == 0 {
        None
    } else if !('0' <= s.last() && s.last() <= '9') {
        None
    } else if s.len() == 1 {
        Some((s.last() as u64 - '0' as u64) as u64)
    } else {
        match spec_parse_u64(s.take(s.len() - 1)) {
            None => None,
            Some(hi) => {
                let d = s.last() as u64 - '0' as u64;
                if hi > (u64::MAX - d) / 10 {
                    None
                } else {
                    Some((hi * 10 + d) as u64)
                }
            },
        }
    }
}

pub fn parse_u64(s: &[char]) -> (r: Option<u64>)
    ensures
        r == spec_parse_u64(s@),
{
    if s.len() == 0 {
        return None;
    }
    let mut acc: u64 = 0;
    let mut i: usize = 0;
    while i < s.len()
        invariant
            0 < s@.len(),
            i <= s@.len(),
            i > 0 ==> Some(acc) == spec_parse_u64(s@.take(i as int)),
            i == 0 ==> acc == 0,
        decreases s@.len() - i,
    {
        let c = s[i];
        if !('0' <= c && c <= '9') {
            proof {
                lemma_parse_u64_prefix_none(s@, i as int);
            }
            return None;
        }
        let d: u64 = (c as u64) - ('0' as u64);
        if i > 0 {
            if acc > (u64::MAX - d) / 10 {
                proof {
                    lemma_parse_u64_prefix_none(s@, i as int);
                }
                return None;
            }
            acc = acc * 10 + d;
        } else {
            acc = d;
        }
        proof {
            assert(s@.take(i + 1).take(i as int) =~= s@.take(i as int));
            assert(s@.take(i + 1).last() == s@[i as int]);
        }
        i = i + 1;
    }
    proof {
        assert(s@.take(s@.len() as int) =~= s@);
    }
    Some(acc)
}

/// Once a prefix fails to parse, every extension fails too.
proof fn lemma_parse_u64_prefix_none(s: Seq<char>, i: int)
    requires
        0 <= i < s.len(),
        i > 0 ==> spec_parse_u64(s.take(i)) is None || !('0' <= s[i] && s[i] <= '9') || ({
            let hi = spec_parse_u64(s.take(i)).unwrap();
            let d = s[i] as u64 - '0' as u64;
            hi > (u64::MAX - d) / 10
        }),
        i == 0 ==> !('0' <= s[i] && s[i] <= '9'),
    ensures
        forall|j: int| i < j <= s.len() ==> spec_parse_u64(#[trigger] s.take(j)) is None,
    decreases s.len() - i,
{
    assert forall|j: int| i < j <= s.len() implies spec_parse_u64(#[trigger] s.take(j)) is None by {
        lemma_parse_u64_none_step(s, i, j);
    }
}

proof fn lemma_parse_u64_none_step(s: Seq<char>, i: int, j: int)
    requires
        0 <= i < j <= s.len(),
        i > 0 ==> spec_parse_u64(s.take(i)) is None || !('0' <= s[i] && s[i] <= '9') || ({
            let hi = spec_parse_u64(s.take(i)).unwrap();
            let d = s[i] as u64 - '0' as u64;
            hi > (u64::MAX - d) / 10
        }),
        i == 0 ==> !('0' <= s[i] && s[i] <= '9'),
    ensures
        spec_parse_u64(s.take(j)) is None,
    decreases j - i,
{
    if j == i + 1 {
        assert(s.take(j).take(i) =~= s.take(i));
        assert(s.take(j).last() == s[i]);
    } else {
        lemma_parse_u64_none_step(s, i, j - 1);
        assert(s.take(j).take(j - 1) =~= s.take(j - 1));
    }
}

/// Characters `a` to `z` shifted to upper case; used for ASCII-only tokens.
pub open spec fn spec_ascii_lower(c: char) -> char {
    if 'A' <= c && c <= 'Z' {
        ((c as u8) + 32) as char
    } else {
        c
    }
}

pub fn ascii_lower(c: char) -> (r: char)
    ensures
        r == spec_ascii_lower(c),
{
    if 'A' <= c && c <= 'Z' {
        (((c as u8) + 32) as char)
    } else {
        c
    }
}

/// A copy of `s[from..to]`.
pub fn slice_range(s: &[char], from: usize, to: usize) -> (r: Vec<char>)
    requires
        from <= to <= s@.len(),
    ensures
        r@ == s@.subrange(from as int, to as int),
{
    let mut r: Vec<char> = Vec::new();
    let mut i: usize = from;
    while i < to
        invariant
            from <= i <= to <= s@.len(),
            r@ == s@.subrange(from as int, i as int),
        decreases to - i,
    {
        r.push(s[i]);
        proof {
            assert(r@ =~= s@.subrange(from as int, i + 1));
        }
        i = i + 1;
    }
    r
}

/// The line without a trailing carriage return, as Rust's line splitting strips it.
pub open spec fn strip_cr(l: Seq<char>) -> Seq<char> {
    if l.len() > 0 && l.last() == '\r' {
        l.take(l.len() - 1)
    } else {
        l
    }
}

/// The lines of `s`, split on newline characters; a trailing carriage return
/// is removed from each line, and a final newline opens no empty last line.
pub open spec fn lines_of(s: Seq<char>) -> Seq<Seq<char>>
    decreases s.len(),
{
    if s.len() == 0 {
        Seq::empty()
    } else {
        match spec_find_char(s, '\n', 0) {
            Some(i) => {
                if 0 <= i < s.len() {
                    seq![strip_cr(s.take(i))] + lines_of(s.skip(i + 1))
                } else {
                    Seq::empty()
                }
            },
            None => seq![strip_cr(s)],
        }
    }
}

pub proof fn lemma_find_char_in_range(s: Seq<char>, c: char, from: int)
    requires
        0 <= from <= s.len(),
    ensures
        match spec_find_char(s, c, from) {
            Some(i) => from <= i < s.len() && s[i] == c && (forall|j: int|
                from <= j < i ==> s[j] != c),
            None => forall|j: int| from <= j < s.len() ==> s[j] != c,
        },
    decreases s.len() - from,
{
    if from < s.len() {
        if s[from] != c {
            lemma_find_char_in_range(s, c, from + 1);
        }
    }
}

pub proof fn lemma_find_char_shift(s: Seq<char>, c: char, from: int)
    requires
        0 <= from <= s.len(),
    ensures
        spec_find_char(s, c, from) == match spec_find_char(s.skip(from), c, 0) {
            Some(j) => Some(j + from),
            None => None::<int>,
        },
{
    lemma_find_char_in_range(s, c, from);
    lemma_find_char_in_range(s.skip(from), c, 0);
    match spec_find_char(s, c, from) {
        Some(i) => {
            match spec_find_char(s.skip(from), c, 0) {
                Some(j) => {
                    assert(s.skip(from)[j] == s[j + from]);
                    if j + from < i {
                        assert(false);
                    }
                    if j + from > i {
                        assert(s.skip(from)[i - from] == c);
                        assert(false);
                    }
                },
                None => {
                    assert(s.skip(from)[i - from] == s[i]);
                    assert(false);
                },
            }
        },
        None => {
            if spec_find_char(s.skip(from), c, 0) is Some {
                let j = spec_find_char(s.skip(from), c, 0).unwrap();
                assert(s[j + from] == s.skip(from)[j]);
                assert(false);
            }
        },
    }
}

fn strip_cr_vec(v: Vec<char>) -> (r: Vec<char>)
    ensures
        r@ == strip_cr(v@),
{
    let ghost orig = v@;
    let mut v = v;
    if v.len() > 0 && v[v.len() - 1] == '\r' {
        v.pop();
        proof {
            assert(v@ =~= orig.take(orig.len() - 1));
        }
    }
    v
}

/// Splits text into lines as Rust's `str::lines` does.
pub fn split_lines(s: &[char]) -> (r: Vec<Vec<char>>)
    ensures
        r.deep_view() == lines_of(s@),
{
    let mut r: Vec<Vec<char>> = Vec::new();
    let mut pos: usize = 0;
    proof {
        assert(s@.skip(0) =~= s@);
        assert(r.deep_view() + lines_of(s@) =~= lines_of(s@));
    }
    while pos < s.len()
        invariant
            pos <= s@.len(),
            lines_of(s@) == r.deep_view() + lines_of(s@.skip(pos as int)),
        decreases s@.len() - pos,
    {
        let ghost rest = s@.skip(pos as int);
        let ghost old_deep = r.deep_view();
        proof {
            lemma_find_char_shift(s@, '\n', pos as int);
            lemma_find_char_in_range(s@, '\n', pos as int);
        }
        match find_char_from(s, '\n', pos) {
            Some(i) => {
                let line = strip_cr_vec(slice_range(s, pos, i));
                proof {
                    assert(rest.take(i - pos as int) =~= s@.subrange(pos as int, i as int));
                    assert(rest.skip(i - pos as int + 1) =~= s@.skip(i + 1));
                    assert(spec_find_char(rest, '\n', 0) == Some(i - pos as int));
                    assert(lines_of(rest) == seq![strip_cr(rest.take(i - pos as int))]
                        + lines_of(rest.skip(i - pos as int + 1)));
                }
                r.push(line);
                proof {
                    assert(line.deep_view() =~= line@);
                    assert(r.deep_view() =~= old_deep.push(line@));
                    assert(old_deep.push(line@) + lines_of(s@.skip(i + 1)) =~= old_deep + lines_of(
                        rest,
                    ));
                }
                pos = i + 1;
            },
            None => {
                let line = strip_cr_vec(slice_range(s, pos, s.len()));
                proof {
                    assert(s@.subrange(pos as int, s@.len() as int) =~= rest);
                    assert(lines_of(rest) == seq![strip_cr(rest)]);
                }
                r.push(line);
                pos = s.len();
                proof {
                    assert(line.deep_view() =~= line@);
                    assert(r.deep_view() =~= old_deep.push(line@));
                    assert(lines_of(s@.skip(pos as int)) =~= Seq::<Seq<char>>::empty());
                    assert(old_deep.push(line@) + lines_of(s@.skip(pos as int)) =~= old_deep
                        + lines_of(rest));
                }
            },
        }
    }
    proof {
        assert(lines_of(s@.skip(pos as int)) =~= Seq::<Seq<char>>::empty());
        assert(r.deep_view() + lines_of(s@.skip(pos as int)) =~= r.deep_view());
    }
    r
}

/// The decimal digit character for a value below ten.
pub open spec fn spec_digit_char(d: u64) -> char {
    (('0' as u8) + (d as u8)) as char
}

/// The decimal text of a number, most significant digit first.
pub open spec fn spec_u64_str(n: u64) -> Seq<char>
    decreases n,
{
    if n < 10 {
        seq![spec_digit_char(n)]
    } else {
        spec_u64_str(n / 10).push(spec_digit_char(n % 10))
    }
}

/// Every character of a number's decimal text is a digit.
pub proof fn lemma_u64_str_digits(n: u64)
    ensures
        spec_u64_str(n).len() > 0,
        forall|i: int|
            0 <= i < spec_u64_str(n).len() ==> '0' <= #[trigger] spec_u64_str(n)[i]
                && spec_u64_str(n)[i] <= '9',
    decreases n,
{
    if n >= 10 {
        lemma_u64_str_digits(n / 10);
    }
}

/// The characters of a number's decimal text.
pub fn u64_chars(n: u64) -> (r: Vec<char>)
    ensures
        r@ == spec_u64_str(n),
    decreases n,
{
    let d: u64 = n % 10;
    let c: char = ((('0' as u8) + (d as u8)) as char);
    if n < 10 {
        let mut r: Vec<char> = Vec::new();
        r.push(c);
        proof {
            assert(r@ =~= seq![spec_digit_char(n)]);
        }
        r
    } else {
        let mut r = u64_chars(n / 10);
        r.push(c);
        r
    }
}

/// The decimal text of a number.
pub fn u64_to_string(n: u64) -> (r: String)
    ensures
        r@ == spec_u64_str(n),
{
    let cs = u64_chars(n);
    string_of_chars(cs.as_slice())
}

/// The first position where `p` occurs in `s`, at or after `from`.
pub open spec fn spec_find_sub(s: Seq<char>, p: Seq<char>, from: int) -> Option<int>
    decreases s.len() - from,
{
    if from < 0 || p.len() == 0 || from + p.len() > s.len() {
        None
    } else if s.subrange(from, from + p.len() as int) == p {
        Some(from)
    } else {
        spec_find_sub(s, p, from + 1)
    }
}

/// The first occurrence of `p` inside `s`.
pub fn find_sub(s: &[char], p: &[char]) -> (r: Option<usize>)
    ensures
        match r {
            Some(i) => spec_find_sub(s@, p@, 0) == Some(i as int) && i + p@.len() <= s@.len(),
            None => spec_find_sub(s@, p@, 0) is None,
        },
{
    let n = s.len();
    if p.len() == 0 || p.len() > n {
        return None;
    }
    let last = n - p.len();
    let mut i: usize = 0;
    while i <= last
        invariant
            n == s@.len(),
            0 < p@.len() <= s@.len(),
            last + p@.len() == s@.len(),
            i <= last + 1,
            spec_find_sub(s@, p@, 0) == spec_find_sub(s@, p@, i as int),
        decreases last - i + 1,
    {
        let mut j: usize = 0;
        let mut ok = true;
        while j < p.len()
            invariant
                n == s@.len(),
                p@.len() <= s@.len(),
                i + p@.len() <= s@.len(),
                j <= p@.len(),
                ok <==> (forall|t: int| 0 <= t < j ==> s@[i + t] == p@[t]),
            decreases p@.len() - j,
        {
            if s[i + j] != p[j] {
                ok = false;
                j = p.len();
            } else {
                j = j + 1;
            }
        }
        if ok {
            proof {
                assert(s@.subrange(i as int, i + p@.len() as int) =~= p@);
                assert(spec_find_sub(s@, p@, i as int) == Some(i as int));
            }
            return Some(i);
        }
        proof {
            if s@.subrange(i as int, i + p@.len() as int) == p@ {
                assert(forall|t: int|
                    0 <= t < p@.len() ==> s@[i + t] == #[trigger] s@.subrange(
                        i as int,
                        i + p@.len() as int,
                    )[t]);
                assert(false);
            }
            assert(spec_find_sub(s@, p@, i as int) == spec_find_sub(s@, p@, i + 1));
        }
        i = i + 1;
    }
    None
}

/// The text with every occurrence of `pat` replaced by `rep`, scanning left
/// to right without re-examining replacements.
pub open spec fn spec_replace(s: Seq<char>, pat: Seq<char>, rep: Seq<char>) -> Seq<char>
    decreases s.len(),
{
    if pat.len() == 0 || s.len() < pat.len() {
        s
    } else if s.take(pat.len() as int) == pat {
        if s.len() == pat.len() {
            rep
        } else {
            rep + spec_replace(s.skip(pat.len() as int), pat, rep)
        }
    } else {
        seq![s[0]] + spec_replace(s.skip(1), pat, rep)
    }
}

/// Replaces every occurrence of `pat` by `rep`, left to right.
pub fn replace_chars(s: &[char], pat: &[char], rep: &[char]) -> (r: Vec<char>)
    ensures
        r@ == spec_replace(s@, pat@, rep@),
{
    if pat.len() == 0 {
        return slice_range(s, 0, s.len());
    }
    let mut r: Vec<char> = Vec::new();
    let mut pos: usize = 0;
    proof {
        assert(s@.skip(0) =~= s@);
        assert(r@ + spec_replace(s@, pat@, rep@) =~= spec_replace(s@, pat@, rep@));
    }
    while pos < s.len()
        invariant
            pos <= s@.len(),
            pat@.len() > 0,
            spec_replace(s@, pat@, rep@) == r@ + spec_replace(s@.skip(pos as int), pat@, rep@),
        decreases s@.len() - pos,
    {
        let ghost rest = s@.skip(pos as int);
        let n = s.len();
        let mut matches_here = false;
        if n - pos >= pat.len() {
            matches_here = true;
            let mut j: usize = 0;
            while j < pat.len()
                invariant
                    n == s@.len(),
                    pos + pat@.len() <= s@.len(),
                    j <= pat@.len(),
                    matches_here <==> (forall|t: int| 0 <= t < j ==> s@[pos + t] == pat@[t]),
                decreases pat@.len() - j,
            {
                if s[pos + j] != pat[j] {
                    matches_here = false;
                    j = pat.len();
                } else {
                    j = j + 1;
                }
            }
        }
        let ghost can_match = pos + pat@.len() <= s@.len() && (forall|t: int|
            0 <= t < pat@.len() ==> s@[pos as int + t] == pat@[t]);
        proof {
            assert(matches_here <==> can_match);
        }
        if matches_here {
            proof {
                assert(rest.take(pat@.len() as int) =~= pat@);
                assert(rest.skip(pat@.len() as int) =~= s@.skip(pos + pat@.len()));
            }
            let mut t: usize = 0;
            let ghost base = r@;
            while t < rep.len()
                invariant
                    t <= rep@.len(),
                    r@ == base + rep@.take(t as int),
                decreases rep@.len() - t,
            {
                r.push(rep[t]);
                proof {
                    assert(r@ =~= base + rep@.take(t + 1));
                }
                t = t + 1;
            }
            proof {
                assert(rep@.take(rep@.len() as int) =~= rep@);
                if rest.len() == pat@.len() {
                    assert(spec_replace(rest, pat@, rep@) == rep@);
                    assert(s@.skip(pos + pat@.len()).len() == 0);
                    assert(spec_replace(s@.skip(pos + pat@.len()), pat@, rep@) =~= Seq::<
                        char,
                    >::empty());
                    assert((base + rep@) + spec_replace(s@.skip(pos + pat@.len()), pat@, rep@)
                        =~= base + rep@);
                } else {
                    assert((base + rep@) + spec_replace(s@.skip(pos + pat@.len()), pat@, rep@)
                        =~= base + (rep@ + spec_replace(rest.skip(pat@.len() as int), pat@, rep@)));
                }
            }
            pos = pos + pat.len();
        } else {
            proof {
                if pos + pat@.len() <= s@.len() && rest.take(pat@.len() as int) == pat@ {
                    assert(forall|t: int|
                        0 <= t < pat@.len() ==> s@[pos + t] == #[trigger] rest.take(
                            pat@.len() as int,
                        )[t]);
                    assert(false);
                }
                assert(rest[0] == s@[pos as int]);
                assert(rest.skip(1) =~= s@.skip(pos + 1));
                if rest.len() < pat@.len() {
                    assert(spec_replace(rest, pat@, rep@) == rest);
                    assert(rest =~= seq![rest[0]] + spec_replace(rest.skip(1), pat@, rep@));
                }
            }
            let ghost base = r@;
            r.push(s[pos]);
            proof {
                assert((base + seq![s@[pos as int]]) + spec_replace(s@.skip(pos + 1), pat@, rep@)
                    =~= base + (seq![rest[0]] + spec_replace(rest.skip(1), pat@, rep@)));
                assert(r@ =~= base + seq![s@[pos as int]]);
            }
            pos = pos + 1;
        }
    }
    proof {
        assert(spec_replace(s@.skip(pos as int), pat@, rep@) =~= Seq::<char>::empty());
        assert(r@ + spec_replace(s@.skip(pos as int), pat@, rep@) =~= r@);
    }
    r
}

/// The text after the last path separator; the whole text when it has none.
pub open spec fn spec_basename(s: Seq<char>) -> Seq<char>
    decreases s.len(),
{
    match spec_find_char(s, '/', 0) {
        Some(i) => {
            if 0 <= i < s.len() {
                spec_basename(s.skip(i + 1))
            } else {
                s
            }
        },
        None => s,
    }
}

/// The file name part of a path: everything after the last separator.
pub fn basename_chars(s: &[char]) -> (r: Vec<char>)
    ensures
        r@ == spec_basename(s@),
{
    let mut pos: usize = 0;
    proof {
        assert(s@.skip(0) =~= s@);
    }
    while pos < s.len()
        invariant
            pos <= s@.len(),
            spec_basename(s@) == spec_basename(s@.skip(pos as int)),
        decreases s@.len() - pos,
    {
        proof {
            lemma_find_char_shift(s@, '/', pos as int);
            lemma_find_char_in_range(s@, '/', pos as int);
        }
        match find_char_from(s, '/', pos) {
            Some(i) => {
                proof {
                    let rest = s@.skip(pos as int);
                    assert(spec_find_char(rest, '/', 0) == Some(i - pos as int));
                    assert(rest.skip(i - pos as int + 1) =~= s@.skip(i + 1));
                }
                pos = i + 1;
            },
            None => {
                proof {
                    let rest = s@.skip(pos as int);
                    assert(spec_find_char(rest, '/', 0) is None);
                    assert(spec_basename(rest) == rest);
                }
                let r = slice_range(s, pos, s.len());
                proof {
                    assert(r@ =~= s@.skip(pos as int));
                }
                return r;
            },
        }
    }
    proof {
        assert(s@.skip(pos as int) =~= Seq::<char>::empty());
        assert(spec_basename(s@.skip(pos as int)) == s@.skip(pos as int));
    }
    Vec::new()
}

pub open spec fn is_ascii_alnum(c: char) -> bool {
    ('0' <= c && c <= '9') || ('a' <= c && c <= 'z') || ('A' <= c && c <= 'Z')
}

pub fn ascii_alnum(c: char) -> (r: bool)
    ensures
        r == is_ascii_alnum(c),
{
    ('0' <= c && c <= '9') || ('a' <= c && c <= 'z') || ('A' <= c && c <= 'Z')
}

} // verus!
