//! Notification decisions: mapping a notification kind to its sound, icon
//! symbol, message and color; building the icon cache names; and the text
//! parsing and command building around the platform notifiers.

use vstd::prelude::*;
use crate::strutil::{
    ascii_alnum, find_char, is_ascii_alnum, lines_of, replace_chars, slice_range, spec_find_char,
    spec_replace, spec_trim, split_lines, str_chars, string_of_chars, trim_chars,
};

verus! {

/// What one notification kind maps to: the sound, the icon symbol, the
/// message line and the badge color.
pub struct TypeMapping {
    pub sound: &'static str,
    pub symbol: &'static str,
    pub message: &'static str,
    pub color: &'static str,
}

/// The fixed mapping from notification kinds to sound, symbol, message and
/// color; unknown and absent kinds fall through to the completion mapping.
pub fn map_notification_type(notification_type: Option<&str>) -> (r: TypeMapping)
    ensures
        ({
            let known = match notification_type {
                Some(t) => t@ == "permission_prompt"@ || t@ == "idle_prompt"@ || t@
                    == "elicitation_dialog"@,
                None => false,
            };
            &&& (match notification_type {
                Some(t) => {
                    &&& (t@ == "permission_prompt"@ ==> r.symbol@ == "lock"@ && r.message@
                        == "Permission required"@ && r.color@ == "#e74c3c"@)
                    &&& (t@ == "idle_prompt"@ ==> r.symbol@ == "chat"@ && r.message@
                        == "Finished, waiting for your input"@ && r.color@ == "#3498db"@)
                    &&& (t@ == "elicitation_dialog"@ ==> r.symbol@ == "question"@ && r.message@
                        == "I have some questions for you"@ && r.color@ == "#f39c12"@)
                },
                None => true,
            })
            &&& (known ==> r.sound@ == "Frog"@)
            &&& (!known ==> r.sound@ == "Hero"@ && r.symbol@ == "check"@ && r.message@ == "Ready"@
                && r.color@ == "#2ecc71"@)
        }),
{
    match notification_type {
        Some(t) => {
            if crate::strutil::str_eq(t, "permission_prompt") {
                proof {
                    lemma_kind_names_distinct();
                }
                TypeMapping {
                    sound: "Frog",
                    symbol: "lock",
                    message: "Permission required",
                    color: "#e74c3c",
                }
            } else if crate::strutil::str_eq(t, "idle_prompt") {
                proof {
                    lemma_kind_names_distinct();
                }
                TypeMapping {
                    sound: "Frog",
                    symbol: "chat",
                    message: "Finished, waiting for your input",
                    color: "#3498db",
                }
            } else if crate::strutil::str_eq(t, "elicitation_dialog") {
                proof {
                    lemma_kind_names_distinct();
                }
                TypeMapping {
                    sound: "Frog",
                    symbol: "question",
                    message: "I have some questions for you",
                    color: "#f39c12",
                }
            } else {
                TypeMapping { sound: "Hero", symbol: "check", message: "Ready", color: "#2ecc71" }
            }
        },
        None => TypeMapping { sound: "Hero", symbol: "check", message: "Ready", color: "#2ecc71" },
    }
}

/// The three named notification kinds have three different names.
pub proof fn lemma_kind_names_distinct()
    ensures
        "permission_prompt"@ != "idle_prompt"@,
        "permission_prompt"@ != "elicitation_dialog"@,
        "idle_prompt"@ != "elicitation_dialog"@,
{
    reveal_strlit("permission_prompt");
    reveal_strlit("idle_prompt");
    reveal_strlit("elicitation_dialog");
    assert("permission_prompt"@.len() == 17);
    assert("idle_prompt"@.len() == 11);
    assert("elicitation_dialog"@.len() == 18);
}

/// The sound file the desktop player gets for a notification kind: the
/// dialog-warning sound for every prompting kind, the completion sound
/// otherwise.
pub fn sound_file_for_type(notification_type: Option<&str>) -> (r: &'static str)
    ensures
        ({
            let prompting = match notification_type {
                Some(t) => t@ == "permission_prompt"@ || t@ == "idle_prompt"@ || t@
                    == "elicitation_dialog"@,
                None => false,
            };
            if prompting {
                r@ == "/usr/share/sounds/freedesktop/stereo/dialog-warning.oga"@
            } else {
                r@ == "/usr/share/sounds/freedesktop/stereo/complete.oga"@
            }
        }),
{
    match notification_type {
        Some(t) => {
            if crate::strutil::str_eq(t, "permission_prompt") || crate::strutil::str_eq(
                t,
                "idle_prompt",
            ) || crate::strutil::str_eq(t, "elicitation_dialog") {
                "/usr/share/sounds/freedesktop/stereo/dialog-warning.oga"
            } else {
                "/usr/share/sounds/freedesktop/stereo/complete.oga"
            }
        },
        None => "/usr/share/sounds/freedesktop/stereo/complete.oga",
    }
}

/// A session name reduced to filename-safe characters: alphanumerics,
/// underscore and hyphen stay, everything else becomes an underscore.
pub open spec fn spec_sanitize_session(s: Seq<char>) -> Seq<char> {
    s.map_values(
        |c: char|
            if is_ascii_alnum(c) || c == '_' || c == '-' {
                c
            } else {
                '_'
            },
    )
}

/// A session name reduced to filename-safe characters.
pub fn sanitize_session(name: &str) -> (r: String)
    ensures
        r@ == spec_sanitize_session(name@),
{
    let cs = str_chars(name);
    let mut out: Vec<char> = Vec::new();
    let mut i: usize = 0;
    while i < cs.len()
        invariant
            i <= cs@.len(),
            cs@ == name@,
            out@ == spec_sanitize_session(name@.take(i as int)),
        decreases cs@.len() - i,
    {
        proof {
            assert(name@.take(i + 1).drop_last() =~= name@.take(i as int));
        }
        let c = cs[i];
        if ascii_alnum(c) || c == '_' || c == '-' {
            out.push(c);
        } else {
            out.push('_');
        }
        proof {
            assert(out@ =~= spec_sanitize_session(name@.take(i + 1)));
        }
        i = i + 1;
    }
    proof {
        assert(name@.take(name@.len() as int) =~= name@);
    }
    string_of_chars(out.as_slice())
}

/// The color with leading hash marks removed.
pub open spec fn spec_strip_hash(s: Seq<char>) -> Seq<char>
    decreases s.len(),
{
    if s.len() > 0 && s[0] == '#' {
        spec_strip_hash(s.skip(1))
    } else {
        s
    }
}

fn strip_hash(s: &[char]) -> (r: Vec<char>)
    ensures
        r@ == spec_strip_hash(s@),
{
    let mut lo: usize = 0;
    proof {
        assert(s@.skip(0) =~= s@);
    }
    while lo < s.len() && s[lo] == '#'
        invariant
            lo <= s@.len(),
            spec_strip_hash(s@) == spec_strip_hash(s@.skip(lo as int)),
        decreases s@.len() - lo,
    {
        proof {
            assert(s@.skip(lo as int)[0] == s@[lo as int]);
            assert(s@.skip(lo as int).skip(1) =~= s@.skip(lo + 1));
        }
        lo = lo + 1;
    }
    let r = slice_range(s, lo, s.len());
    proof {
        assert(r@ =~= s@.skip(lo as int));
    }
    r
}

/// The cached icon's file name: the sanitized session, the symbol and the
/// color (hash stripped), hyphen-separated, as a PNG.
pub open spec fn spec_icon_filename(session: Seq<char>, symbol: Seq<char>, color: Seq<char>) -> Seq<
    char,
> {
    spec_sanitize_session(session) + "-"@ + symbol + "-"@ + spec_strip_hash(color) + ".png"@
}

/// The cached icon's file name for a session, symbol and color.
pub fn icon_filename(session: &str, symbol: &str, color_hex: &str) -> (r: String)
    ensures
        r@ == spec_icon_filename(session@, symbol@, color_hex@),
{
    let mut r = sanitize_session(session);
    r.append("-");
    r.append(symbol);
    r.append("-");
    let cc = str_chars(color_hex);
    let stripped = strip_hash(cc.as_slice());
    let ss = string_of_chars(stripped.as_slice());
    r.append(ss.as_str());
    r.append(".png");
    r
}

/// The full cache path of an icon inside a cache directory.
pub fn cache_path_in(dir: &str, session: &str, symbol: &str, color_hex: &str) -> (r: String)
    ensures
        r@ == dir@ + "/"@ + spec_icon_filename(session@, symbol@, color_hex@),
{
    let mut r = String::new();
    r.append(dir);
    r.append("/");
    let name = icon_filename(session, symbol, color_hex);
    r.append(name.as_str());
    r
}

/// The value of one hexadecimal digit.
pub open spec fn spec_hex_digit(c: char) -> Option<u8> {
    if '0' <= c && c <= '9' {
        Some(((c as u8) - ('0' as u8)) as u8)
    } else if 'a' <= c && c <= 'f' {
        Some((((c as u8) - ('a' as u8)) + 10) as u8)
    } else if 'A' <= c && c <= 'F' {
        Some((((c as u8) - ('A' as u8)) + 10) as u8)
    } else {
        None
    }
}

fn hex_digit(c: char) -> (r: Option<u8>)
    ensures
        r == spec_hex_digit(c),
{
    if '0' <= c && c <= '9' {
        Some((c as u8) - ('0' as u8))
    } else if 'a' <= c && c <= 'f' {
        Some(((c as u8) - ('a' as u8)) + 10)
    } else if 'A' <= c && c <= 'F' {
        Some(((c as u8) - ('A' as u8)) + 10)
    } else {
        None
    }
}

/// The value of one two-digit hexadecimal pair.
pub open spec fn spec_hex_pair(hi: char, lo: char) -> Option<u8> {
    match (spec_hex_digit(hi), spec_hex_digit(lo)) {
        (Some(h), Some(l)) => Some((h * 16 + l) as u8),
        _ => None,
    }
}

/// The red, green and blue channels of a six-digit hex color; a leading
/// hash is allowed; anything else gives nothing.
pub open spec fn spec_parse_hex_color(s: Seq<char>) -> Option<(u8, u8, u8)> {
    let t = spec_strip_hash(s);
    if t.len() != 6 {
        None
    } else {
        match (spec_hex_pair(t[0], t[1]), spec_hex_pair(t[2], t[3]), spec_hex_pair(t[4], t[5])) {
            (Some(r), Some(g), Some(b)) => Some((r, g, b)),
            _ => None,
        }
    }
}

/// Parses a six-digit hex color, with or without its leading hash.
pub fn parse_hex_color(hex: &str) -> (r: Option<(u8, u8, u8)>)
    ensures
        r == spec_parse_hex_color(hex@),
{
    let cs = str_chars(hex);
    let t = strip_hash(cs.as_slice());
    if t.len() != 6 {
        return None;
    }
    let p0 = hex_pair(t[0], t[1]);
    let p1 = hex_pair(t[2], t[3]);
    let p2 = hex_pair(t[4], t[5]);
    match (p0, p1, p2) {
        (Some(r), Some(g), Some(b)) => Some((r, g, b)),
        _ => None,
    }
}

fn hex_pair(hi: char, lo: char) -> (r: Option<u8>)
    ensures
        r == spec_hex_pair(hi, lo),
{
    match (hex_digit(hi), hex_digit(lo)) {
        (Some(h), Some(l)) => Some(h * 16 + l),
        _ => None,
    }
}

/// A text escaped for interpolation inside single quotes in a shell
/// command: each quote closes the quoting, emits an escaped quote, and
/// reopens it.
pub fn shell_escape(s: &str) -> (r: String)
    ensures
        r@ == spec_replace(s@, seq!['\''], seq!['\'', '\\', '\'', '\'']),
{
    let cs = str_chars(s);
    let mut pat: Vec<char> = Vec::new();
    pat.push('\'');
    let mut rep: Vec<char> = Vec::new();
    rep.push('\'');
    rep.push('\\');
    rep.push('\'');
    rep.push('\'');
    proof {
        assert(pat@ =~= seq!['\'']);
        assert(rep@ =~= seq!['\'', '\\', '\'', '\'']);
    }
    let out = replace_chars(cs.as_slice(), pat.as_slice(), rep.as_slice());
    string_of_chars(out.as_slice())
}

/// The per-session file remembering the last notification's identifier,
/// used to replace it instead of stacking a new one.
pub fn id_file_for(session: &str) -> (r: String)
    ensures
        r@ == "/tmp/ct-notify-"@ + spec_sanitize_session(session@) + ".id"@,
{
    let mut r = String::new();
    r.append("/tmp/ct-notify-");
    let safe = sanitize_session(session);
    r.append(safe.as_str());
    r.append(".id");
    r
}

/// A path with a home-relative prefix expanded against the given home
/// directory; anything else is kept as it is.
pub fn expand_tilde(path: &str, home: &str) -> (r: String)
    ensures
        r@ == (if crate::strutil::starts_with(path@, "~/"@) {
            home@ + "/"@ + path@.skip(2)
        } else {
            path@
        }),
{
    let cs = str_chars(path);
    let prefix = str_chars("~/");
    proof {
        reveal_strlit("~/");
        assert("~/"@.len() == 2);
    }
    if crate::strutil::chars_start_with(cs.as_slice(), prefix.as_slice()) {
        let rest = slice_range(cs.as_slice(), 2, cs.len());
        proof {
            assert(rest@ =~= path@.skip(2));
        }
        let mut r = String::new();
        r.append(home);
        r.append("/");
        let rs = string_of_chars(rest.as_slice());
        r.append(rs.as_str());
        r
    } else {
        string_of_chars(cs.as_slice())
    }
}

/// The fallback notification icon under a home directory.
pub fn default_icon(home: &str) -> (r: String)
    ensures
        r@ == home@ + "/.taskdeck/badge.png"@,
{
    let mut r = String::new();
    r.append(home);
    r.append("/.taskdeck/badge.png");
    r
}

/// The first quoted value after an equals sign in the platform's
/// application-info output, or nothing when no line has one.
pub open spec fn spec_lsappinfo_name(ls: Seq<Seq<char>>) -> Option<Seq<char>>
    decreases ls.len(),
{
    if ls.len() == 0 {
        None
    } else {
        match spec_lsappinfo_line(ls[0]) {
            Some(v) => Some(v),
            None => spec_lsappinfo_name(ls.skip(1)),
        }
    }
}

pub open spec fn spec_lsappinfo_line(line: Seq<char>) -> Option<Seq<char>> {
    match spec_find_char(line, '=', 0) {
        Some(eq) => {
            let v = spec_trim(line.skip(eq + 1));
            if v.len() >= 2 && v[0] == '"' {
                match spec_find_char(v, '"', 1) {
                    Some(close) => Some(v.subrange(1, close)),
                    None => None,
                }
            } else {
                None
            }
        },
        None => None,
    }
}

/// Parses the application name out of the platform's application-info
/// output: the first line with a quoted value after an equals sign.
pub fn parse_lsappinfo_name(output: &str) -> (r: Option<String>)
    ensures
        ({
            match r {
                Some(v) => spec_lsappinfo_name(lines_of(output@)) == Some(v@),
                None => spec_lsappinfo_name(lines_of(output@)) is None,
            }
        }),
{
    let cs = str_chars(output);
    let ls = split_lines(cs.as_slice());
    let ghost lv = ls.deep_view();
    let mut i: usize = 0;
    proof {
        assert(lv.skip(0) =~= lv);
    }
    while i < ls.len()
        invariant
            i <= ls@.len(),
            lv == ls.deep_view(),
            lv.len() == ls@.len(),
            lv == lines_of(output@),
            spec_lsappinfo_name(lv) == spec_lsappinfo_name(lv.skip(i as int)),
        decreases ls@.len() - i,
    {
        proof {
            assert(lv[i as int] == ls@[i as int]@);
            assert(lv.skip(i as int)[0] == lv[i as int]);
            assert(lv.skip(i as int).skip(1) =~= lv.skip(i + 1));
        }
        let line = &ls[i];
        let ll = line.len();
        match find_char(line.as_slice(), '=') {
            Some(eq) => {
                let after = slice_range(line.as_slice(), eq + 1, ll);
                proof {
                    assert(after@ =~= lv[i as int].skip(eq + 1));
                }
                let v = trim_chars(after.as_slice());
                if v.len() >= 2 && v[0] == '"' {
                    match crate::strutil::find_char_from(v.as_slice(), '"', 1) {
                        Some(close) => {
                            let inner = slice_range(v.as_slice(), 1, close);
                            proof {
                                assert(inner@ =~= v@.subrange(1, close as int));
                                assert(spec_lsappinfo_line(lv[i as int]) == Some(inner@));
                                assert(spec_lsappinfo_name(lv.skip(i as int)) == Some(inner@));
                            }
                            return Some(string_of_chars(inner.as_slice()));
                        },
                        None => {
                            proof {
                                assert(spec_lsappinfo_line(lv[i as int]) is None);
                            }
                        },
                    }
                } else {
                    proof {
                        assert(spec_lsappinfo_line(lv[i as int]) is None);
                    }
                }
            },
            None => {
                proof {
                    assert(spec_lsappinfo_line(lv[i as int]) is None);
                }
            },
        }
        i = i + 1;
    }
    proof {
        assert(lv.skip(lv.len() as int) =~= Seq::<Seq<char>>::empty());
    }
    None
}

/// The shell command a notification click runs: it raises the terminal,
/// clears the session's notification thread, and switches the multiplexer
/// client to the session.
pub fn build_focus_command(session: &str, tmux_bin: &str, grrr_bin: &str) -> (r: String)
    ensures
        r@ == "open -a Ghostty & "@ + grrr_bin@ + " clear 'deck-"@ + session@
            + "' >/dev/null 2>&1 & client=$("@ + tmux_bin@
            + " list-clients -F '#{client_tty}' | head -1) ; [ -n \"$client\" ] && "@ + tmux_bin@
            + " switch-client -c \"$client\" -t '"@ + session@ + "'"@,
{
    let mut r = String::new();
    r.append("open -a Ghostty & ");
    r.append(grrr_bin);
    r.append(" clear 'deck-");
    r.append(session);
    r.append("' >/dev/null 2>&1 & client=$(");
    r.append(tmux_bin);
    r.append(" list-clients -F '#{client_tty}' | head -1) ; [ -n \"$client\" ] && ");
    r.append(tmux_bin);
    r.append(" switch-client -c \"$client\" -t '");
    r.append(session);
    r.append("'");
    r
}

} // verus!
