//! Terminal color styling for the non-interactive listings: truecolor
//! escape sequences around semantic text roles. Whether color is wanted at
//! all is the caller's decision, made at the program's edge.

use vstd::prelude::*;
use crate::record::{Priority, Status};
use crate::strutil::{spec_u64_str, str_eq, u64_to_string};

verus! {

/// The truecolor escape around a text.
pub open spec fn spec_rgb(r: u64, g: u64, b: u64, text: Seq<char>) -> Seq<char> {
    "\u{1b}[38;2;"@ + spec_u64_str(r) + ";"@ + spec_u64_str(g) + ";"@ + spec_u64_str(b) + "m"@
        + text + "\u{1b}[0m"@
}

/// The bold truecolor escape around a text.
pub open spec fn spec_bold_rgb(r: u64, g: u64, b: u64, text: Seq<char>) -> Seq<char> {
    "\u{1b}[1;38;2;"@ + spec_u64_str(r) + ";"@ + spec_u64_str(g) + ";"@ + spec_u64_str(b) + "m"@
        + text + "\u{1b}[0m"@
}

/// Text in a truecolor foreground.
pub fn rgb(r: u8, g: u8, b: u8, text: &str) -> (out: String)
    ensures
        out@ == spec_rgb(r as u64, g as u64, b as u64, text@),
{
    let mut s = String::new();
    s.append("\u{1b}[38;2;");
    let rs = u64_to_string(r as u64);
    s.append(rs.as_str());
    s.append(";");
    let gs = u64_to_string(g as u64);
    s.append(gs.as_str());
    s.append(";");
    let bs = u64_to_string(b as u64);
    s.append(bs.as_str());
    s.append("m");
    s.append(text);
    s.append("\u{1b}[0m");
    s
}

/// Text in a bold truecolor foreground.
pub fn bold_rgb(r: u8, g: u8, b: u8, text: &str) -> (out: String)
    ensures
        out@ == spec_bold_rgb(r as u64, g as u64, b as u64, text@),
{
    let mut s = String::new();
    s.append("\u{1b}[1;38;2;");
    let rs = u64_to_string(r as u64);
    s.append(rs.as_str());
    s.append(";");
    let gs = u64_to_string(g as u64);
    s.append(gs.as_str());
    s.append(";");
    let bs = u64_to_string(b as u64);
    s.append(bs.as_str());
    s.append("m");
    s.append(text);
    s.append("\u{1b}[0m");
    s
}

/// Identifiers: record identifiers and project slugs.
pub fn id(text: &str) -> (out: String)
    ensures
        out@ == spec_rgb(180, 190, 254, text@),
{
    rgb(180, 190, 254, text)
}

/// Field labels.
pub fn label(text: &str) -> (out: String)
    ensures
        out@ == spec_bold_rgb(166, 173, 200, text@),
{
    bold_rgb(166, 173, 200, text)
}

/// Secondary information: timestamps and metadata.
pub fn dim(text: &str) -> (out: String)
    ensures
        out@ == spec_rgb(108, 112, 134, text@),
{
    rgb(108, 112, 134, text)
}

/// Section headers.
pub fn section(text: &str) -> (out: String)
    ensures
        out@ == spec_bold_rgb(180, 190, 254, text@),
{
    bold_rgb(180, 190, 254, text)
}

/// Bold text, as table headers use.
pub fn bold(text: &str) -> (out: String)
    ensures
        out@ == "\u{1b}[1m"@ + text@ + "\u{1b}[0m"@,
{
    let mut s = String::new();
    s.append("\u{1b}[1m");
    s.append(text);
    s.append("\u{1b}[0m");
    s
}

/// The styled arrow shown between state transitions.
pub fn arrow() -> (out: String)
    ensures
        out@ == spec_rgb(69, 71, 90, "\u{2192}"@),
{
    rgb(69, 71, 90, "\u{2192}")
}

/// Text colored by lifecycle status.
pub fn for_status(status: &Status, text: &str) -> (out: String)
    ensures
        out@ == (match status@ {
            crate::record::StatusV::Pending => spec_rgb(108, 112, 134, text@),
            crate::record::StatusV::InProgress => spec_rgb(137, 180, 250, text@),
            crate::record::StatusV::Completed => spec_rgb(166, 227, 161, text@),
            crate::record::StatusV::Other(_) => text@,
        }),
{
    match status {
        Status::Pending => dim(text),
        Status::InProgress => rgb(137, 180, 250, text),
        Status::Completed => rgb(166, 227, 161, text),
        Status::Other(_) => text.to_owned(),
    }
}

/// Text colored by priority rank.
pub fn for_priority(priority: &Priority, text: &str) -> (out: String)
    ensures
        out@ == (match priority {
            Priority::P1 => spec_rgb(243, 139, 168, text@),
            Priority::P2 => spec_rgb(249, 226, 175, text@),
            Priority::P3 => spec_rgb(137, 180, 250, text@),
            Priority::Unset => spec_rgb(108, 112, 134, text@),
        }),
{
    match priority {
        Priority::P1 => rgb(243, 139, 168, text),
        Priority::P2 => rgb(249, 226, 175, text),
        Priority::P3 => rgb(137, 180, 250, text),
        Priority::Unset => dim(text),
    }
}

/// Text colored by record type; unknown types stay in the body color.
pub fn for_type(type_str: &str, text: &str) -> (out: String)
    ensures
        out@ == (if type_str@ == "epic"@ {
            spec_rgb(180, 190, 254, text@)
        } else if type_str@ == "feature"@ {
            spec_rgb(116, 199, 236, text@)
        } else if type_str@ == "bug"@ {
            spec_rgb(250, 179, 135, text@)
        } else if type_str@ == "chore"@ {
            spec_rgb(166, 173, 200, text@)
        } else if type_str@ == "explore"@ {
            spec_rgb(137, 180, 250, text@)
        } else if type_str@ == "phase"@ {
            spec_rgb(108, 112, 134, text@)
        } else {
            spec_rgb(205, 214, 244, text@)
        }),
{
    if str_eq(type_str, "epic") {
        proof {
            lemma_type_names_distinct();
        }
        rgb(180, 190, 254, text)
    } else if str_eq(type_str, "feature") {
        proof {
            lemma_type_names_distinct();
        }
        rgb(116, 199, 236, text)
    } else if str_eq(type_str, "bug") {
        proof {
            lemma_type_names_distinct();
        }
        rgb(250, 179, 135, text)
    } else if str_eq(type_str, "chore") {
        proof {
            lemma_type_names_distinct();
        }
        rgb(166, 173, 200, text)
    } else if str_eq(type_str, "explore") {
        proof {
            lemma_type_names_distinct();
        }
        rgb(137, 180, 250, text)
    } else if str_eq(type_str, "phase") {
        proof {
            lemma_type_names_distinct();
        }
        rgb(108, 112, 134, text)
    } else {
        rgb(205, 214, 244, text)
    }
}

proof fn lemma_type_names_distinct()
    ensures
        "epic"@ != "feature"@ && "epic"@ != "bug"@ && "epic"@ != "chore"@ && "epic"@ != "explore"@
            && "epic"@ != "phase"@,
        "feature"@ != "bug"@ && "feature"@ != "chore"@ && "feature"@ != "explore"@ && "feature"@
            != "phase"@,
        "bug"@ != "chore"@ && "bug"@ != "explore"@ && "bug"@ != "phase"@,
        "chore"@ != "explore"@ && "chore"@ != "phase"@,
        "explore"@ != "phase"@,
{
    reveal_strlit("epic");
    reveal_strlit("feature");
    reveal_strlit("bug");
    reveal_strlit("chore");
    reveal_strlit("explore");
    reveal_strlit("phase");
    assert("epic"@.len() == 4);
    assert("feature"@.len() == 7);
    assert("bug"@.len() == 3);
    assert("chore"@.len() == 5);
    assert("explore"@.len() == 7);
    assert("phase"@.len() == 5);
    assert("feature"@[0] == 'f' && "explore"@[0] == 'e');
    assert("chore"@[0] == 'c' && "phase"@[0] == 'p');
}

/// The blocked indicator's color.
pub fn blocked(text: &str) -> (out: String)
    ensures
        out@ == spec_rgb(243, 139, 168, text@),
{
    rgb(243, 139, 168, text)
}

} // verus!
