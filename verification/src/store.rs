//! The record store's decision logic: file and directory naming, monotonic
//! identifier allocation, partition discovery, pruning, and the timestamp
//! parsing used to age completed records.
//!
//! The store owns a root directory with one sub-directory per partition;
//! each record is one file named after its identifier, a high-water-mark
//! file holds the identifier floor, and atomic replacement writes go
//! through a uniquely named temporary file with a reserved prefix.

use vstd::prelude::*;
use crate::record::{Task, TaskList, TaskV};
use crate::strutil::{
    chars_contain, contains_seq, find_char, parse_u64, spec_find_char, spec_parse_u64,
    spec_trim, spec_u64_str, str_chars, string_of_chars, trim_chars, u64_chars,
};

verus! {

/// A partition directory whose name looks machine-generated: a long token
/// with hyphens, as opposed to a short human-chosen name.
pub open spec fn spec_is_uuid(s: Seq<char>) -> bool {
    s.len() > 30 && spec_find_char(s, '-', 0) is Some
}

/// Whether a partition name looks machine-generated (long and hyphenated).
/// Only such partitions may be pruned when empty.
pub fn is_uuid(s: &str) -> (r: bool)
    ensures
        r == spec_is_uuid(s@),
{
    let cs = str_chars(s);
    cs.len() > 30 && find_char(cs.as_slice(), '-').is_some()
}

/// The store: a root directory holding one directory per partition.
pub struct Store {
    pub base: String,
}

impl Store {
    /// A store rooted at the given directory.
    pub fn with_base(base: String) -> (r: Store)
        ensures
            r.base@ == base@,
    {
        Store { base }
    }

    /// The root directory every partition lives under.
    pub fn tasks_base(&self) -> (r: &String)
        ensures
            r@ == self.base@,
    {
        &self.base
    }

    /// The directory of one partition.
    pub fn list_dir(&self, list_id: &str) -> (r: String)
        ensures
            r@ == self.base@ + "/"@ + list_id@,
    {
        let mut r = self.base.clone();
        r.append("/");
        r.append(list_id);
        r
    }

    /// The file a record is stored in.
    pub fn task_file_path(&self, list_id: &str, task_id: &str) -> (r: String)
        ensures
            r@ == self.base@ + "/"@ + list_id@ + "/"@ + task_id@ + ".json"@,
    {
        let mut r = self.list_dir(list_id);
        r.append("/");
        r.append(task_id);
        r.append(".json");
        r
    }

    /// The per-partition file holding the identifier floor.
    pub fn hwm_file_path(&self, list_id: &str) -> (r: String)
        ensures
            r@ == self.base@ + "/"@ + list_id@ + "/"@ + ".highwatermark"@,
    {
        let mut r = self.list_dir(list_id);
        r.append("/");
        r.append(".highwatermark");
        r
    }

    /// The archive sub-directory of a partition, where pruned records move.
    pub fn archive_dir(&self, list_id: &str) -> (r: String)
        ensures
            r@ == self.base@ + "/"@ + list_id@ + "/"@ + "archive"@,
    {
        let mut r = self.list_dir(list_id);
        r.append("/");
        r.append("archive");
        r
    }

    /// The file a record moves to when archived.
    pub fn archive_file_path(&self, list_id: &str, task_id: &str) -> (r: String)
        ensures
            r@ == self.base@ + "/"@ + list_id@ + "/"@ + "archive"@ + "/"@ + task_id@ + ".json"@,
    {
        let mut r = self.archive_dir(list_id);
        r.append("/");
        r.append(task_id);
        r.append(".json");
        r
    }
}

/// The reserved prefix of atomic-write intermediates. The filesystem
/// watcher ignores files carrying it, so a save is seen only at the final
/// rename.
pub open spec fn tmp_prefix() -> Seq<char> {
    ".tmp-"@
}

/// The unique name of one atomic-write intermediate, from the writing
/// process's identifier and a nanosecond timestamp.
pub open spec fn spec_tmp_file_name(pid: u64, nanos: u64) -> Seq<char> {
    tmp_prefix() + spec_u64_str(pid) + "-"@ + spec_u64_str(nanos)
}

/// The name an atomic write stages its data under before the rename.
pub fn tmp_file_name(pid: u64, nanos: u64) -> (r: String)
    ensures
        r@ == spec_tmp_file_name(pid, nanos),
{
    let mut r = String::new();
    r.append(".tmp-");
    let p = u64_chars(pid);
    let ps = string_of_chars(p.as_slice());
    r.append(ps.as_str());
    r.append("-");
    let n = u64_chars(nanos);
    let ns = string_of_chars(n.as_slice());
    r.append(ns.as_str());
    proof {
        reveal_strlit(".tmp-");
        reveal_strlit("-");
        assert(r@ =~= spec_tmp_file_name(pid, nanos));
    }
    r
}

/// The largest numeric identifier among the records; zero when none parses.
pub open spec fn spec_max_id(dv: Seq<TaskV>) -> u64
    decreases dv.len(),
{
    if dv.len() == 0 {
        0u64
    } else {
        let rest = spec_max_id(dv.drop_last());
        match spec_parse_u64(dv.last().id) {
            Some(n) => if n > rest {
                n
            } else {
                rest
            },
            None => rest,
        }
    }
}

/// The largest numeric identifier among the given records.
pub fn max_numeric_id(tasks: &Vec<Task>) -> (r: u64)
    ensures
        r == spec_max_id(tasks.deep_view()),
{
    let ghost dv = tasks.deep_view();
    let mut r: u64 = 0;
    let mut i: usize = 0;
    proof {
        assert(dv.take(0) =~= Seq::<TaskV>::empty());
    }
    while i < tasks.len()
        invariant
            i <= tasks@.len(),
            dv == tasks.deep_view(),
            dv.len() == tasks@.len(),
            r == spec_max_id(dv.take(i as int)),
        decreases tasks@.len() - i,
    {
        proof {
            assert(dv[i as int] == tasks@[i as int]@);
            assert(dv.take(i + 1).drop_last() =~= dv.take(i as int));
            assert(dv.take(i + 1).last() == dv[i as int]);
        }
        let cs = str_chars(tasks[i].id.as_str());
        match parse_u64(cs.as_slice()) {
            Some(n) => {
                if n > r {
                    r = n;
                }
            },
            None => {},
        }
        i = i + 1;
    }
    proof {
        assert(dv.take(dv.len() as int) =~= dv);
    }
    r
}

/// The next identifier a partition issues: one past both the stored floor
/// and every identifier already on disk. The floor file may be missing
/// (floor zero) or stale; either way the result is fresh.
pub fn next_id_value(hwm: u64, max_existing: u64) -> (r: u64)
    requires
        hwm < u64::MAX,
        max_existing < u64::MAX,
    ensures
        r == (if hwm > max_existing {
            hwm
        } else {
            max_existing
        }) + 1,
        r > hwm,
        r > max_existing,
{
    let floor = if hwm > max_existing {
        hwm
    } else {
        max_existing
    };
    floor + 1
}

/// Identifier allocation is strictly increasing: writing the issued value
/// back as the new floor makes every later allocation larger, whatever
/// records are deleted or present in between — and with no floor file at
/// all (floor zero), the issued value still exceeds every existing
/// identifier.
pub proof fn lemma_alloc_monotonic(hwm: u64, max1: u64, max2: u64)
    requires
        hwm < u64::MAX,
        max1 < u64::MAX,
        max2 < u64::MAX,
    ensures
        ({
            let first = if hwm > max1 {
                hwm
            } else {
                max1
            } + 1;
            first < u64::MAX ==> (if first > max2 {
                first as u64
            } else {
                max2
            }) + 1 > first
        }),
{
}

/// Whether a record's stored project path places it in the given working
/// directory: the project is set and occurs in the directory's path.
pub fn task_matches_context(t: &Task, cwd: &str) -> (r: bool)
    ensures
        r == (t.project@.len() > 0 && contains_seq(cwd@, t.project@)),
{
    if t.project.as_str().unicode_len() == 0 {
        return false;
    }
    let c = str_chars(cwd);
    let p = str_chars(t.project.as_str());
    chars_contain(c.as_slice(), p.as_slice())
}

/// The three-tier partition choice: an explicit override wins, then a
/// project settings entry, then the partitions whose records match the
/// working directory; with nothing matching, every known partition shows.
pub fn choose_active_lists(
    override_list: Option<TaskList>,
    settings_list: Option<TaskList>,
    matches: Vec<TaskList>,
    all: Vec<TaskList>,
) -> (r: Vec<TaskList>)
    ensures
        override_list matches Some(l) ==> r@.len() == 1 && r@[0] == l,
        override_list is None ==> (settings_list matches Some(l) ==> r@.len() == 1 && r@[0] == l),
        override_list is None && settings_list is None && matches@.len() > 0 ==> r@ == matches@,
        override_list is None && settings_list is None && matches@.len() == 0 ==> r@ == all@,
{
    match override_list {
        Some(l) => {
            let mut r: Vec<TaskList> = Vec::new();
            r.push(l);
            r
        },
        None => match settings_list {
            Some(l) => {
                let mut r: Vec<TaskList> = Vec::new();
                r.push(l);
                r
            },
            None => {
                if matches.len() > 0 {
                    matches
                } else {
                    all
                }
            },
        },
    }
}

/// Whether an empty partition directory may be removed: only
/// machine-generated names, and only with no record files and no archive.
pub fn should_prune_list(list_id: &str, has_record_file: bool, has_archive: bool) -> (r: bool)
    ensures
        r == (spec_is_uuid(list_id@) && !has_record_file && !has_archive),
{
    is_uuid(list_id) && !has_record_file && !has_archive
}

/// The wall-clock seconds an ISO-8601 timestamp denotes, computed from the
/// civil date; timestamps before the epoch, too short, or malformed give
/// nothing.
pub open spec fn spec_parse_iso(s: Seq<char>) -> Option<u64> {
    let t = spec_trim(s);
    if t.len() < 19 {
        None
    } else {
        let year = spec_parse_u64(t.subrange(0, 4));
        let month = spec_parse_u64(t.subrange(5, 7));
        let day = spec_parse_u64(t.subrange(8, 10));
        let hour = spec_parse_u64(t.subrange(11, 13));
        let min = spec_parse_u64(t.subrange(14, 16));
        let sec = spec_parse_u64(t.subrange(17, 19));
        if t[4] != '-' || t[7] != '-' || t[10] != 'T' || t[13] != ':' || t[16] != ':' {
            None
        } else if year is None || month is None || day is None || hour is None || min is None
            || sec is None {
            None
        } else {
            spec_civil_to_secs(
                year.unwrap(),
                month.unwrap(),
                day.unwrap(),
                hour.unwrap(),
                min.unwrap(),
                sec.unwrap(),
            )
        }
    }
}

/// Days-from-civil (the standard proleptic Gregorian formula) scaled to
/// seconds; dates before the epoch give nothing. The day count is kept
/// shifted up by one so the arithmetic never goes below zero.
pub open spec fn spec_civil_to_secs(
    year: u64,
    month: u64,
    day: u64,
    hour: u64,
    min: u64,
    sec: u64,
) -> Option<u64> {
    if year == 0 && month <= 2 {
        None
    } else {
        let y = if month <= 2 {
            (year - 1) as u64
        } else {
            year
        };
        let m = if month <= 2 {
            (month + 9) as u64
        } else {
            (month - 3) as u64
        };
        let era = y / 400;
        let yoe = y % 400;
        let doy_plus = (153 * m + 2) / 5 + day;
        let doe_plus = yoe * 365 + yoe / 4 - yoe / 100 + doy_plus;
        let total_plus = era * 146097 + doe_plus;
        if total_plus < 719469 {
            None
        } else {
            Some((((total_plus - 719469) * 86400 + hour * 3600 + min * 60 + sec)) as u64)
        }
    }
}

/// The wall-clock seconds an ISO-8601 timestamp (`YYYY-MM-DDTHH:MM:SS`,
/// any suffix ignored) denotes; malformed or pre-epoch input gives nothing.
pub fn parse_iso_to_system_time(s: &str) -> (r: Option<u64>)
    ensures
        r == spec_parse_iso(s@),
{
    let cs0 = str_chars(s);
    let t = trim_chars(cs0.as_slice());
    if t.len() < 19 {
        return None;
    }
    if !(t[4] == '-' && t[7] == '-' && t[10] == 'T' && t[13] == ':' && t[16] == ':') {
        return None;
    }
    let year_v = crate::strutil::slice_range(t.as_slice(), 0, 4);
    let month_v = crate::strutil::slice_range(t.as_slice(), 5, 7);
    let day_v = crate::strutil::slice_range(t.as_slice(), 8, 10);
    let hour_v = crate::strutil::slice_range(t.as_slice(), 11, 13);
    let min_v = crate::strutil::slice_range(t.as_slice(), 14, 16);
    let sec_v = crate::strutil::slice_range(t.as_slice(), 17, 19);
    let year = match parse_u64(year_v.as_slice()) {
        Some(v) => v,
        None => {
            return None;
        },
    };
    let month = match parse_u64(month_v.as_slice()) {
        Some(v) => v,
        None => {
            return None;
        },
    };
    let day = match parse_u64(day_v.as_slice()) {
        Some(v) => v,
        None => {
            return None;
        },
    };
    let hour = match parse_u64(hour_v.as_slice()) {
        Some(v) => v,
        None => {
            return None;
        },
    };
    let min = match parse_u64(min_v.as_slice()) {
        Some(v) => v,
        None => {
            return None;
        },
    };
    let sec = match parse_u64(sec_v.as_slice()) {
        Some(v) => v,
        None => {
            return None;
        },
    };
    proof {
        lemma_parse_width(t@.subrange(0, 4), year, 4);
        lemma_parse_width(t@.subrange(5, 7), month, 2);
        lemma_parse_width(t@.subrange(8, 10), day, 2);
        lemma_parse_width(t@.subrange(11, 13), hour, 2);
        lemma_parse_width(t@.subrange(14, 16), min, 2);
        lemma_parse_width(t@.subrange(17, 19), sec, 2);
    }
    civil_to_secs(year, month, day, hour, min, sec)
}

/// A parsed field at most four digits wide stays below ten thousand.
proof fn lemma_parse_width(s: Seq<char>, v: u64, w: int)
    requires
        spec_parse_u64(s) == Some(v),
        s.len() <= w,
        1 <= w <= 4,
    ensures
        w == 1 ==> v <= 9,
        w == 2 ==> v <= 99,
        w == 3 ==> v <= 999,
        w == 4 ==> v <= 9999,
    decreases w,
{
    if s.len() <= 1 {
    } else {
        let hi = spec_parse_u64(s.take(s.len() - 1)).unwrap();
        lemma_parse_width(s.take(s.len() - 1), hi, w - 1);
    }
}

fn civil_to_secs(year: u64, month: u64, day: u64, hour: u64, min: u64, sec: u64) -> (r: Option<
    u64,
>)
    requires
        year <= 9999,
        month <= 99,
        day <= 99,
        hour <= 99,
        min <= 99,
        sec <= 99,
    ensures
        r == spec_civil_to_secs(year, month, day, hour, min, sec),
{
    if year == 0 && month <= 2 {
        return None;
    }
    let y = if month <= 2 {
        year - 1
    } else {
        year
    };
    let m = if month <= 2 {
        month + 9
    } else {
        month - 3
    };
    proof {
        assert(y / 400 <= 24) by (nonlinear_arith)
            requires
                y <= 9999,
        ;
        assert(y % 400 <= 399) by (nonlinear_arith)
            requires
                y <= 9999,
        ;
    }
    let era = y / 400;
    let yoe = y % 400;
    let doy_plus = (153 * m + 2) / 5 + day;
    proof {
        assert(yoe / 100 <= yoe * 365 + yoe / 4) by (nonlinear_arith)
            requires
                yoe <= 399,
        ;
    }
    let doe_plus = yoe * 365 + yoe / 4 - yoe / 100 + doy_plus;
    let total_plus = era * 146097 + doe_plus;
    if total_plus < 719469 {
        return None;
    }
    Some((total_plus - 719469) * 86400 + hour * 3600 + min * 60 + sec)
}

/// When a record was completed: the stored completion timestamp from the
/// unmodeled metadata when it parses, else the record file's modification
/// time as the caller read it (nothing when the caller could not read it
/// either).
pub fn task_completed_time(task: &Task, mtime_secs: Option<u64>) -> (r: Option<u64>)
    ensures
        r == (match spec_meta_lookup(task@.meta_extra, "completedAt"@) {
            Some(v) => match spec_parse_iso(v) {
                Some(t) => Some(t),
                None => mtime_secs,
            },
            None => mtime_secs,
        }),
{
    let ghost mv = task@.meta_extra;
    let mut i: usize = 0;
    while i < task.meta_extra.len()
        invariant
            i <= task.meta_extra@.len(),
            mv == task@.meta_extra,
            mv.len() == task.meta_extra@.len(),
            spec_meta_lookup(mv, "completedAt"@) == spec_meta_lookup_from(mv, "completedAt"@, i as int),
        decreases task.meta_extra@.len() - i,
    {
        proof {
            assert(mv[i as int] == (task.meta_extra@[i as int].0@, task.meta_extra@[i as int].1@));
        }
        let (k, v) = &task.meta_extra[i];
        if crate::strutil::str_eq(k.as_str(), "completedAt") {
            match v {
                crate::record::MetaVal::Text(t) => {
                    match parse_iso_to_system_time(t.as_str()) {
                        Some(secs) => {
                            return Some(secs);
                        },
                        None => {
                            return mtime_secs;
                        },
                    }
                },
                crate::record::MetaVal::Json(_) => {
                    return mtime_secs;
                },
            }
        }
        i = i + 1;
    }
    mtime_secs
}

/// Whether a completed record is old enough for the pruning pass to archive
/// it: its completion moment is known and at least the given number of days
/// in the past.
pub fn should_auto_archive(completed_secs: Option<u64>, now_secs: u64, days: u64) -> (r: bool)
    requires
        days < 0x1_0000_0000,
    ensures
        r == (completed_secs matches Some(t) && t <= now_secs && now_secs - t >= days * 86400),
{
    match completed_secs {
        Some(t) => t <= now_secs && now_secs - t >= days * 86400,
        None => false,
    }
}

/// The first unmodeled metadata entry under a key, when it is a plain text
/// value.
pub open spec fn spec_meta_lookup(
    mv: Seq<(Seq<char>, crate::record::MetaValV)>,
    key: Seq<char>,
) -> Option<Seq<char>> {
    spec_meta_lookup_from(mv, key, 0)
}

pub open spec fn spec_meta_lookup_from(
    mv: Seq<(Seq<char>, crate::record::MetaValV)>,
    key: Seq<char>,
    from: int,
) -> Option<Seq<char>>
    decreases mv.len() - from,
{
    if from < 0 || from >= mv.len() {
        None
    } else if mv[from].0 == key {
        match mv[from].1 {
            crate::record::MetaValV::Text(t) => Some(t),
            crate::record::MetaValV::Json(_) => None,
        }
    } else {
        spec_meta_lookup_from(mv, key, from + 1)
    }
}

} // verus!
