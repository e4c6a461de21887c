use taskdeck::codec::RecordDoc;
use taskdeck::gitlog::{extract_filename, parse_commit_log};
use taskdeck::json::{load_record, save_record};
use taskdeck::record::{MetaVal, Priority, Status, Task};
use taskdeck::store::{
    is_uuid, max_numeric_id, next_id_value, parse_iso_to_system_time, should_prune_list,
    tmp_file_name, Store,
};

fn contains(c: &[String], s: &str) -> bool {
    c.iter().any(|x| x == s)
}

// --- commit log parsing ---

#[test]
fn parser_normal_commits() {
    let output = "abc123\nfoo.rs\nbar.rs\n\ndef456\nbaz.rs\n";
    let commits = parse_commit_log(output);
    assert_eq!(commits.len(), 2);
    assert!(contains(&commits[0], "foo.rs"));
    assert!(contains(&commits[0], "bar.rs"));
    assert!(contains(&commits[1], "baz.rs"));
}

#[test]
fn parser_empty_output() {
    let commits = parse_commit_log("");
    assert!(commits.is_empty());
}

#[test]
fn parser_whitespace_only() {
    let commits = parse_commit_log("   \n  \n");
    assert!(commits.is_empty());
}

#[test]
fn parser_commit_with_no_files() {
    let output = "abc123\n\ndef456\nbaz.rs\n";
    let commits = parse_commit_log(output);
    assert_eq!(commits.len(), 1);
    assert!(contains(&commits[0], "baz.rs"));
}

#[test]
fn parser_single_commit_no_trailing_newline() {
    let output = "abc123\nonly.rs";
    let commits = parse_commit_log(output);
    assert_eq!(commits.len(), 1);
    assert!(contains(&commits[0], "only.rs"));
}

#[test]
fn diff_header_gives_file_name() {
    assert_eq!(extract_filename("diff --git a/src/x.rs b/src/x.rs"), "src/x.rs");
    assert_eq!(extract_filename("nonsense"), "<unknown>");
}

// --- timestamps ---

#[test]
fn parse_iso_known_timestamp() {
    let secs = parse_iso_to_system_time("2024-01-01T00:00:00Z").unwrap();
    assert_eq!(secs, 1704067200);
}

#[test]
fn parse_iso_with_milliseconds() {
    let secs = parse_iso_to_system_time("2024-01-01T00:00:00.000Z").unwrap();
    assert_eq!(secs, 1704067200);
}

#[test]
fn parse_iso_rejects_garbage() {
    assert!(parse_iso_to_system_time("not a date").is_none());
    assert!(parse_iso_to_system_time("").is_none());
}

// --- identifier allocation ---

#[test]
fn allocation_survives_deleting_highest() {
    // Floor 7 recorded, records 1..=7 on disk; delete 7; next is still 8.
    let next = next_id_value(7, 6);
    assert_eq!(next, 8);
    // And the one after that is larger again.
    let after = next_id_value(next, 0);
    assert!(after > next);
}

#[test]
fn allocation_rebuilds_from_files_when_floor_missing() {
    // No floor file: the maximum existing identifier still wins.
    let next = next_id_value(0, 41);
    assert_eq!(next, 42);
}

#[test]
fn max_numeric_id_ignores_unparsable() {
    let mut a = Task::empty();
    a.id = "12".to_string();
    let mut b = Task::empty();
    b.id = "nope".to_string();
    let mut c = Task::empty();
    c.id = "7".to_string();
    assert_eq!(max_numeric_id(&vec![a, b, c]), 12);
}

// --- partitions ---

#[test]
fn uuid_shape_heuristic() {
    assert!(is_uuid("a1b2c3d4-e5f6-7890-abcd-ef1234567890"));
    assert!(!is_uuid("my-project"));
    assert!(!is_uuid("aaaaaaaaaaaaaaaaaaaaaaaaaaaaaaaaaaa"));
}

#[test]
fn prune_spares_named_and_occupied_partitions() {
    assert!(should_prune_list("a1b2c3d4-e5f6-7890-abcd-ef1234567890", false, false));
    assert!(!should_prune_list("a1b2c3d4-e5f6-7890-abcd-ef1234567890", true, false));
    assert!(!should_prune_list("a1b2c3d4-e5f6-7890-abcd-ef1234567890", false, true));
    assert!(!should_prune_list("my-project", false, false));
}

#[test]
fn store_paths_are_laid_out_under_the_base() {
    let store = Store::with_base("/data/tasks".to_string());
    assert_eq!(store.tasks_base(), "/data/tasks");
    assert_eq!(store.task_file_path("list", "7"), "/data/tasks/list/7.json");
    assert_eq!(store.hwm_file_path("list"), "/data/tasks/list/.highwatermark");
    assert_eq!(store.archive_file_path("list", "7"), "/data/tasks/list/archive/7.json");
}

#[test]
fn tmp_names_carry_the_reserved_prefix() {
    let name = tmp_file_name(421, 99887766);
    assert!(name.starts_with(".tmp-"));
    assert_eq!(name, ".tmp-421-99887766");
}

// --- the record codec and the stored JSON ---

fn sample_task() -> Task {
    let mut t = Task::empty();
    t.id = "7".to_string();
    t.subject = "Fix the widget".to_string();
    t.description = "It wobbles.".to_string();
    t.active_form = "Fixing the widget".to_string();
    t.status = Status::InProgress;
    t.owner = "someone".to_string();
    t.blocks = vec!["9".to_string()];
    t.blocked_by = vec!["3".to_string(), "4".to_string()];
    t.priority = Priority::P1;
    t.task_type = "bug".to_string();
    t.parent_id = "2".to_string();
    t.branch = "fix/widget".to_string();
    t.status_detail = "half done".to_string();
    t.project = "/src/widgets".to_string();
    t.plan_file = "/plans/widget.md".to_string();
    t.spec_file = "".to_string();
    t.slug = "fix-widget".to_string();
    t.extra = vec![("created".to_string(), "\"2024-01-01\"".to_string())];
    t.meta_extra = vec![
        ("completedAt".to_string(), MetaVal::Text("2024-06-01T10:00:00Z".to_string())),
        ("weight".to_string(), MetaVal::Json("42".to_string())),
    ];
    t
}

fn assert_tasks_equal(a: &Task, b: &Task) {
    assert_eq!(a.id, b.id);
    assert_eq!(a.subject, b.subject);
    assert_eq!(a.description, b.description);
    assert_eq!(a.active_form, b.active_form);
    assert_eq!(a.status.as_str(), b.status.as_str());
    assert_eq!(a.owner, b.owner);
    assert_eq!(a.blocks, b.blocks);
    assert_eq!(a.blocked_by, b.blocked_by);
    assert_eq!(a.priority.as_str(), b.priority.as_str());
    assert_eq!(a.task_type, b.task_type);
    assert_eq!(a.parent_id, b.parent_id);
    assert_eq!(a.branch, b.branch);
    assert_eq!(a.status_detail, b.status_detail);
    assert_eq!(a.project, b.project);
    assert_eq!(a.plan_file, b.plan_file);
    assert_eq!(a.spec_file, b.spec_file);
    assert_eq!(a.slug, b.slug);
}

#[test]
fn record_document_round_trip() {
    let t = sample_task();
    let doc = RecordDoc::doc_of_task(&t);
    let back = doc.task_of_doc();
    assert_tasks_equal(&t, &back);
    assert_eq!(back.extra.len(), 1);
    assert_eq!(back.extra[0].0, "created");
}

#[test]
fn saved_record_loads_back_identically() {
    let t = sample_task();
    let text = save_record(&t);
    let back = load_record(&text).expect("saved text must load");
    assert_tasks_equal(&t, &back);
    // The unmodeled payload survives the full trip through the stored JSON.
    assert_eq!(back.extra.len(), 1);
    assert_eq!(back.extra[0].0, "created");
    assert_eq!(back.meta_extra.len(), 2);
    assert_eq!(back.meta_extra[0].0, "completedAt");
    match &back.meta_extra[0].1 {
        MetaVal::Text(s) => assert_eq!(s, "2024-06-01T10:00:00Z"),
        MetaVal::Json(_) => panic!("completedAt should stay a text value"),
    }
    assert_eq!(back.meta_extra[1].0, "weight");
    match &back.meta_extra[1].1 {
        MetaVal::Json(s) => assert_eq!(s, "42"),
        MetaVal::Text(_) => panic!("weight should stay an opaque value"),
    }
}

#[test]
fn malformed_record_text_is_skipped() {
    assert!(load_record("{ not json").is_none());
    assert!(load_record("[1, 2, 3]").is_none());
}

#[test]
fn cleared_marker_removes_metadata_field() {
    let mut t = sample_task();
    t.task_type = "--".to_string();
    let text = save_record(&t);
    let back = load_record(&text).unwrap();
    assert_eq!(back.task_type, "");
}

#[test]
fn task_completed_time_prefers_metadata() {
    let t = sample_task();
    // Even with a file time supplied, the stored timestamp wins.
    let secs = taskdeck::store::task_completed_time(&t, Some(42)).unwrap();
    assert_eq!(secs, 1717236000);
}

#[test]
fn task_completed_time_falls_back_to_mtime() {
    let mut t = sample_task();
    t.meta_extra.clear();
    assert_eq!(taskdeck::store::task_completed_time(&t, Some(99)), Some(99));
    assert_eq!(taskdeck::store::task_completed_time(&t, None), None);
    // An unparseable stored timestamp also falls back.
    t.meta_extra.push(("completedAt".to_string(), MetaVal::Text("not a date".to_string())));
    assert_eq!(taskdeck::store::task_completed_time(&t, Some(7)), Some(7));
}

#[test]
fn auto_archive_needs_age_and_a_known_completion() {
    let should_auto_archive = taskdeck::store::should_auto_archive;
    let now = 100 * 86400;
    assert!(should_auto_archive(Some(10 * 86400), now, 30));
    assert!(!should_auto_archive(Some(90 * 86400), now, 30));
    assert!(!should_auto_archive(None, now, 30));
    // Exactly at the threshold counts as old enough.
    assert!(should_auto_archive(Some(70 * 86400), now, 30));
}

// --- editor drafts ---

#[test]
fn draft_round_trip_preserves_fields() {
    let t = sample_task();
    let draft = taskdeck::editor::marshal_task(&t);
    assert!(draft.starts_with("Subject: Fix the widget\n"));
    assert!(draft.contains("## Metadata"));
    assert!(draft.contains("priority: P1"));
    let back = taskdeck::editor::unmarshal_task(&draft, &t).expect("draft must parse");
    assert_tasks_equal(&t, &back);
}

#[test]
fn draft_metadata_is_sorted_and_skips_nulls() {
    let mut t = sample_task();
    t.meta_extra = vec![
        ("aaa".to_string(), MetaVal::Text("first".to_string())),
        ("zzz".to_string(), MetaVal::Json("null".to_string())),
    ];
    let draft = taskdeck::editor::marshal_task(&t);
    // All metadata keys stand in one sorted order: 'aaa' before 'branch'.
    let aaa = draft.find("aaa: first").expect("unmodeled key shown");
    let branch = draft.find("branch: fix/widget").expect("typed key shown");
    assert!(aaa < branch, "metadata keys must be sorted together");
    // A null value is not shown at all.
    assert!(!draft.contains("zzz"));
    assert!(!draft.contains("null"));
}

#[test]
fn settings_document_names_the_partition() {
    let text = "{\"env\": {\"TASKDECK_LIST_ID\": \"work\"}}";
    assert_eq!(taskdeck::json::settings_list_id(text).as_deref(), Some("work"));
    assert_eq!(taskdeck::json::settings_list_id("{}"), None);
    assert_eq!(taskdeck::json::settings_list_id("not json"), None);
}

#[test]
fn draft_without_subject_is_rejected() {
    let t = sample_task();
    let r = taskdeck::editor::unmarshal_task("## Description\njust text\n", &t);
    assert!(r.is_err());
}

#[test]
fn draft_edits_apply_over_original() {
    let t = sample_task();
    let draft = "Subject: New subject\nStatus: completed\n\n## Metadata\npriority: --\nbranch: other\n\n## Description\nNew body\n";
    let back = taskdeck::editor::unmarshal_task(draft, &t).unwrap();
    assert_eq!(back.subject, "New subject");
    assert_eq!(back.status.as_str(), "completed");
    assert_eq!(back.priority.as_str(), "--");
    assert_eq!(back.branch, "other");
    assert_eq!(back.description, "New body");
}
