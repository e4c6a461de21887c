use taskdeck::events::{cycle_actions, Action, AppEvent, EventCoordinator, Key, KeyEvent, KeyKind};
use taskdeck::events::fs_event_signals_change;
use taskdeck::filter::{filter_and_sort, SortOrder, StatusFilter};
use taskdeck::record::{Priority, Status, Task};
use taskdeck::tree::{tree_order, tree_prefix, MAX_DEPTH};
use taskdeck::ui::{App, ListState};
use taskdeck::store::Store;

fn task(id: &str, status: Status, parent: &str) -> Task {
    let mut t = Task::empty();
    t.id = id.to_string();
    t.subject = format!("task {id}");
    t.status = status;
    t.parent_id = parent.to_string();
    t
}

// --- record views (filtering and sorting) ---

#[test]
fn completed_filter_still_shows_completed_records() {
    let tasks = vec![task("1", Status::Completed, ""), task("2", Status::Pending, "")];
    let shown = filter_and_sort(&tasks, StatusFilter::Completed, SortOrder::Id, false, "");
    assert_eq!(shown.len(), 1);
    assert_eq!(shown[0].id, "1");
}

#[test]
fn unfiltered_view_hides_completed_records() {
    let tasks = vec![task("1", Status::Completed, ""), task("2", Status::Pending, "")];
    let shown = filter_and_sort(&tasks, StatusFilter::All, SortOrder::Id, false, "");
    assert_eq!(shown.len(), 1);
    assert_eq!(shown[0].id, "2");
}

#[test]
fn id_sort_is_numeric_with_unparsable_last() {
    let tasks = vec![
        task("10", Status::Pending, ""),
        task("x", Status::Pending, ""),
        task("2", Status::Pending, ""),
    ];
    let shown = filter_and_sort(&tasks, StatusFilter::All, SortOrder::Id, true, "");
    let ids: Vec<&str> = shown.iter().map(|t| t.id.as_str()).collect();
    assert_eq!(ids, vec!["2", "10", "x"]);
}

#[test]
fn priority_sort_ranks_urgent_first() {
    let mut a = task("1", Status::Pending, "");
    a.priority = Priority::Unset;
    let mut b = task("2", Status::Pending, "");
    b.priority = Priority::P1;
    let mut c = task("3", Status::Pending, "");
    c.priority = Priority::P3;
    let shown = filter_and_sort(&vec![a, b, c], StatusFilter::All, SortOrder::Priority, true, "");
    let ids: Vec<&str> = shown.iter().map(|t| t.id.as_str()).collect();
    assert_eq!(ids, vec!["2", "3", "1"]);
}

#[test]
fn search_is_case_insensitive_substring_on_subject() {
    let mut a = task("1", Status::Pending, "");
    a.subject = "Fix the Widget".to_string();
    let mut b = task("2", Status::Pending, "");
    b.subject = "Other chore".to_string();
    let shown = filter_and_sort(&vec![a, b], StatusFilter::All, SortOrder::Id, true, "WIDGET");
    assert_eq!(shown.len(), 1);
    assert_eq!(shown[0].id, "1");
}

#[test]
fn subject_sort_folds_case() {
    let mut a = task("1", Status::Pending, "");
    a.subject = "beta".to_string();
    let mut b = task("2", Status::Pending, "");
    b.subject = "Alpha".to_string();
    let shown = filter_and_sort(&vec![a, b], StatusFilter::All, SortOrder::Subject, true, "");
    let ids: Vec<&str> = shown.iter().map(|t| t.id.as_str()).collect();
    assert_eq!(ids, vec!["2", "1"]);
}

#[test]
fn equal_keys_keep_input_order() {
    let mut a = task("9", Status::Pending, "");
    a.priority = Priority::P2;
    a.subject = "first".to_string();
    let mut b = task("4", Status::Pending, "");
    b.priority = Priority::P2;
    b.subject = "second".to_string();
    let shown = filter_and_sort(&vec![a, b], StatusFilter::All, SortOrder::Priority, true, "");
    let subjects: Vec<&str> = shown.iter().map(|t| t.subject.as_str()).collect();
    assert_eq!(subjects, vec!["first", "second"]);
}

// --- the hierarchical ordering ---

#[test]
fn self_referencing_parent_is_emitted_once_as_root() {
    let rows = tree_order(&vec![task("1", Status::Pending, "1")]);
    assert_eq!(rows.len(), 1);
    assert_eq!(rows[0].task.id, "1");
    assert_eq!(rows[0].depth, 0);
}

#[test]
fn two_cycle_terminates() {
    let rows = tree_order(&vec![task("1", Status::Pending, "2"), task("2", Status::Pending, "1")]);
    // A mutual cycle has no root; the walk terminates without emitting it.
    assert!(rows.len() <= 2);
}

#[test]
fn deep_chain_stops_at_the_depth_bound() {
    let mut tasks = Vec::new();
    tasks.push(task("0", Status::Pending, ""));
    for i in 1..100u32 {
        tasks.push(task(&i.to_string(), Status::Pending, &(i - 1).to_string()));
    }
    let rows = tree_order(&tasks);
    assert!(rows.len() < 100);
    assert_eq!(rows.len() as u8, MAX_DEPTH + 1);
    for row in &rows {
        assert!(row.depth <= MAX_DEPTH);
    }
}

#[test]
fn dangling_parent_becomes_root() {
    let rows = tree_order(&vec![task("5", Status::Pending, "404")]);
    assert_eq!(rows.len(), 1);
    assert_eq!(rows[0].depth, 0);
}

#[test]
fn filtered_then_tree_scenario() {
    // Partition {1: pending, 2: completed, 3: pending with parent 1}.
    let tasks = vec![
        task("1", Status::Pending, ""),
        task("2", Status::Completed, ""),
        task("3", Status::Pending, "1"),
    ];
    // Active filter, identifier sort: exactly [1, 3] in that order.
    let shown = filter_and_sort(&tasks, StatusFilter::Active, SortOrder::Id, false, "");
    let ids: Vec<&str> = shown.iter().map(|t| t.id.as_str()).collect();
    assert_eq!(ids, vec!["1", "3"]);
    // The tree view of the unfiltered set: 3 sits beneath 1 with a
    // last-branch connector.
    let rows = tree_order(&tasks);
    let pos1 = rows.iter().position(|r| r.task.id == "1").unwrap();
    let pos3 = rows.iter().position(|r| r.task.id == "3").unwrap();
    assert_eq!(rows[pos1].depth, 0);
    assert_eq!(rows[pos3].depth, 1);
    assert!(pos3 == pos1 + 1);
    assert!(rows[pos3].is_last);
    assert!(rows[pos3].ancestor_is_last.is_empty());
    assert!(!rows[pos1].is_last, "another root follows");
    let last_root = rows.iter().position(|r| r.task.id == "2").unwrap();
    assert!(rows[last_root].is_last, "the final root is the last sibling");
    let prefix = tree_prefix(&rows[pos3]);
    assert!(prefix.contains('\u{2514}'), "expected a last-branch connector, got {prefix:?}");
    assert_eq!(tree_prefix(&rows[pos1]), "");
}

// --- event coordination ---

fn press(c: char) -> AppEvent {
    AppEvent::Terminal(KeyEvent::press(Key::Char(c)))
}

#[test]
fn one_reload_before_keys_in_a_single_drain() {
    let mut ec = EventCoordinator::new();
    ec.push(press('j'));
    ec.push(AppEvent::FsChange);
    ec.push(press('k'));
    let drained = ec.drain();
    let actions = cycle_actions(&drained);
    assert_eq!(actions.len(), 3);
    assert_eq!(actions[0], Action::Reload);
    assert_eq!(actions[1], Action::HandleKey(KeyEvent::press(Key::Char('j'))));
    assert_eq!(actions[2], Action::HandleKey(KeyEvent::press(Key::Char('k'))));
}

#[test]
fn rapid_fs_signals_coalesce_into_one_reload() {
    let mut ec = EventCoordinator::new();
    ec.push(AppEvent::FsChange);
    ec.push(AppEvent::FsChange);
    ec.push(press('j'));
    let drained = ec.drain();
    let actions = cycle_actions(&drained);
    let reloads = actions.iter().filter(|a| **a == Action::Reload).count();
    assert_eq!(reloads, 1);
    assert_eq!(actions[0], Action::Reload);
    assert_eq!(actions.len(), 2);
}

#[test]
fn releases_and_repeats_are_dropped() {
    let mut ec = EventCoordinator::new();
    ec.push(AppEvent::Terminal(KeyEvent { key: Key::Char('j'), ctrl: false, kind: KeyKind::Release }));
    ec.push(AppEvent::Terminal(KeyEvent { key: Key::Char('k'), ctrl: false, kind: KeyKind::Repeat }));
    ec.push(press('x'));
    let drained = ec.drain();
    assert!(!drained.reload);
    assert_eq!(drained.keys.len(), 1);
    assert_eq!(drained.keys[0].key, Key::Char('x'));
}

#[test]
fn drain_empties_the_queue() {
    let mut ec = EventCoordinator::new();
    ec.push(AppEvent::FsChange);
    let _ = ec.drain();
    let second = ec.drain();
    assert!(!second.reload);
    assert!(second.keys.is_empty());
}

#[test]
fn watcher_ignores_temporary_write_artifacts() {
    // A record file changing signals a reload.
    assert!(fs_event_signals_change(&vec!["/data/tasks/list/7.json".to_string()]));
    // The staged atomic-write intermediate does not.
    let tmp = format!("/data/tasks/list/{}", taskdeck::store::tmp_file_name(10, 20));
    assert!(!fs_event_signals_change(&vec![tmp]));
    // Unrelated files do not.
    assert!(!fs_event_signals_change(&vec!["/data/tasks/list/notes.txt".to_string()]));
}

// --- the interactive state machine ---

fn app_with(tasks: Vec<Task>) -> App {
    let store = Store::with_base("/tmp/tasks".to_string());
    App::new(store, Vec::new(), tasks, "list".to_string())
}

#[test]
fn quit_key_sets_the_quit_flag() {
    let mut app = app_with(vec![task("1", Status::Pending, "")]);
    app.handle_key(KeyEvent::press(Key::Char('q')));
    assert!(app.should_quit);
}

#[test]
fn selection_moves_and_stops_at_the_edges() {
    let mut app = app_with(vec![task("1", Status::Pending, ""), task("2", Status::Pending, "")]);
    assert_eq!(app.list.selected, Some(0));
    app.handle_key(KeyEvent::press(Key::Char('j')));
    assert_eq!(app.list.selected, Some(1));
    app.handle_key(KeyEvent::press(Key::Char('j')));
    assert_eq!(app.list.selected, Some(1));
    app.handle_key(KeyEvent::press(Key::Char('k')));
    assert_eq!(app.list.selected, Some(0));
}

#[test]
fn quick_status_queues_a_store_command() {
    let mut app = app_with(vec![task("1", Status::Pending, "")]);
    app.handle_key(KeyEvent::press(Key::Char('d')));
    assert_eq!(app.commands.len(), 1);
    match &app.commands[0] {
        taskdeck::ui::Command::SetStatus { task_id, status } => {
            assert_eq!(task_id, "1");
            assert_eq!(status.as_str(), "completed");
        }
        _ => panic!("expected a status change"),
    }
}

#[test]
fn reload_restores_selection_by_identifier() {
    let mut app = app_with(vec![task("1", Status::Pending, ""), task("2", Status::Pending, "")]);
    app.handle_key(KeyEvent::press(Key::Char('j')));
    assert_eq!(app.list.selected, Some(1));
    // A fresh listing arrives with an extra record in front.
    app.reload_tasks(vec![
        task("0", Status::Pending, ""),
        task("1", Status::Pending, ""),
        task("2", Status::Pending, ""),
    ]);
    let sel = app.list.selected.unwrap();
    assert_eq!(app.list.filtered[sel].id, "2");
}

#[test]
fn list_state_search_narrows_rows() {
    let mut a = task("1", Status::Pending, "");
    a.subject = "alpha".to_string();
    let mut b = task("2", Status::Pending, "");
    b.subject = "beta".to_string();
    let mut ls = ListState::new(vec![a, b]);
    ls.query = "bet".to_string();
    ls.rebuild();
    assert_eq!(ls.filtered.len(), 1);
    assert_eq!(ls.filtered[0].id, "2");
}

// --- project summaries ---

#[test]
fn project_lookup_by_slug() {
    let mut a = task("1", Status::Pending, "");
    a.project = "/src/widgets.git/wt1".to_string();
    let mut b = task("2", Status::Completed, "");
    b.project = "/src/other".to_string();
    let tasks = vec![a, b];
    assert_eq!(
        taskdeck::plans::find_project_path(&tasks, "widgets-wt1").as_deref(),
        Some("/src/widgets.git/wt1")
    );
    assert_eq!(taskdeck::plans::find_project_path(&tasks, "nothing"), None);
}

#[test]
fn status_counts_per_state() {
    let tasks = vec![
        task("1", Status::Pending, ""),
        task("2", Status::Pending, ""),
        task("3", Status::InProgress, ""),
        task("4", Status::Completed, ""),
        task("5", Status::Other("blocked".to_string()), ""),
    ];
    assert_eq!(taskdeck::plans::status_counts(&tasks), (2, 1, 1));
}

#[test]
fn sizes_and_dates_format_humanly() {
    assert_eq!(taskdeck::plans::format_size(512), "512B");
    assert_eq!(taskdeck::plans::format_size(2048), "2.0K");
    assert_eq!(taskdeck::plans::format_size(3 * 1024 * 1024), "3.0M");
    // 2024-01-02, shown against a moment in the same year.
    let t = taskdeck::store::parse_iso_to_system_time("2024-01-02T05:00:00Z").unwrap();
    let now = taskdeck::store::parse_iso_to_system_time("2024-07-01T00:00:00Z").unwrap();
    assert_eq!(taskdeck::plans::format_date(t, now), "Jan 02");
    // And against a later year.
    let later = taskdeck::store::parse_iso_to_system_time("2025-07-01T00:00:00Z").unwrap();
    assert_eq!(taskdeck::plans::format_date(t, later), "Jan 2024");
}

#[test]
fn frontmatter_titles_plans() {
    let (title, project) = taskdeck::plans::extract_frontmatter_from_str(
        "---\ntopic: A big rework\nproject: /src/widgets\n---\nbody\n",
    );
    assert_eq!(title, "A big rework");
    assert_eq!(project, "/src/widgets");
    let (heading, none) =
        taskdeck::plans::extract_frontmatter_from_str("# Heading title\nrest\n");
    assert_eq!(heading, "Heading title");
    assert_eq!(none, "");
}
