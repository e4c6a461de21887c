use taskdeck::artifact::project_name;
use taskdeck::phases::{parse_phases, to_json, Phase, Task};
use taskdeck::slug::{slug, MAX_SLUG_LEN};

// --- slug ---

#[test]
fn basic_slug() {
    assert_eq!(slug("refactor the auth module"), "refactor-auth-module");
}

#[test]
fn strips_articles_and_filler() {
    assert_eq!(slug("add a new feature for the users"), "add-new-feature-users");
}

#[test]
fn handles_special_chars() {
    assert_eq!(slug("fix: handle token expiry!"), "fix-handle-token-expiry");
}

#[test]
fn truncates_on_word_boundary() {
    let long = "implement comprehensive authentication system with oauth2 and jwt token management for microservices";
    let result = slug(long);
    assert!(result.len() <= MAX_SLUG_LEN);
    assert!(!result.ends_with('-'));
}

#[test]
fn empty_input() {
    assert_eq!(slug(""), "");
}

#[test]
fn only_filler_words() {
    assert_eq!(slug("a the and or"), "");
}

#[test]
fn unquoted_args_same_as_quoted() {
    assert_eq!(slug("refactor auth module"), slug("refactor auth module"));
}

// --- project naming ---

#[test]
fn worktree_path_gets_repo_prefix() {
    assert_eq!(project_name("/Users/me/src/repo.git/wt1"), "repo-wt1");
    assert_eq!(project_name("/Users/me/src/repo.git/wt2"), "repo-wt2");
}

#[test]
fn bare_git_dir_uses_stem() {
    assert_eq!(project_name("/Users/me/src/repo.git"), "repo");
}

#[test]
fn nested_worktree_joins_all_segments() {
    assert_eq!(project_name("/Users/me/src/mono.git/apps/web"), "mono-apps-web");
}

#[test]
fn normal_path_uses_last_component() {
    assert_eq!(project_name("/Users/me/src/myapp/src/core"), "core");
}

#[test]
fn main_worktree_path_gets_repo_prefix() {
    assert_eq!(project_name("/Users/me/src/arc.git/wt1"), "arc-wt1");
    assert_eq!(project_name("/Users/me/src/arc.git/wt2"), "arc-wt2");
}

#[test]
fn main_bare_git_dir_uses_stem() {
    assert_eq!(project_name("/Users/me/src/arc.git"), "arc");
}

#[test]
fn main_nested_worktree_joins_all_segments() {
    assert_eq!(project_name("/Users/me/src/mono.git/apps/web"), "mono-apps-web");
}

#[test]
fn main_normal_path_uses_last_component() {
    assert_eq!(project_name("/Users/me/src/myapp/src/core"), "core");
}

#[test]
fn planfile_worktree_path_gets_repo_prefix() {
    assert_eq!(project_name("/Users/me/src/repo.git/wt1"), "repo-wt1");
}

#[test]
fn planfile_bare_git_dir_uses_stem() {
    assert_eq!(project_name("/Users/me/src/repo.git"), "repo");
}

#[test]
fn planfile_nested_worktree_joins_all_segments() {
    assert_eq!(project_name("/Users/me/src/mono.git/apps/web"), "mono-apps-web");
}

#[test]
fn planfile_normal_path_uses_last_component() {
    assert_eq!(project_name("/Users/me/src/myapp/src/core"), "core");
}

// --- phases ---

fn phase_titles(phases: &[Phase]) -> Vec<&str> {
    phases.iter().map(|p| p.title.as_str()).collect()
}

fn task_eq(t: &Task, text: &str, subs: &[&str]) -> bool {
    t.text == text && t.sub_tasks.len() == subs.len()
        && t.sub_tasks.iter().zip(subs.iter()).all(|(a, b)| a == b)
}

#[test]
fn empty_input_returns_no_phases() {
    assert!(parse_phases("").is_empty());
}

#[test]
fn heading_style_phase_markers_parsed() {
    let input = "### Phase 1: Setup\n1. Install deps\n\n### Phase 2: Build\n1. Run build";
    let phases = parse_phases(input);
    assert_eq!(phase_titles(&phases), vec!["Setup", "Build"]);
    assert!(task_eq(&phases[0].tasks[0], "Install deps", &[]));
    assert!(task_eq(&phases[1].tasks[0], "Run build", &[]));
}

#[test]
fn bold_style_phase_markers_parsed() {
    let input = "**Phase 1: Alpha**\n1. Step one\n\n**Phase 2: Beta**\n1. Step two";
    let phases = parse_phases(input);
    assert_eq!(phase_titles(&phases), vec!["Alpha", "Beta"]);
}

#[test]
fn tasks_attributed_to_correct_phase() {
    let input = "### Phase 1: First\n1. task-a\n1. task-b\n\n### Phase 2: Second\n1. task-c";
    let phases = parse_phases(input);
    assert_eq!(phases[0].tasks.len(), 2);
    assert!(task_eq(&phases[0].tasks[0], "task-a", &[]));
    assert!(task_eq(&phases[0].tasks[1], "task-b", &[]));
    assert_eq!(phases[1].tasks.len(), 1);
    assert!(task_eq(&phases[1].tasks[0], "task-c", &[]));
}

#[test]
fn first_phase_has_no_deps() {
    let input = "### Phase 1: Only\n1. do it";
    let phases = parse_phases(input);
    assert!(phases[0].deps.is_empty());
}

#[test]
fn sequential_phases_get_predecessor_dep() {
    let input = "### Phase 1: A\n1. first\n\n### Phase 2: B\n1. second\n\n### Phase 3: C\n1. third";
    let phases = parse_phases(input);
    assert!(phases[0].deps.is_empty());
    assert_eq!(phases[1].deps, vec![1]);
    assert_eq!(phases[2].deps, vec![2]);
}

#[test]
fn independent_phrase_clears_dep() {
    let input = "### Phase 1: A\n1. first\n\n### Phase 2: B — independent of phase 1\n1. second";
    let phases = parse_phases(input);
    assert!(phases[1].deps.is_empty());
}

#[test]
fn frontmatter_stripped_before_parsing() {
    let input = "---\ntopic: test\n---\n### Phase 1: Real\n1. actual task";
    let phases = parse_phases(input);
    assert_eq!(phases.len(), 1);
    assert_eq!(phases[0].title, "Real");
}

#[test]
fn sub_items_nested_under_parent_task() {
    let input = "### Phase 1: Setup\n1. Install deps\n  - use npm\n  - check versions";
    let phases = parse_phases(input);
    assert_eq!(phases[0].tasks.len(), 1);
    assert!(task_eq(&phases[0].tasks[0], "Install deps", &["use npm", "check versions"]));
}

#[test]
fn task_with_no_sub_items_has_empty_sub_tasks() {
    let input = "### Phase 1: Setup\n1. Install deps\n1. Run build";
    let phases = parse_phases(input);
    assert_eq!(phases[0].tasks.len(), 2);
    assert!(task_eq(&phases[0].tasks[0], "Install deps", &[]));
    assert!(task_eq(&phases[0].tasks[1], "Run build", &[]));
    assert!(phases[0].tasks[0].sub_tasks.is_empty());
    assert!(phases[0].tasks[1].sub_tasks.is_empty());
}

#[test]
fn single_sub_item_nested() {
    let input = "### Phase 1: Setup\n1. Install deps\n  - use npm";
    let phases = parse_phases(input);
    assert!(task_eq(&phases[0].tasks[0], "Install deps", &["use npm"]));
}

#[test]
fn sub_items_on_multiple_tasks() {
    let input =
        "### Phase 1: Setup\n1. Install deps\n  - use npm\n1. Configure\n  - set env\n  - add secrets";
    let phases = parse_phases(input);
    assert_eq!(phases[0].tasks.len(), 2);
    assert!(task_eq(&phases[0].tasks[0], "Install deps", &["use npm"]));
    assert!(task_eq(&phases[0].tasks[1], "Configure", &["set env", "add secrets"]));
}

#[test]
fn phase_number_preserved() {
    let input = "### Phase 3: Non-sequential\n1. task";
    let phases = parse_phases(input);
    assert_eq!(phases[0].phase, 3);
}

#[test]
fn test_three_level_nesting() {
    let input = "### Phase 1: Foundation\n1. Setup database\n  - create schema\n  - add migrations\n1. Configure auth\n  - jwt setup\n  - session store\n\n### Phase 2: Features\n1. User CRUD\n  - create endpoint\n  - delete endpoint\n1. API gateway";

    let phases = parse_phases(input);

    assert_eq!(phases.len(), 2);
    assert_eq!(phases[0].title, "Foundation");
    assert_eq!(phases[1].title, "Features");

    assert_eq!(phases[0].tasks.len(), 2);
    assert_eq!(phases[1].tasks.len(), 2);

    assert_eq!(phases[0].tasks[0].text, "Setup database");
    assert_eq!(phases[0].tasks[0].sub_tasks, vec!["create schema", "add migrations"]);

    assert_eq!(phases[0].tasks[1].text, "Configure auth");
    assert_eq!(phases[0].tasks[1].sub_tasks, vec!["jwt setup", "session store"]);

    assert_eq!(phases[1].tasks[0].text, "User CRUD");
    assert_eq!(phases[1].tasks[0].sub_tasks, vec!["create endpoint", "delete endpoint"]);

    assert_eq!(phases[1].tasks[1].text, "API gateway");
    assert!(phases[1].tasks[1].sub_tasks.is_empty());

    let json = to_json(&phases);
    assert!(json.contains("\"sub_tasks\""));
    assert!(json.contains("\"create schema\""));
    assert!(json.contains("\"add migrations\""));
    assert!(json.contains("\"jwt setup\""));
    assert!(json.contains("\"session store\""));
    assert!(json.contains("\"create endpoint\""));
    assert!(json.contains("\"delete endpoint\""));
    assert!(json.contains(r#""text": "API gateway", "sub_tasks": []"#));
}

fn mk_task(text: &str, subs: &[&str]) -> Task {
    Task { text: text.to_string(), sub_tasks: subs.iter().map(|s| s.to_string()).collect() }
}

#[test]
fn to_json_emits_task_objects_with_sub_tasks() {
    let phases = vec![Phase {
        phase: 1,
        title: "Test".to_string(),
        tasks: vec![mk_task("do thing", &[]), mk_task("setup", &["install", "configure"])],
        deps: vec![],
    }];
    let json = to_json(&phases);
    assert!(json.contains(r#""text": "do thing""#));
    assert!(json.contains(r#""sub_tasks": []"#));
    assert!(json.contains(r#""text": "setup""#));
    assert!(json.contains(r#""sub_tasks": ["install", "configure"]"#));
}

#[test]
fn to_json_escapes_newlines_and_tabs() {
    let phases = vec![Phase {
        phase: 1,
        title: "Test".to_string(),
        tasks: vec![mk_task("line1\nline2", &["sub\twith\ttabs"])],
        deps: vec![],
    }];
    let json = to_json(&phases);
    assert!(json.contains(r#""text": "line1\nline2""#));
    assert!(json.contains(r#""sub\twith\ttabs""#));
    assert!(!json.contains('\n') || !json.contains("line1\nline2"));
}
