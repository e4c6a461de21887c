use taskdeck::json::parse_hook;
use taskdeck::notify::{
    build_focus_command, cache_path_in, default_icon, expand_tilde, icon_filename, id_file_for,
    map_notification_type, parse_hex_color, parse_lsappinfo_name, sanitize_session,
    shell_escape, sound_file_for_type,
};

// --- notification type mapping ---

#[test]
fn map_permission_prompt() {
    let m = map_notification_type(Some("permission_prompt"));
    assert_eq!(m.sound, "Frog");
    assert_eq!(m.symbol, "lock");
    assert_eq!(m.message, "Permission required");
    assert_eq!(m.color, "#e74c3c");
}

#[test]
fn map_idle_prompt() {
    let m = map_notification_type(Some("idle_prompt"));
    assert_eq!(m.sound, "Frog");
    assert_eq!(m.symbol, "chat");
    assert_eq!(m.message, "Finished, waiting for your input");
    assert_eq!(m.color, "#3498db");
}

#[test]
fn map_elicitation_dialog() {
    let m = map_notification_type(Some("elicitation_dialog"));
    assert_eq!(m.sound, "Frog");
    assert_eq!(m.symbol, "question");
    assert_eq!(m.message, "I have some questions for you");
    assert_eq!(m.color, "#f39c12");
}

#[test]
fn map_unknown_type_falls_through_to_hero() {
    let m = map_notification_type(Some("something_else"));
    assert_eq!(m.sound, "Hero");
    assert_eq!(m.symbol, "check");
    assert_eq!(m.message, "Ready");
    assert_eq!(m.color, "#2ecc71");
}

#[test]
fn map_none_type_falls_through_to_hero() {
    let m = map_notification_type(None);
    assert_eq!(m.sound, "Hero");
    assert_eq!(m.symbol, "check");
    assert_eq!(m.message, "Ready");
    assert_eq!(m.color, "#2ecc71");
}

#[test]
fn each_type_has_distinct_color() {
    let types = [
        map_notification_type(Some("permission_prompt")),
        map_notification_type(Some("idle_prompt")),
        map_notification_type(Some("elicitation_dialog")),
        map_notification_type(None),
    ];
    let colors: Vec<&str> = types.iter().map(|m| m.color).collect();
    for (i, c1) in colors.iter().enumerate() {
        for c2 in &colors[i + 1..] {
            assert_ne!(c1, c2, "notification types should have distinct colors");
        }
    }
}

// --- hook payload parsing ---

#[test]
fn parse_hook_idle_prompt() {
    let json = r#"{"notification_type":"idle_prompt","title":"Deck","message":"Done"}"#;
    let (title, message, ntype) = parse_hook(json).unwrap();
    assert_eq!(title.as_deref(), Some("Deck"));
    assert_eq!(message.as_deref(), Some("Done"));
    assert_eq!(ntype.as_deref(), Some("idle_prompt"));
}

#[test]
fn parse_hook_missing_fields_gives_none() {
    let json = r#"{}"#;
    let (title, message, ntype) = parse_hook(json).unwrap();
    assert!(title.is_none());
    assert!(message.is_none());
    assert!(ntype.is_none());
}

#[test]
fn parse_hook_invalid_json_returns_err() {
    let result = parse_hook("not json");
    assert!(result.is_err());
}

// --- sounds ---

#[test]
fn permission_prompt_maps_to_dialog_warning() {
    assert_eq!(
        sound_file_for_type(Some("permission_prompt")),
        "/usr/share/sounds/freedesktop/stereo/dialog-warning.oga"
    );
}

#[test]
fn idle_prompt_maps_to_dialog_warning() {
    assert_eq!(
        sound_file_for_type(Some("idle_prompt")),
        "/usr/share/sounds/freedesktop/stereo/dialog-warning.oga"
    );
}

#[test]
fn elicitation_dialog_maps_to_dialog_warning() {
    assert_eq!(
        sound_file_for_type(Some("elicitation_dialog")),
        "/usr/share/sounds/freedesktop/stereo/dialog-warning.oga"
    );
}

#[test]
fn unknown_type_maps_to_complete() {
    assert_eq!(
        sound_file_for_type(Some("something_else")),
        "/usr/share/sounds/freedesktop/stereo/complete.oga"
    );
}

#[test]
fn none_type_maps_to_complete() {
    assert_eq!(
        sound_file_for_type(None),
        "/usr/share/sounds/freedesktop/stereo/complete.oga"
    );
}

// --- icon names ---

#[test]
fn sanitize_session_keeps_safe_chars() {
    assert_eq!(sanitize_session("my-session_01"), "my-session_01");
}

#[test]
fn sanitize_session_replaces_unsafe_chars() {
    assert_eq!(sanitize_session("my.session/path"), "my_session_path");
}

#[test]
fn sanitize_session_replaces_spaces() {
    assert_eq!(sanitize_session("my session"), "my_session");
}

#[test]
fn icon_filename_strips_hash_from_color() {
    let name = icon_filename("sess", "lock", "#aabbcc");
    assert_eq!(name, "sess-lock-aabbcc.png");
    assert!(!name.contains('#'));
}

#[test]
fn icon_filename_without_hash_same_as_with() {
    assert_eq!(
        icon_filename("sess", "check", "#ff0000"),
        icon_filename("sess", "check", "ff0000"),
    );
}

#[test]
fn icon_filename_sanitizes_session_name() {
    let name = icon_filename("my.session", "check", "ff0000");
    assert_eq!(name, "my_session-check-ff0000.png");
}

#[test]
fn cache_path_in_contains_correct_filename() {
    let path = cache_path_in("/tmp/icons", "my-session", "check", "#ff0000");
    let name = std::path::Path::new(&path)
        .file_name()
        .unwrap()
        .to_string_lossy()
        .to_string();
    assert_eq!(name, "my-session-check-ff0000.png");
}

#[test]
fn cache_path_in_is_inside_given_dir() {
    let path = cache_path_in("/tmp/icons", "sess", "check", "ff0000");
    assert_eq!(
        std::path::Path::new(&path).parent().unwrap(),
        std::path::Path::new("/tmp/icons")
    );
}

#[test]
fn parse_hex_color_valid() {
    assert_eq!(parse_hex_color("#ff8040"), Some((255, 128, 64)));
    assert_eq!(parse_hex_color("ff8040"), Some((255, 128, 64)));
}

#[test]
fn parse_hex_color_invalid_length() {
    assert_eq!(parse_hex_color("#fff"), None);
    assert_eq!(parse_hex_color(""), None);
}

#[test]
fn parse_hex_color_invalid_chars() {
    assert_eq!(parse_hex_color("zzzzzz"), None);
}

// --- shell and paths ---

#[test]
fn shell_escape_plain_string_unchanged() {
    assert_eq!(shell_escape("hello world"), "hello world");
}

#[test]
fn shell_escape_single_quotes() {
    assert_eq!(shell_escape("it's"), "it'\\''s");
}

#[test]
fn id_file_path_uses_sanitized_session() {
    let path = id_file_for("my.session/name");
    assert_eq!(path, "/tmp/ct-notify-my_session_name.id");
}

#[test]
fn default_icon_is_absolute() {
    let icon = default_icon("/home/someone");
    assert!(icon.starts_with('/'), "icon path should be absolute: {icon:?}");
    assert_eq!(icon, "/home/someone/.taskdeck/badge.png");
}

#[test]
fn expand_tilde_expands_home() {
    let path = expand_tilde("~/.taskdeck/test", "/home/someone");
    assert!(!path.starts_with('~'), "tilde should be expanded: {path:?}");
    assert!(path.ends_with("/.taskdeck/test"), "suffix should be preserved: {path:?}");
}

#[test]
fn expand_tilde_leaves_absolute_paths() {
    assert_eq!(expand_tilde("/usr/bin/test", "/home/someone"), "/usr/bin/test");
}

// --- app-info parsing and the focus command ---

#[test]
fn parse_lsappinfo_name_extracts_quoted_value() {
    let output = "\nLSAppInfoItem 0x600003744540 \"com.mitchellh.ghostty\" (Ghostty)\n\"name\"=\"Ghostty\" \"pid\"=1234\n";
    assert_eq!(parse_lsappinfo_name(output).as_deref(), Some("Ghostty"));
}

#[test]
fn parse_lsappinfo_name_returns_none_for_unrecognized_format() {
    let output = "no equals sign here\n";
    assert_eq!(parse_lsappinfo_name(output), None);
}

#[test]
fn parse_lsappinfo_name_returns_none_for_empty() {
    assert_eq!(parse_lsappinfo_name(""), None);
}

#[test]
fn parse_lsappinfo_name_handles_unquoted_value() {
    let output = "\"name\"=Ghostty\n";
    assert_eq!(parse_lsappinfo_name(output), None);
}

#[test]
fn build_focus_command_contains_session_name() {
    let cmd = build_focus_command("my-session", "/usr/local/bin/tmux", "/usr/local/bin/grrr");
    assert!(cmd.contains("deck-my-session"));
    assert!(cmd.contains("switch-client"));
    assert!(cmd.contains("open -a Ghostty"));
}
