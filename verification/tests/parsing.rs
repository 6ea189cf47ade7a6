use commander_core::env::{is_secret_key, parse_env_content};
use commander_core::error::{json_escape, to_cmd_err, CommanderError};
use commander_core::github::{parse_github_repo, parse_issue_number, parse_repo_from_url};
use commander_core::identity::{compute_identity_key, remote_identity_key, stamp_identity_key};
use commander_core::models::{parse_status, AppSettings, PlanningStatus};
use commander_core::paths::path_within;
use commander_core::terminal::{
    build_launch_command, detect_terminal, launch_script, resolve_assistant_bin, shell_quote,
    urlencoding_simple, warp_launch_url,
};
use commander_core::text::{str_eq, trim_str};

// ─── errors ──────────────────────────────────────────────────────────────────

#[test]
fn error_json_wire_form() {
    assert_eq!(
        to_cmd_err(CommanderError::db("no such table".to_string())),
        r#"{"code":"DB_ERROR","details":{"reason":"no such table"}}"#
    );
    assert_eq!(
        to_cmd_err(CommanderError::internal("boom".to_string())),
        r#"{"code":"INTERNAL_ERROR","details":{"reason":"boom"}}"#
    );
    assert_eq!(
        to_cmd_err(CommanderError::FileNotFound { path: "/a/b".to_string() }),
        r#"{"code":"FILE_NOT_FOUND","details":{"path":"/a/b"}}"#
    );
    assert_eq!(
        to_cmd_err(CommanderError::io("eof".to_string())),
        r#"{"code":"IO_ERROR","details":{"reason":"eof"}}"#
    );
    assert_eq!(
        to_cmd_err(CommanderError::parse("bad".to_string())),
        r#"{"code":"PARSE_ERROR","details":{"reason":"bad"}}"#
    );
    assert_eq!(
        to_cmd_err(CommanderError::git("detached".to_string())),
        r#"{"code":"GIT_ERROR","details":{"reason":"detached"}}"#
    );
}

#[test]
fn error_reason_is_json_escaped() {
    assert_eq!(json_escape("say \"hi\"\\now"), "say \\\"hi\\\"\\\\now");
    assert_eq!(json_escape("a\nb\tc\rd"), "a\\nb\\tc\\rd");
    assert_eq!(json_escape("\u{08}\u{0C}\u{01}\u{1f}"), "\\b\\f\\u0001\\u001f");
    assert_eq!(
        to_cmd_err(CommanderError::internal("a\"b".to_string())),
        r#"{"code":"INTERNAL_ERROR","details":{"reason":"a\"b"}}"#
    );
}

// ─── env files ───────────────────────────────────────────────────────────────

#[test]
fn env_content_parses_keys_values_and_masking() {
    let content = "# comment\n\nDB_HOST=localhost\nAPI_KEY=\"s3cr3t\"\n  SPACED = padded  \nPASSWORD='hunter2'\nNOEQ\n";
    let vars = parse_env_content(content);
    assert_eq!(vars.len(), 4);
    assert_eq!(vars[0].key, "DB_HOST");
    assert_eq!(vars[0].value, "localhost");
    assert!(!vars[0].masked);
    assert_eq!(vars[1].key, "API_KEY");
    assert_eq!(vars[1].value, "s3cr3t");
    assert!(vars[1].masked);
    assert_eq!(vars[2].key, "SPACED");
    assert_eq!(vars[2].value, "padded");
    assert_eq!(vars[3].key, "PASSWORD");
    assert_eq!(vars[3].value, "hunter2");
    assert!(vars[3].masked);
}

#[test]
fn env_content_handles_crlf_and_lone_quote() {
    let vars = parse_env_content("A=1\r\nB=\"\r\n");
    assert_eq!(vars.len(), 2);
    assert_eq!(vars[0].value, "1");
    // a single quote character is not a quoted pair and stays as the value
    assert_eq!(vars[1].value, "\"");
}

#[test]
fn secret_looking_keys_are_detected_case_insensitively() {
    assert!(is_secret_key("API_KEY"));
    assert!(is_secret_key("Secret"));
    assert!(is_secret_key("db_password"));
    assert!(is_secret_key("GITHUB_TOKEN"));
    assert!(is_secret_key("AUTH0_DOMAIN"));
    assert!(is_secret_key("PRIVATE_URL"));
    assert!(is_secret_key("MY_CREDENTIALS"));
    assert!(!is_secret_key("DB_HOST"));
    assert!(!is_secret_key("PORT"));
}

// ─── github urls ─────────────────────────────────────────────────────────────

#[test]
fn github_remote_urls_parse_to_owner_repo() {
    assert_eq!(
        parse_github_repo("https://github.com/owner/repo.git"),
        Some("owner/repo".to_string())
    );
    assert_eq!(
        parse_github_repo("git@github.com:owner/repo.git"),
        Some("owner/repo".to_string())
    );
    assert_eq!(
        parse_github_repo("  https://github.com/owner/repo/  "),
        Some("owner/repo".to_string())
    );
    assert_eq!(parse_github_repo("https://gitlab.com/owner/repo"), None);
    assert_eq!(parse_github_repo("https://github.com/owneronly"), None);
    assert_eq!(parse_github_repo("https://github.com//repo"), None);
    assert_eq!(parse_github_repo("https://github.com/owner/"), None);
}

#[test]
fn issue_numbers_come_from_the_last_segment() {
    assert_eq!(
        parse_issue_number("https://github.com/o/r/issues/123"),
        Some(123)
    );
    assert_eq!(parse_issue_number("https://github.com/o/r/issues/abc"), None);
    assert_eq!(parse_issue_number("https://github.com/o/r/issues/"), None);
    assert_eq!(parse_issue_number("42"), Some(42));
    assert_eq!(parse_issue_number("x/-7"), Some(-7));
}

#[test]
fn repo_comes_from_the_first_two_segments_of_an_issue_url() {
    assert_eq!(
        parse_repo_from_url("https://github.com/owner/repo/issues/123"),
        Some("owner/repo".to_string())
    );
    assert_eq!(
        parse_repo_from_url("https://github.com/owner/repo"),
        Some("owner/repo".to_string())
    );
    assert_eq!(parse_repo_from_url("https://github.com/owneronly"), None);
    assert_eq!(parse_repo_from_url("git@github.com:owner/repo"), None);
}

// ─── identity keys ───────────────────────────────────────────────────────────

#[test]
fn identity_prefers_the_normalised_remote() {
    assert_eq!(
        remote_identity_key(" https://github.com/a/b.git \n"),
        "git:https://github.com/a/b"
    );
    assert_eq!(
        remote_identity_key("https://github.com/a/b.git.git//"),
        "git:https://github.com/a/b"
    );
    assert_eq!(
        compute_identity_key(Some("https://github.com/a/b"), Some("ignored")),
        "git:https://github.com/a/b"
    );
}

#[test]
fn identity_falls_back_to_the_stamp_then_a_fresh_one() {
    assert_eq!(
        compute_identity_key(None, Some("  abc-123 \n")),
        "stamp:abc-123"
    );
    let fresh = compute_identity_key(None, None);
    assert!(fresh.starts_with("stamp:"));
    assert_eq!(fresh.chars().count(), "stamp:".len() + 36);
    // an empty stamp file also falls back to a fresh identifier
    let fresh2 = compute_identity_key(None, Some("   \n"));
    assert!(fresh2.starts_with("stamp:"));
    assert_eq!(stamp_identity_key(Some("xyz"), "unused"), "stamp:xyz");
    assert_eq!(stamp_identity_key(None, "f-1"), "stamp:f-1");
}

// ─── planning status ─────────────────────────────────────────────────────────

#[test]
fn status_labels_round_trip_and_unknown_falls_back() {
    for s in [
        PlanningStatus::Backlog,
        PlanningStatus::Todo,
        PlanningStatus::InProgress,
        PlanningStatus::Done,
    ] {
        assert_eq!(parse_status(&s.label()), s);
    }
    assert_eq!(parse_status("todo"), PlanningStatus::Todo);
    assert_eq!(parse_status("in_progress"), PlanningStatus::InProgress);
    assert_eq!(parse_status("done"), PlanningStatus::Done);
    assert_eq!(parse_status("backlog"), PlanningStatus::Backlog);
    assert_eq!(parse_status("nonsense"), PlanningStatus::Backlog);
    assert_eq!(PlanningStatus::InProgress.label(), "in_progress");
}

// ─── terminal launching ──────────────────────────────────────────────────────

#[test]
fn terminal_detection_prefers_warp_then_iterm() {
    let t = detect_terminal(true, true);
    assert_eq!(t.detected, "warp");
    assert_eq!(t.available, vec!["warp", "iterm2", "terminal"]);
    let t = detect_terminal(false, true);
    assert_eq!(t.detected, "iterm2");
    assert_eq!(t.available, vec!["iterm2", "terminal"]);
    let t = detect_terminal(false, false);
    assert_eq!(t.detected, "terminal");
    assert_eq!(t.available, vec!["terminal"]);
}

#[test]
fn assistant_binary_resolution_order() {
    assert_eq!(
        resolve_assistant_bin(Some("/x/assistant".to_string()), true, true, true),
        "/x/assistant"
    );
    assert_eq!(
        resolve_assistant_bin(None, true, true, true),
        "/usr/local/bin/assistant"
    );
    assert_eq!(
        resolve_assistant_bin(None, false, true, true),
        "/opt/homebrew/bin/assistant"
    );
    assert_eq!(resolve_assistant_bin(None, false, false, true), "/usr/bin/assistant");
    assert_eq!(resolve_assistant_bin(None, false, false, false), "assistant");
}

#[test]
fn shell_quoting_escapes_embedded_quotes() {
    assert_eq!(shell_quote("plain"), "'plain'");
    assert_eq!(shell_quote("it's"), "'it'\\''s'");
    assert_eq!(shell_quote(""), "''");
    assert_eq!(shell_quote("a b"), "'a b'");
}

#[test]
fn percent_encoding_passes_only_safe_ascii() {
    assert_eq!(urlencoding_simple("abcXYZ019-_.~"), "abcXYZ019-_.~");
    assert_eq!(urlencoding_simple("a b/c"), "a%20b%2Fc");
    assert_eq!(urlencoding_simple("100%"), "100%25");
    // multibyte characters are encoded byte by byte
    assert_eq!(urlencoding_simple("é"), "%C3%A9");
}

#[test]
fn launch_texts_are_exact() {
    let cmd = build_launch_command("/Users/u/my proj", "/usr/local/bin/assistant");
    assert_eq!(cmd, "cd '/Users/u/my proj' && '/usr/local/bin/assistant'");
    assert_eq!(
        warp_launch_url(&cmd),
        "warp://action/new_tab?command=cd%20%27%2FUsers%2Fu%2Fmy%20proj%27%20%26%26%20%27%2Fusr%2Flocal%2Fbin%2Fassistant%27"
    );
    assert_eq!(
        launch_script("/p", "/bin/assistant"),
        "#!/bin/bash\nexport PATH=\"$PATH:/usr/local/bin:/opt/homebrew/bin\"\ncd '/p'\n'/bin/assistant'\n"
    );
}

// ─── text helpers ────────────────────────────────────────────────────────────

#[test]
fn trimming_and_equality_helpers() {
    assert_eq!(trim_str("  x \t"), "x");
    assert_eq!(trim_str("\r\n"), "");
    assert_eq!(trim_str("inner space kept"), "inner space kept");
    assert!(str_eq("abc", "abc"));
    assert!(!str_eq("abc", "abd"));
    assert!(!str_eq("abc", "ab"));
}

// ─── settings ────────────────────────────────────────────────────────────────

#[test]
fn default_settings() {
    let s = AppSettings::default();
    assert_eq!(s.scan_path, None);
    assert_eq!(s.theme, "system");
    assert_eq!(s.terminal, "auto");
    assert!(!s.onboarding_completed);
    assert!(s.github_close_prompt);
}

// ─── path containment ────────────────────────────────────────────────────────

#[test]
fn path_containment_is_by_segment_not_by_string_prefix() {
    assert!(path_within("/home/user/proj", "/home/user"));
    assert!(path_within("/home/user", "/home/user"));
    assert!(path_within("/home/user/a/b/c", "/home/user/"));
    // the classic near-miss: a sibling whose name extends the base's name
    assert!(!path_within("/home/user2", "/home/user"));
    assert!(!path_within("/home", "/home/user"));
    assert!(!path_within("/etc/passwd", "/home/user"));
    // everything lies within the root
    assert!(path_within("/anything/at/all", "/"));
}
