use amem::daily::{
    derive_summary_from_body, parse_daily_frontmatter_and_body, parse_simple_yaml_scalar,
    render_daily_markdown_with_frontmatter,
};
use amem::notes::{canonical_owner_key, extract_copilot_session_id_from_share_path, owner_key_for};
use amem::profile::owner_profile_value;

#[test]
fn scalars_are_read_plain_or_quoted() {
    assert_eq!(parse_simple_yaml_scalar(""), "");
    assert_eq!(parse_simple_yaml_scalar("   "), "");
    assert_eq!(parse_simple_yaml_scalar("  plain text "), "plain text");
    assert_eq!(parse_simple_yaml_scalar("'it''s'"), "it's");
    assert_eq!(parse_simple_yaml_scalar("''"), "");
    assert_eq!(parse_simple_yaml_scalar("'"), "'");
    assert_eq!(parse_simple_yaml_scalar("'''"), "'");
    assert_eq!(parse_simple_yaml_scalar("\"\""), "");
    assert_eq!(parse_simple_yaml_scalar("\"a\\nb\\t\\\"q\\\"\\\\ \\x\""), "a\nb\t\"q\"\\ x");
    assert_eq!(parse_simple_yaml_scalar("\"abc\\\""), "abc\\");
    assert_eq!(parse_simple_yaml_scalar("\"open"), "\"open");
    assert_eq!(parse_simple_yaml_scalar(" \"日記 の 要約\" "), "日記 の 要約");
}

#[test]
fn daily_files_are_written_with_a_front_matter() {
    assert_eq!(
        render_daily_markdown_with_frontmatter("a  \"b\" \\ c", "- entry"),
        "---\nsummary: \"a \\\"b\\\" \\\\ c\"\n---\n- entry\n"
    );
    assert_eq!(render_daily_markdown_with_frontmatter("", ""), "---\nsummary: \"\"\n---\n");
    assert_eq!(
        render_daily_markdown_with_frontmatter(" x ", "- one\n- two\n"),
        "---\nsummary: \"x\"\n---\n- one\n- two\n"
    );
}

#[test]
fn front_matter_and_body_are_told_apart() {
    assert_eq!(
        parse_daily_frontmatter_and_body("---\nsummary: \"diary summary\"\n---\n- 09:50 diary entry\n"),
        (Some("diary summary".to_string()), "- 09:50 diary entry\n".to_string())
    );
    assert_eq!(
        parse_daily_frontmatter_and_body("---\r\n  summary: x\r\nother: y\r\n---\r\nbody\r\nmore"),
        (Some("x".to_string()), "body\nmore".to_string())
    );
    assert_eq!(
        parse_daily_frontmatter_and_body("---\nsummary: a\nsummary: 'b'\n---"),
        (Some("b".to_string()), String::new())
    );
    assert_eq!(parse_daily_frontmatter_and_body("---\n---\nbody"), (None, "body".to_string()));
    assert_eq!(
        parse_daily_frontmatter_and_body("- entry\r\n---\n"),
        (None, "- entry\n---\n".to_string())
    );
    assert_eq!(
        parse_daily_frontmatter_and_body("---\nsummary: never closed\n"),
        (None, "---\nsummary: never closed\n".to_string())
    );
    assert_eq!(parse_daily_frontmatter_and_body("---"), (None, "---".to_string()));
    assert_eq!(parse_daily_frontmatter_and_body("----\n---\n"), (None, "----\n---\n".to_string()));
    assert_eq!(parse_daily_frontmatter_and_body(""), (None, String::new()));
}

#[test]
fn written_daily_files_are_read_back() {
    for (summary, body) in [("walk  in \"Tokyo\"", "- 10:00 walked\n"), ("back\\slash", ""), ("", "x")] {
        let file = render_daily_markdown_with_frontmatter(summary, body);
        let (read_summary, read_body) = parse_daily_frontmatter_and_body(&file);
        assert_eq!(read_summary, Some(summary.split_whitespace().collect::<Vec<_>>().join(" ")));
        let expected_body =
            if body.is_empty() || body.ends_with('\n') { body.to_string() } else { format!("{body}\n") };
        assert_eq!(read_body, expected_body);
    }
}

#[test]
fn summaries_are_made_of_the_first_bullet_lines() {
    assert_eq!(derive_summary_from_body(""), "");
    assert_eq!(derive_summary_from_body("no bullets\nhere"), "");
    assert_eq!(derive_summary_from_body("- 08:00 [codex] walked\n"), "walked");
    assert_eq!(derive_summary_from_body("- a\r\n- a\n-  b  c\n"), "a / b c");
    assert_eq!(derive_summary_from_body("- a\n- b\n- a\n- c\n- d"), "a / b など");
    let long = format!("- {}\n- tail", "x".repeat(100));
    assert_eq!(derive_summary_from_body(&long), format!("{}...", "x".repeat(87)));
    let edge = format!("- {}", "y".repeat(90));
    assert_eq!(derive_summary_from_body(&edge), "y".repeat(90));
}

#[test]
fn shared_transcripts_name_their_session() {
    assert_eq!(
        extract_copilot_session_id_from_share_path("/tmp/work/copilot-session-abcd1234.md"),
        Some("abcd1234".to_string())
    );
    assert_eq!(
        extract_copilot_session_id_from_share_path("copilot-session-x.md"),
        Some("x".to_string())
    );
    assert_eq!(extract_copilot_session_id_from_share_path("copilot-session-.md"), None);
    assert_eq!(extract_copilot_session_id_from_share_path("copilot-session-a.txt"), None);
    assert_eq!(extract_copilot_session_id_from_share_path("copilot-session-a.md/notes.md"), None);
    assert_eq!(extract_copilot_session_id_from_share_path("my-copilot-session-a.md"), None);
    assert_eq!(extract_copilot_session_id_from_share_path(""), None);
}

#[test]
fn owner_keys_have_short_forms() {
    assert_eq!(canonical_owner_key("name"), Some("name"));
    assert_eq!(canonical_owner_key(" Lang "), Some("native_language"));
    assert_eq!(canonical_owner_key("GITHUB"), Some("github_username"));
    assert_eq!(canonical_owner_key("tz"), Some("timezone"));
    assert_eq!(canonical_owner_key("Job"), Some("occupation"));
    assert_eq!(canonical_owner_key("nic\u{212A}name"), Some("what_to_call_them"));
    assert_eq!(canonical_owner_key("unknown"), None);
    assert_eq!(canonical_owner_key(""), None);
    assert_eq!(owner_key_for("birthday"), Some("birthday"));
    assert_eq!(owner_key_for("Name"), None);
}

#[test]
fn profile_gives_the_owner_s_fields() {
    let profile = "# Owner Profile\n\nname: ユイ\ngithub_username: yuiseki\nnative_language: 日本語\n";
    assert_eq!(owner_profile_value(profile, "native_language"), Some("日本語".to_string()));
    assert_eq!(owner_profile_value(profile, "github_username"), Some("yuiseki".to_string()));
    assert_eq!(owner_profile_value(profile, "name"), Some("ユイ".to_string()));
    assert_eq!(owner_profile_value(profile, "email"), None);
    let styled = "# name: heading\n- **Name**: Yui \r\n- **Language:** 日本語\n- **Timezone:**\ntimezone:  JST\n";
    assert_eq!(owner_profile_value(styled, "name"), Some("Yui".to_string()));
    assert_eq!(owner_profile_value(styled, "native_language"), Some("日本語".to_string()));
    assert_eq!(owner_profile_value(styled, "timezone"), Some("JST".to_string()));
    assert_eq!(
        owner_profile_value("- **Language:** **日本語**", "native_language"),
        Some("**日本語".to_string())
    );
    assert_eq!(owner_profile_value("key: **bold**", "key"), Some("bold".to_string()));
    assert_eq!(owner_profile_value("username: bob", "name"), Some("bob".to_string()));
    assert_eq!(owner_profile_value("github_handle : octo", "github_username"), Some("octo".to_string()));
    assert_eq!(owner_profile_value("name ユイ", "name"), None);
    assert_eq!(owner_profile_value("name: ***", "name"), None);
    assert_eq!(owner_profile_value("", "name"), None);
    assert_eq!(owner_profile_value("custom: value", "custom"), Some("value".to_string()));
}
