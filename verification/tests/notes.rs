use amem::cli::{Cli, Commands, GetTarget, SetTarget, TriageTarget};
use amem::notes::{
    collapse_inline_whitespace, default_summary_limit_for_period, empty_as_na,
    extract_summary_text_from_bullet_line, flatten_recent_section_paths,
    has_meaningful_owner_preferences, is_hhmm, normalize_priority, take_bracket_token,
    task_selector_matches, RecentDailySection, TaskEntry,
};
use amem::paths::{
    agent_inbox_captured_path, agent_tasks_done_path, agent_tasks_open_path, done_task_paths,
    join_path, legacy_tasks_done_path, legacy_tasks_open_path, open_task_paths,
};
use std::path::Path;

fn task(hash: Option<&str>, text: &str) -> TaskEntry {
    TaskEntry {
        status: "open".to_string(),
        timestamp: None,
        hash: hash.map(|h| h.to_string()),
        text: text.to_string(),
        raw_line: String::new(),
        line_index: 0,
        source_path: "agent/tasks/open.md".to_string(),
    }
}

#[test]
fn summary_limit_depends_on_the_period() {
    assert_eq!(default_summary_limit_for_period("month"), 31);
    assert_eq!(default_summary_limit_for_period("  MoNtH\n"), 31);
    assert_eq!(default_summary_limit_for_period("week"), 7);
    assert_eq!(default_summary_limit_for_period("months"), 7);
    assert_eq!(default_summary_limit_for_period(""), 7);
}

#[test]
fn priorities_are_normalized() {
    for (raw, name) in [("P0", "P0"), (" p1 ", "P1"), ("p2", "P2"), ("P3\n", "P3")] {
        assert_eq!(normalize_priority(raw).unwrap(), name);
        assert_eq!(raw.trim().to_uppercase(), name);
    }
    for raw in ["P4", "", "P", "P 1", "Q1", "P10", "p１"] {
        let e = normalize_priority(raw).unwrap_err();
        assert_eq!(e.raw, raw);
        assert_eq!(e.message(), format!("invalid priority: {raw}. use P0, P1, P2, or P3"));
        assert!(!matches!(raw.trim().to_uppercase().as_str(), "P0" | "P1" | "P2" | "P3"));
    }
}

#[test]
fn times_of_day_are_recognized() {
    assert!(is_hhmm("09:50"));
    assert!(is_hhmm("99:99"));
    assert!(!is_hhmm("9:50"));
    assert!(!is_hhmm("09:5a"));
    assert!(!is_hhmm("09-50"));
    assert!(!is_hhmm("09:500"));
    assert!(!is_hhmm("０9:50"));
    assert!(!is_hhmm(""));
}

#[test]
fn blank_text_is_shown_as_none() {
    assert_eq!(empty_as_na(""), "(none)");
    assert_eq!(empty_as_na(" \n\t"), "(none)");
    assert_eq!(empty_as_na(" x "), " x ");
}

#[test]
fn owner_preferences_need_more_than_headings() {
    assert!(!has_meaningful_owner_preferences(""));
    assert!(!has_meaningful_owner_preferences("# Owner Preferences\n\n-\n  *  \n"));
    assert!(has_meaningful_owner_preferences("# Owner Preferences\n\n- 好きな言語: Rust\n"));
    assert!(has_meaningful_owner_preferences("--"));
    assert!(has_meaningful_owner_preferences("#\r\nx"));
}

#[test]
fn bracket_tokens_are_taken_off() {
    assert_eq!(
        take_bracket_token(" [2026-02-21 10:00] [abc] text"),
        Some(("2026-02-21 10:00".to_string(), "[abc] text".to_string()))
    );
    assert_eq!(take_bracket_token("[ a ]"), Some(("a".to_string(), String::new())));
    assert_eq!(take_bracket_token("[]x "), Some((String::new(), "x ".to_string())));
    assert_eq!(take_bracket_token("x [a]"), None);
    assert_eq!(take_bracket_token("[a"), None);
    assert_eq!(take_bracket_token(""), None);
}

#[test]
fn tasks_are_selected_by_hash_or_text() {
    let t = task(Some("abc1234"), "write tests");
    assert!(task_selector_matches(&t, "abc"));
    assert!(task_selector_matches(&t, " abc1234 "));
    assert!(!task_selector_matches(&t, "abd"));
    assert!(!task_selector_matches(&t, "abc12345"));
    assert!(task_selector_matches(&t, "write tests"));
    assert!(!task_selector_matches(&t, "write"));
    assert!(!task_selector_matches(&t, "  "));
    let plain = task(None, "cafe");
    assert!(!task_selector_matches(&plain, "cafe"));
    assert!(task_selector_matches(&task(None, "cafeteria"), "cafeteria"));
}

#[test]
fn white_space_is_collapsed() {
    for s in ["  a \t b\n c ", "", "   ", "one", "a\u{3000}b", " x"] {
        assert_eq!(collapse_inline_whitespace(s), s.split_whitespace().collect::<Vec<_>>().join(" "));
    }
    assert_eq!(collapse_inline_whitespace("  a \t b\n c "), "a b c");
}

#[test]
fn bullet_lines_give_their_text() {
    assert_eq!(
        extract_summary_text_from_bullet_line("- 10:00 [codex] started   coding"),
        Some("started coding".to_string())
    );
    assert_eq!(
        extract_summary_text_from_bullet_line("  - 08:40 yesterday diary entry "),
        Some("yesterday diary entry".to_string())
    );
    assert_eq!(extract_summary_text_from_bullet_line("- [x] done"), Some("done".to_string()));
    assert_eq!(extract_summary_text_from_bullet_line("- [open"), Some("[open".to_string()));
    assert_eq!(extract_summary_text_from_bullet_line("- 10:00"), None);
    assert_eq!(extract_summary_text_from_bullet_line("- "), None);
    assert_eq!(extract_summary_text_from_bullet_line("-x"), None);
    assert_eq!(extract_summary_text_from_bullet_line("text"), None);
    assert_eq!(extract_summary_text_from_bullet_line(""), None);
}

#[test]
fn section_paths_are_flattened() {
    let sections = vec![
        RecentDailySection {
            date: "2026-02-21".to_string(),
            paths: vec!["a".to_string(), "b".to_string()],
            content: String::new(),
        },
        RecentDailySection { date: "2026-02-20".to_string(), paths: Vec::new(), content: String::new() },
        RecentDailySection {
            date: "2026-02-19".to_string(),
            paths: vec!["c".to_string()],
            content: String::new(),
        },
    ];
    assert_eq!(flatten_recent_section_paths(&sections), vec!["a", "b", "c"]);
}

#[test]
fn paths_are_joined_as_the_standard_library_joins() {
    for base in ["", "/", "/m", "/m/", "rel", "rel/dir/"] {
        for part in ["agent", "open.md", "", "/abs", "a/b"] {
            assert_eq!(
                join_path(base, part),
                Path::new(base).join(part).to_string_lossy(),
                "{:?} {:?}",
                base,
                part
            );
        }
    }
}

#[test]
fn task_files_lie_under_the_memory_directory() {
    assert_eq!(agent_tasks_open_path("/m"), "/m/agent/tasks/open.md");
    assert_eq!(legacy_tasks_open_path("/m"), "/m/tasks/open.md");
    assert_eq!(agent_tasks_done_path("/m/"), "/m/agent/tasks/done.md");
    assert_eq!(legacy_tasks_done_path("m"), "m/tasks/done.md");
    assert_eq!(agent_inbox_captured_path(".amem"), ".amem/agent/inbox/captured.md");
    assert_eq!(open_task_paths("/m"), vec!["/m/agent/tasks/open.md", "/m/tasks/open.md"]);
    assert_eq!(done_task_paths("/m"), vec!["/m/agent/tasks/done.md", "/m/tasks/done.md"]);
}

#[test]
fn commands_are_plain_values() {
    let cli = Cli {
        memory_dir: Some(".amem".to_string()),
        json: false,
        command: Some(Commands::Search {
            query: "東京".to_string(),
            top_k: 8,
            lexical_only: false,
            semantic_only: false,
        }),
    };
    assert!(matches!(cli.command, Some(Commands::Search { top_k: 8, .. })));
    let get = Commands::Get { target: GetTarget::Owner { target: None } };
    assert!(matches!(get, Commands::Get { target: GetTarget::Owner { target: None } }));
    let set = Commands::Assign { target: SetTarget::Tasks { args: vec!["done".to_string()] } };
    assert!(matches!(set, Commands::Assign { .. }));
    let triage = TriageTarget::Memory { filename: "a.md".to_string(), priority: "P1".to_string() };
    assert!(matches!(triage, TriageTarget::Memory { .. }));
}

#[test]
fn task_hashes_are_seven_digits_of_the_digest() {
    assert_eq!(amem::notes::short_task_hash("abc"), "ba7816b");
    assert_eq!(amem::notes::short_task_hash(""), "e3b0c44");
}

#[test]
fn settings_are_read_from_env_files() {
    let read = amem::envfile::env_file_value;
    let content = "# settings\n\nexport DISCORD_BOT_TOKEN = \"dummy-token\"\nDISCORD_NOTIFY_CHANNEL_ID='123456789'\nEMPTY=\nEMPTY=later\nPLAIN = value with spaces  \r\nQUOTED=\"  padded \"\n";
    assert_eq!(read(content, "DISCORD_BOT_TOKEN"), Some("dummy-token".to_string()));
    assert_eq!(read(content, "DISCORD_NOTIFY_CHANNEL_ID"), Some("123456789".to_string()));
    assert_eq!(read(content, "EMPTY"), Some("later".to_string()));
    assert_eq!(read(content, "PLAIN"), Some("value with spaces".to_string()));
    assert_eq!(read(content, "QUOTED"), Some("padded".to_string()));
    assert_eq!(read(content, "MISSING"), None);
    assert_eq!(read("A=1\nno equals sign\nB=2", "B"), None);
    assert_eq!(read("A=1\nno equals sign\nB=2", "A"), Some("1".to_string()));
    assert_eq!(read("exportA=1", "exportA"), Some("1".to_string()));
    assert_eq!(read("A=\"x", "A"), Some("\"x".to_string()));
    assert_eq!(read("A=b=c", "A"), Some("b=c".to_string()));
    assert_eq!(read("", "A"), None);
}

#[test]
fn memories_are_looked_for_by_priority() {
    assert_eq!(
        amem::paths::memory_file_candidates("/m", "tokyo.md"),
        vec![
            "/m/agent/memory/P0/tokyo.md",
            "/m/agent/memory/P1/tokyo.md",
            "/m/agent/memory/P2/tokyo.md",
            "/m/agent/memory/P3/tokyo.md",
        ]
    );
    assert_eq!(amem::paths::memory_file_path("", "P1", "a.md"), "agent/memory/P1/a.md");
}

#[test]
fn listings_are_filtered_by_kind_day_and_pattern() {
    let entries: Vec<String> = [
        "activity/2026/02/2026-02-20.md",
        "agent/activity/2026/02/2026-02-21.md",
        "agent/inbox/captured.md",
        "agent/tasks/open.md",
        "owner/diary/2026/02/2026-02-21.md",
        "owner/profile.md",
    ]
    .iter()
    .map(|s| s.to_string())
    .collect();
    let list = amem::listing::list_entries;
    assert_eq!(list(&entries, None, None, None, None).unwrap(), entries);
    assert_eq!(
        list(&entries, None, Some("activity"), None, None).unwrap(),
        vec!["activity/2026/02/2026-02-20.md", "agent/activity/2026/02/2026-02-21.md"]
    );
    assert_eq!(list(&entries, None, Some("owner"), None, Some(1)).unwrap(), vec!["owner/diary/2026/02/2026-02-21.md"]);
    assert_eq!(list(&entries, None, Some("tasks"), None, None).unwrap(), vec!["agent/tasks/open.md"]);
    assert_eq!(list(&entries, None, Some("inbox"), None, None).unwrap(), vec!["agent/inbox/captured.md"]);
    assert!(list(&entries, None, Some("memory"), None, None).unwrap().is_empty());
    assert_eq!(
        list(&entries, None, None, Some("2026-02-21"), None).unwrap(),
        vec!["agent/activity/2026/02/2026-02-21.md", "owner/diary/2026/02/2026-02-21.md"]
    );
    assert_eq!(
        list(&entries, Some("owner/**"), None, None, None).unwrap(),
        vec!["owner/diary/2026/02/2026-02-21.md", "owner/profile.md"]
    );
    assert_eq!(list(&entries, Some("*.txt"), None, None, None).unwrap(), Vec::<String>::new());
    assert_eq!(list(&entries, Some("**/open.md"), Some("tasks"), None, Some(0)).unwrap(), Vec::<String>::new());
    assert_eq!(list(&entries, None, None, None, Some(100)).unwrap().len(), 6);
    let e = list(&entries, Some("owner/[a"), None, None, None).unwrap_err();
    assert_eq!(e.pattern, "owner/[a");
    assert_eq!(e.message(), "invalid glob: owner/[a");
    assert!(list(&Vec::new(), Some("a{"), None, None, None).is_err());
    assert!(amem::listing::path_is_of_kind("tasks/open.md", "tasks"));
    assert!(!amem::listing::path_is_of_kind("agent/tasks", "tasks"));
    assert!(amem::listing::entry_is_listed("owner/a.md", Some("owner"), Some("a"), true));
    assert!(!amem::listing::entry_is_listed("owner/a.md", Some("owner"), Some("a"), false));
}

#[test]
fn memories_are_found_where_a_file_lies() {
    let find = amem::paths::find_memory_file;
    assert_eq!(find("/m", "a.md", &vec![false, true, false, true]), Some("/m/agent/memory/P1/a.md".to_string()));
    assert_eq!(find("/m", "a.md", &vec![false, false, false, true]), Some("/m/agent/memory/P3/a.md".to_string()));
    assert_eq!(find("/m", "a.md", &vec![true]), Some("/m/agent/memory/P0/a.md".to_string()));
    assert_eq!(find("/m", "a.md", &vec![false, false, false, false, true]), None);
    assert_eq!(find("/m", "a.md", &Vec::new()), None);
}

#[test]
fn paths_are_shown_relative_to_the_memory_directory() {
    let show = amem::paths::rel_or_abs;
    assert_eq!(show("/home/u/.amem", "/home/u/.amem/owner/profile.md"), "owner/profile.md");
    assert_eq!(show("/home/u/.amem/", "/home/u/.amem/agent//tasks/open.md"), "agent//tasks/open.md");
    assert_eq!(show("/home/u/.amem", "/home/u/.amem"), "");
    assert_eq!(show("/home/u/.amem", "/home/u/.amem-other/x.md"), "/home/u/.amem-other/x.md");
    assert_eq!(show("/home/u/.amem", "relative/x.md"), "relative/x.md");
    assert_eq!(amem::paths::shown_path("/x", None), "/x");
    assert_eq!(amem::paths::shown_path("/x", Some("y".to_string())), "y");
}
