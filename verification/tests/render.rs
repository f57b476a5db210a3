use amem::notes::RecentDailySection;
use amem::render::{
    join_texts, render_agent_sections, render_recent_daily_sections, render_today_snapshot,
    TodayJson,
};

fn day(date: &str, paths: &[&str], content: &str) -> RecentDailySection {
    RecentDailySection {
        date: date.to_string(),
        paths: paths.iter().map(|p| p.to_string()).collect(),
        content: content.to_string(),
    }
}

fn today() -> TodayJson {
    TodayJson {
        date: "2026-02-21".to_string(),
        agent_identity: "# Identity\n- Name: TestAgent".to_string(),
        agent_identity_path: "agent/IDENTITY.md".to_string(),
        agent_soul: String::new(),
        agent_soul_path: "agent/SOUL.md".to_string(),
        owner_profile: "name: yuiseki".to_string(),
        owner_profile_path: "owner/profile.md".to_string(),
        owner_preferences: "# Owner Preferences\n\n-\n".to_string(),
        owner_preferences_path: "owner/preferences.md".to_string(),
        owner_diary: String::new(),
        owner_diary_path: String::new(),
        owner_diary_paths: Vec::new(),
        owner_diary_recent: vec![day("2026-02-21", &["d1.md"], "- 09:50 today diary entry")],
        open_tasks: "- finish amem".to_string(),
        open_tasks_paths: vec!["agent/tasks/open.md".to_string()],
        activity: String::new(),
        activity_paths: Vec::new(),
        activity_recent: Vec::new(),
        agent_memories: String::new(),
        agent_memories_paths: Vec::new(),
    }
}

#[test]
fn texts_are_joined() {
    let parts: Vec<String> = ["a", "", "b"].iter().map(|s| s.to_string()).collect();
    assert_eq!(join_texts(&parts, ", "), "a, , b");
    assert_eq!(join_texts(&Vec::new(), ", "), "");
    assert_eq!(join_texts(&vec!["x".to_string()], "\n"), "x");
}

#[test]
fn recent_days_are_shown_day_by_day() {
    assert_eq!(render_recent_daily_sections(&Vec::new()), "(none)");
    let days = vec![
        day("2026-02-21", &["a.md", "b.md"], "- today"),
        day("2026-02-20", &[], "- yesterday"),
    ];
    assert_eq!(
        render_recent_daily_sections(&days),
        "### 2026-02-21\n[a.md]\n[b.md]\n- today\n\n### 2026-02-20\n- yesterday"
    );
}

#[test]
fn agent_sections_show_identity_soul_and_memories() {
    let with_memories = render_agent_sections(
        "agent/IDENTITY.md",
        "I am",
        "agent/SOUL.md",
        "  ",
        &vec!["agent/memory/P1/tokyo.md".to_string()],
        "東京のメモ",
    );
    assert_eq!(
        with_memories,
        "== Agent Identity ==\n[agent/IDENTITY.md]\nI am\n\n== Agent Soul ==\n[agent/SOUL.md]\n(none)\n\n== Agent Memories ==\n[agent/memory/P1/tokyo.md]\n\n東京のメモ"
    );
    let without = render_agent_sections("i", "", "s", "", &Vec::new(), "");
    assert_eq!(
        without,
        "== Agent Identity ==\n[i]\n(none)\n\n== Agent Soul ==\n[s]\n(none)\n\n== Agent Memories ==\n\n(none)"
    );
}

#[test]
fn snapshot_shows_the_sections_of_the_day() {
    let text = render_today_snapshot(&today());
    assert_eq!(
        text,
        "== Agent Identity ==\n[agent/IDENTITY.md]\n# Identity\n- Name: TestAgent\n\n\
         == Agent Memories ==\n(none)\n\n_Use `amem set memory` command to keep your own memory._\n\n\
         == Owner Profile ==\n[owner/profile.md]\nname: yuiseki\n\n\
         == Owner Diary ==\n### 2026-02-21\n[d1.md]\n- 09:50 today diary entry\n\n\
         == Agent Tasks ==\n[agent/tasks/open.md]\n\n- finish amem\n\n\
         == Agent Activities ==\n(none)"
    );
}

#[test]
fn snapshot_shows_soul_memories_and_preferences_when_there_are_any() {
    let mut t = today();
    t.agent_soul = "# Soul\n- Core: Helpful".to_string();
    t.agent_memories = "remember this".to_string();
    t.agent_memories_paths = vec!["m1.md".to_string(), "m2.md".to_string()];
    t.owner_preferences = "# Owner Preferences\n\n- 好きな言語: Rust\n".to_string();
    t.open_tasks = String::new();
    t.open_tasks_paths = Vec::new();
    let text = render_today_snapshot(&t);
    assert!(text.contains("\n\n== Agent Soul ==\n[agent/SOUL.md]\n# Soul\n- Core: Helpful\n\n"));
    assert!(text.contains(
        "== Agent Memories ==\n[m1.md]\n[m2.md]\n\nremember this\n\n_Use `amem set memory` command to keep your own memory._\n\n"
    ));
    assert!(text.contains(
        "== Owner Preferences ==\n[owner/preferences.md]\n# Owner Preferences\n\n- 好きな言語: Rust\n\n\n"
    ));
    assert!(text.contains("== Agent Tasks ==\n\n(none)\n\n== Agent Activities =="));
}
