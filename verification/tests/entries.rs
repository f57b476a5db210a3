use amem::entries::{parse_activity_line, parse_diary_line};
use amem::tasks::{leading_token, parse_task_line, parse_task_line_with};

#[test]
fn diary_lines_are_read() {
    let e = parse_diary_line("2026-02-20", "- 19:56 Uber Eatsで注文  ", "owner/diary/2026/02/2026-02-20.md").unwrap();
    assert_eq!(e.timestamp, "2026-02-20 19:56");
    assert_eq!(e.text, "Uber Eatsで注文");
    assert_eq!(e.path, "owner/diary/2026/02/2026-02-20.md");
    let untimed = parse_diary_line("2026-02-20", "-   散歩した", "p").unwrap();
    assert_eq!(untimed.timestamp, "2026-02-20 00:00");
    assert_eq!(untimed.text, "散歩した");
    assert!(parse_diary_line("2026-02-20", "- 19:56", "p").is_none());
    assert!(parse_diary_line("2026-02-20", "- ", "p").is_none());
    assert!(parse_diary_line("2026-02-20", " - 19:56 indented", "p").is_none());
    assert!(parse_diary_line("2026-02-20", "text", "p").is_none());
    assert!(parse_diary_line("2026-02-20", "", "p").is_none());
    let glued = parse_diary_line("2026-02-20", "- 19:56text", "p").unwrap();
    assert_eq!((glued.timestamp.as_str(), glued.text.as_str()), ("2026-02-20 19:56", "text"));
}

#[test]
fn activity_lines_are_read() {
    let e = parse_activity_line("2026-02-21", "- 10:00 [codex] today activity entry", "a.md").unwrap();
    assert_eq!(e.timestamp, "2026-02-21 10:00");
    assert_eq!(e.source.as_deref(), Some("codex"));
    assert_eq!(e.text, "today activity entry");
    assert_eq!(e.path, "a.md");
    let plain = parse_activity_line("2026-02-21", "- legacy activity", "a.md").unwrap();
    assert_eq!(plain.timestamp, "2026-02-21 00:00");
    assert_eq!(plain.source, None);
    assert_eq!(plain.text, "legacy activity");
    let blank_source = parse_activity_line("2026-02-21", "- 08:13 [ ] task", "a.md").unwrap();
    assert_eq!(blank_source.source, None);
    assert_eq!(blank_source.text, "task");
    let open = parse_activity_line("2026-02-21", "- [open bracket", "a.md").unwrap();
    assert_eq!(open.source, None);
    assert_eq!(open.text, "[open bracket");
    assert!(parse_activity_line("2026-02-21", "- 08:13 [codex]", "a.md").is_none());
    assert!(parse_activity_line("2026-02-21", "- 08:13", "a.md").is_none());
    assert!(parse_activity_line("2026-02-21", "-", "a.md").is_none());
}

#[test]
fn task_lines_are_read() {
    let full = parse_task_line("- [2026-02-21 10:00] [ABC1234] xxxについて調査する").unwrap();
    assert_eq!(full.timestamp.as_deref(), Some("2026-02-21 10:00"));
    assert_eq!(full.hash.as_deref(), Some("abc1234"));
    assert_eq!(full.text, "xxxについて調査する");
    let no_hash = parse_task_line("- [2026-02-21 10:00] [not hex] text").unwrap();
    assert_eq!(no_hash.timestamp.as_deref(), Some("2026-02-21 10:00"));
    assert_eq!(no_hash.hash, None);
    assert_eq!(no_hash.text, "[not hex] text");
    let plain = parse_task_line("- finish amem").unwrap();
    assert_eq!((plain.timestamp, plain.hash, plain.text.as_str()), (None, None, "finish amem"));
    let tagged = parse_task_line("- [later] tidy up").unwrap();
    assert_eq!(tagged.timestamp, None);
    assert_eq!(tagged.text, "[later] tidy up");
    let bad_day = parse_task_line("- [2026-02-30 10:00] text").unwrap();
    assert_eq!(bad_day.timestamp, None);
    assert_eq!(bad_day.text, "[2026-02-30 10:00] text");
    assert!(parse_task_line("- [2026-02-21 10:00] [abc]").is_none());
    assert!(parse_task_line("- ").is_none());
    assert!(parse_task_line("finish").is_none());
}

#[test]
fn task_lines_follow_what_the_time_stamp_check_said() {
    assert_eq!(leading_token("- [ a b ] c"), Some("a b".to_string()));
    assert_eq!(leading_token("- a [b]"), None);
    assert_eq!(leading_token("[a]"), None);
    let trusted = parse_task_line_with("- [whenever] [] text", true).unwrap();
    assert_eq!(trusted.timestamp.as_deref(), Some("whenever"));
    assert_eq!(trusted.hash.as_deref(), Some(""));
    assert_eq!(trusted.text, "text");
    let refused = parse_task_line_with("- [2026-02-21 10:00] text", false).unwrap();
    assert_eq!(refused.timestamp, None);
    assert_eq!(refused.text, "[2026-02-21 10:00] text");
}

fn words(items: &[&str]) -> Vec<String> {
    items.iter().map(|s| s.to_string()).collect()
}

#[test]
fn set_tasks_adds_or_finishes() {
    match amem::tasks::cmd_set_tasks(words(&["xxxについて", "調査する"])) {
        Ok(amem::tasks::TaskCommand::Add { text }) => assert_eq!(text, "xxxについて 調査する"),
        other => panic!("{:?}", other),
    }
    match amem::tasks::cmd_set_tasks(words(&["DONE", "abc1234", "x"])) {
        Ok(amem::tasks::TaskCommand::Done { selector }) => assert_eq!(selector, "abc1234 x"),
        other => panic!("{:?}", other),
    }
    match amem::tasks::cmd_set_tasks(words(&["done"])) {
        Err(e) => {
            assert_eq!(e, amem::tasks::TaskArgsError::MissingSelector);
            assert_eq!(e.message(), "missing task selector. use: amem set tasks done <hash|text>");
        }
        other => panic!("{:?}", other),
    }
    match amem::tasks::cmd_set_tasks(Vec::new()) {
        Err(e) => {
            assert_eq!(e, amem::tasks::TaskArgsError::MissingArgs);
            assert_eq!(
                e.message(),
                "missing task args. use: amem set tasks <task> | amem set tasks done <hash|text>"
            );
        }
        other => panic!("{:?}", other),
    }
    match amem::tasks::cmd_set_tasks(words(&["done!", "x"])) {
        Ok(amem::tasks::TaskCommand::Add { text }) => assert_eq!(text, "done! x"),
        other => panic!("{:?}", other),
    }
}
