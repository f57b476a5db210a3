//! The snapshot of a day, as text: sections with a title, the files that
//! they were read from, and their content.
use crate::notes::{
    empty_as_na, has_meaningful_owner_preferences, meaningful_from, RecentDailySection,
};
use crate::text::blank_range;
use crate::tokens::texts;
use vstd::prelude::*;

verus! {

/// The first `n` of `parts` in a row, with `sep` between each two.
pub open spec fn joined_upto(parts: Seq<Seq<char>>, sep: Seq<char>, n: int) -> Seq<char>
    decreases n,
{
    if n <= 0 {
        Seq::empty()
    } else if n == 1 {
        parts[0]
    } else {
        joined_upto(parts, sep, n - 1) + sep + parts[n - 1]
    }
}

/// `parts` in a row, with `sep` between each two.
pub open spec fn joined(parts: Seq<Seq<char>>, sep: Seq<char>) -> Seq<char> {
    joined_upto(parts, sep, parts.len() as int)
}

/// Executable form of [`joined`].
pub fn join_texts(parts: &Vec<String>, sep: &str) -> (out: String)
    ensures
        out@ == joined(texts(parts@), sep@),
{
    let mut out = String::new();
    let mut i: usize = 0;
    while i < parts.len()
        invariant
            i <= parts.len(),
            out@ == joined_upto(texts(parts@), sep@, i as int),
        decreases parts.len() - i,
    {
        assert(texts(parts@)[i as int] == parts@[i as int]@);
        if i > 0 {
            out.append(sep);
        } else {
            assert(out@ + parts@[0]@ =~= parts@[0]@);
        }
        out.append(parts[i].as_str());
        i = i + 1;
    }
    out
}

/// Each of `paths` in brackets.
pub open spec fn bracketed(paths: Seq<Seq<char>>) -> Seq<Seq<char>> {
    Seq::new(paths.len(), |i: int| "["@ + paths[i] + "]"@)
}

/// The lines that name the files of a section: each path in brackets on a
/// line of its own; nothing where there is no file.
pub open spec fn paths_block(paths: Seq<Seq<char>>) -> Seq<char> {
    if joined(bracketed(paths), "\n"@).len() == 0 {
        Seq::empty()
    } else {
        joined(bracketed(paths), "\n"@) + "\n"@
    }
}

/// Executable form of [`paths_block`].
pub fn render_paths_block(paths: &Vec<String>) -> (out: String)
    ensures
        out@ == paths_block(texts(paths@)),
{
    let mut lines: Vec<String> = Vec::new();
    let mut i: usize = 0;
    assert(texts(lines@) =~= bracketed(texts(paths@)).take(0));
    while i < paths.len()
        invariant
            i <= paths.len(),
            texts(lines@) == bracketed(texts(paths@)).take(i as int),
        decreases paths.len() - i,
    {
        let ghost before = texts(lines@);
        let mut line = String::from_str("[");
        line.append(paths[i].as_str());
        line.append("]");
        assert(texts(paths@)[i as int] == paths@[i as int]@);
        lines.push(line);
        assert(texts(lines@) =~= before.push("["@ + paths@[i as int]@ + "]"@));
        assert(texts(lines@) =~= bracketed(texts(paths@)).take(i + 1));
        i = i + 1;
    }
    assert(bracketed(texts(paths@)).take(paths.len() as int) =~= bracketed(texts(paths@)));
    let all = join_texts(&lines, "\n");
    if all.as_str().is_empty() {
        String::new()
    } else {
        let mut out = all;
        out.append("\n");
        out
    }
}

/// `s`, or `(none)` where `s` is blank.
pub open spec fn or_none(s: Seq<char>) -> Seq<char> {
    if blank_range(s, 0, s.len() as int) {
        "(none)"@
    } else {
        s
    }
}

/// A section that was read from one file.
pub open spec fn file_section(title: Seq<char>, path: Seq<char>, body: Seq<char>) -> Seq<char> {
    title + "\n["@ + path + "]\n"@ + body
}

/// Executable form of [`file_section`].
pub fn render_file_section(title: &str, path: &str, body: &str) -> (out: String)
    ensures
        out@ == file_section(title@, path@, body@),
{
    let mut out = String::from_str(title);
    out.append("\n[");
    out.append(path);
    out.append("]\n");
    out.append(body);
    out
}

/// A section that was read from several files.
pub open spec fn files_section(title: Seq<char>, paths: Seq<Seq<char>>, body: Seq<char>) -> Seq<char> {
    title + "\n"@ + paths_block(paths) + "\n"@ + body
}

/// Executable form of [`files_section`].
pub fn render_files_section(title: &str, paths: &Vec<String>, body: &str) -> (out: String)
    ensures
        out@ == files_section(title@, texts(paths@), body@),
{
    let mut out = String::from_str(title);
    out.append("\n");
    out.append(render_paths_block(paths).as_str());
    out.append("\n");
    out.append(body);
    out
}

/// One day of a list of recent days: a heading with the date, the files,
/// and the content.
pub open spec fn day_section(entry: RecentDailySection) -> Seq<char> {
    if joined(bracketed(texts(entry.paths@)), "\n"@).len() == 0 {
        "### "@ + entry.date@ + "\n"@ + entry.content@
    } else {
        "### "@ + entry.date@ + "\n"@ + joined(bracketed(texts(entry.paths@)), "\n"@) + "\n"@
            + entry.content@
    }
}

/// The sections of the first `n` days.
pub open spec fn day_sections(entries: Seq<RecentDailySection>, n: int) -> Seq<Seq<char>> {
    Seq::new(n as nat, |i: int| day_section(entries[i]))
}

/// A list of recent days as text: a section for each day, with an empty
/// line between each two; `(none)` where there is no day.
pub open spec fn recent_days(entries: Seq<RecentDailySection>) -> Seq<char> {
    if entries.len() == 0 {
        "(none)"@
    } else {
        joined(day_sections(entries, entries.len() as int), "\n\n"@)
    }
}

/// Writes a list of recent days as text. The paths of each day are those of
/// the files that exist.
pub fn render_recent_daily_sections(entries: &Vec<RecentDailySection>) -> (out: String)
    ensures
        out@ == recent_days(entries@),
{
    if entries.len() == 0 {
        return String::from_str("(none)");
    }
    let mut sections: Vec<String> = Vec::new();
    let mut i: usize = 0;
    assert(texts(sections@) =~= day_sections(entries@, 0));
    while i < entries.len()
        invariant
            i <= entries.len(),
            texts(sections@) == day_sections(entries@, i as int),
        decreases entries.len() - i,
    {
        let ghost before = texts(sections@);
        let block = render_paths_block(&entries[i].paths);
        let mut section = String::from_str("### ");
        section.append(entries[i].date.as_str());
        section.append("\n");
        section.append(block.as_str());
        section.append(entries[i].content.as_str());
        assert(section@ =~= day_section(entries@[i as int]));
        sections.push(section);
        assert(texts(sections@) =~= before.push(day_section(entries@[i as int])));
        assert(texts(sections@) =~= day_sections(entries@, i + 1));
        i = i + 1;
    }
    join_texts(&sections, "\n\n")
}

/// What an agent knows of itself, as text: identity, soul and memories.
pub open spec fn agent_sections(
    identity_path: Seq<char>,
    identity: Seq<char>,
    soul_path: Seq<char>,
    soul: Seq<char>,
    memories_paths: Seq<Seq<char>>,
    memories: Seq<char>,
) -> Seq<char> {
    file_section("== Agent Identity =="@, identity_path, or_none(identity)) + "\n\n"@
        + file_section("== Agent Soul =="@, soul_path, or_none(soul)) + "\n\n"@ + files_section(
        "== Agent Memories =="@,
        memories_paths,
        or_none(memories),
    )
}

/// Writes what an agent knows of itself. The paths are given as they are to
/// be shown.
pub fn render_agent_sections(
    identity_path: &str,
    identity_content: &str,
    soul_path: &str,
    soul_content: &str,
    memories_paths: &Vec<String>,
    memories_content: &str,
) -> (out: String)
    ensures
        out@ == agent_sections(
            identity_path@,
            identity_content@,
            soul_path@,
            soul_content@,
            texts(memories_paths@),
            memories_content@,
        ),
{
    let mut out = render_file_section(
        "== Agent Identity ==",
        identity_path,
        empty_as_na(identity_content).as_str(),
    );
    out.append("\n\n");
    out.append(
        render_file_section("== Agent Soul ==", soul_path, empty_as_na(soul_content).as_str()).as_str(),
    );
    out.append("\n\n");
    out.append(
        render_files_section(
            "== Agent Memories ==",
            memories_paths,
            empty_as_na(memories_content).as_str(),
        ).as_str(),
    );
    out
}

/// All that a day's snapshot shows.
#[derive(Debug, Clone)]
pub struct TodayJson {
    pub date: String,
    pub agent_identity: String,
    pub agent_identity_path: String,
    pub agent_soul: String,
    pub agent_soul_path: String,
    pub owner_profile: String,
    pub owner_profile_path: String,
    pub owner_preferences: String,
    pub owner_preferences_path: String,
    pub owner_diary: String,
    pub owner_diary_path: String,
    pub owner_diary_paths: Vec<String>,
    pub owner_diary_recent: Vec<RecentDailySection>,
    pub open_tasks: String,
    pub open_tasks_paths: Vec<String>,
    pub activity: String,
    pub activity_paths: Vec<String>,
    pub activity_recent: Vec<RecentDailySection>,
    pub agent_memories: String,
    pub agent_memories_paths: Vec<String>,
}

/// The closing line of the section of memories.
pub open spec fn memory_hint() -> Seq<char> {
    "\n\n_Use `amem set memory` command to keep your own memory._"@
}

/// The section of the agent's memories.
pub open spec fn memories_section(today: TodayJson) -> Seq<char> {
    if today.agent_memories@.len() == 0 {
        "== Agent Memories ==\n(none)"@ + memory_hint()
    } else {
        files_section(
            "== Agent Memories =="@,
            texts(today.agent_memories_paths@),
            today.agent_memories@ + memory_hint(),
        )
    }
}

/// The sections of a snapshot, in order: identity and soul where they are
/// not empty, memories, the owner's profile, the owner's preferences where
/// they say something, the owner's diary, the open tasks, the activities.
pub open spec fn snapshot_sections(today: TodayJson) -> Seq<Seq<char>> {
    (if today.agent_identity@.len() > 0 {
        seq![
            file_section("== Agent Identity =="@, today.agent_identity_path@, today.agent_identity@),
        ]
    } else {
        Seq::empty()
    }) + (if today.agent_soul@.len() > 0 {
        seq![file_section("== Agent Soul =="@, today.agent_soul_path@, today.agent_soul@)]
    } else {
        Seq::empty()
    }) + seq![
        memories_section(today),
        file_section("== Owner Profile =="@, today.owner_profile_path@, or_none(today.owner_profile@)),
    ] + (if meaningful_from(today.owner_preferences@, 0) {
        seq![
            file_section(
                "== Owner Preferences =="@,
                today.owner_preferences_path@,
                or_none(today.owner_preferences@),
            ),
        ]
    } else {
        Seq::empty()
    }) + seq![
        "== Owner Diary ==\n"@ + recent_days(today.owner_diary_recent@),
        files_section(
            "== Agent Tasks =="@,
            texts(today.open_tasks_paths@),
            or_none(today.open_tasks@),
        ),
        "== Agent Activities ==\n"@ + recent_days(today.activity_recent@),
    ]
}

/// Writes the snapshot of a day: its sections with an empty line between
/// each two. The paths of memories and tasks are those of the files that
/// exist.
pub fn render_today_snapshot(today: &TodayJson) -> (out: String)
    ensures
        out@ == joined(snapshot_sections(*today), "\n\n"@),
{
    let mut sections: Vec<String> = Vec::new();
    let ghost mut done: Seq<Seq<char>> = Seq::empty();
    assert(texts(sections@) =~= done);
    if !today.agent_identity.as_str().is_empty() {
        let s = render_file_section(
            "== Agent Identity ==",
            today.agent_identity_path.as_str(),
            today.agent_identity.as_str(),
        );
        proof {
            done = done.push(s@);
        }
        sections.push(s);
        assert(texts(sections@) =~= done);
    }
    if !today.agent_soul.as_str().is_empty() {
        let s = render_file_section(
            "== Agent Soul ==",
            today.agent_soul_path.as_str(),
            today.agent_soul.as_str(),
        );
        proof {
            done = done.push(s@);
        }
        sections.push(s);
        assert(texts(sections@) =~= done);
    }
    let memories = if today.agent_memories.as_str().is_empty() {
        let mut s = String::from_str("== Agent Memories ==\n(none)");
        s.append("\n\n_Use `amem set memory` command to keep your own memory._");
        s
    } else {
        let mut body = today.agent_memories.clone();
        body.append("\n\n_Use `amem set memory` command to keep your own memory._");
        render_files_section("== Agent Memories ==", &today.agent_memories_paths, body.as_str())
    };
    let profile = render_file_section(
        "== Owner Profile ==",
        today.owner_profile_path.as_str(),
        empty_as_na(today.owner_profile.as_str()).as_str(),
    );
    proof {
        done = done.push(memories@).push(profile@);
    }
    sections.push(memories);
    sections.push(profile);
    assert(texts(sections@) =~= done);
    if has_meaningful_owner_preferences(today.owner_preferences.as_str()) {
        let s = render_file_section(
            "== Owner Preferences ==",
            today.owner_preferences_path.as_str(),
            empty_as_na(today.owner_preferences.as_str()).as_str(),
        );
        proof {
            done = done.push(s@);
        }
        sections.push(s);
        assert(texts(sections@) =~= done);
    }
    let mut diary = String::from_str("== Owner Diary ==\n");
    diary.append(render_recent_daily_sections(&today.owner_diary_recent).as_str());
    let tasks = render_files_section(
        "== Agent Tasks ==",
        &today.open_tasks_paths,
        empty_as_na(today.open_tasks.as_str()).as_str(),
    );
    let mut activities = String::from_str("== Agent Activities ==\n");
    activities.append(render_recent_daily_sections(&today.activity_recent).as_str());
    proof {
        done = done.push(diary@).push(tasks@).push(activities@);
    }
    sections.push(diary);
    sections.push(tasks);
    sections.push(activities);
    assert(texts(sections@) =~= done);
    assert(done =~= snapshot_sections(*today));
    join_texts(&sections, "\n\n")
}

} // verus!
