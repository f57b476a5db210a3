//! Where the files of a memory directory lie. Paths are texts with `/`
//! between their components.
use crate::text::chars_of;
use std::path::Path;
use vstd::prelude::*;

verus! {

/// `base` extended by `part`: a `part` that starts at the root stands for
/// itself; otherwise it follows `base`, after a `/` unless `base` is empty
/// or ends with one.
pub open spec fn joined(base: Seq<char>, part: Seq<char>) -> Seq<char> {
    if part.len() > 0 && part[0] == '/' {
        part
    } else if base.len() == 0 || base.last() == '/' {
        base + part
    } else {
        base + seq!['/'] + part
    }
}

/// Executable form of [`joined`].
pub fn join_path(base: &str, part: &str) -> (path: String)
    ensures
        path@ == joined(base@, part@),
{
    let b = chars_of(base);
    let p = chars_of(part);
    if p.len() > 0 && p[0] == '/' {
        return String::from_str(part);
    }
    let mut path = String::from_str(base);
    if b.len() > 0 && b[b.len() - 1] != '/' {
        proof {
            reveal_strlit("/");
            assert("/"@ =~= seq!['/']);
        }
        path.append("/");
    }
    path.append(part);
    path
}

/// The log of open tasks.
pub fn agent_tasks_open_path(memory_dir: &str) -> (path: String)
    ensures
        path@ == joined(joined(joined(memory_dir@, "agent"@), "tasks"@), "open.md"@),
{
    let agent = join_path(memory_dir, "agent");
    let tasks = join_path(agent.as_str(), "tasks");
    join_path(tasks.as_str(), "open.md")
}

/// The log of open tasks, where older versions kept it.
pub fn legacy_tasks_open_path(memory_dir: &str) -> (path: String)
    ensures
        path@ == joined(joined(memory_dir@, "tasks"@), "open.md"@),
{
    let tasks = join_path(memory_dir, "tasks");
    join_path(tasks.as_str(), "open.md")
}

/// The log of finished tasks.
pub fn agent_tasks_done_path(memory_dir: &str) -> (path: String)
    ensures
        path@ == joined(joined(joined(memory_dir@, "agent"@), "tasks"@), "done.md"@),
{
    let agent = join_path(memory_dir, "agent");
    let tasks = join_path(agent.as_str(), "tasks");
    join_path(tasks.as_str(), "done.md")
}

/// The log of finished tasks, where older versions kept it.
pub fn legacy_tasks_done_path(memory_dir: &str) -> (path: String)
    ensures
        path@ == joined(joined(memory_dir@, "tasks"@), "done.md"@),
{
    let tasks = join_path(memory_dir, "tasks");
    join_path(tasks.as_str(), "done.md")
}

/// Every place where open tasks may lie, the current one first.
pub fn open_task_paths(memory_dir: &str) -> (paths: Vec<String>)
    ensures
        paths.len() == 2,
        paths[0]@ == joined(joined(joined(memory_dir@, "agent"@), "tasks"@), "open.md"@),
        paths[1]@ == joined(joined(memory_dir@, "tasks"@), "open.md"@),
{
    let mut paths: Vec<String> = Vec::new();
    paths.push(agent_tasks_open_path(memory_dir));
    paths.push(legacy_tasks_open_path(memory_dir));
    paths
}

/// Every place where finished tasks may lie, the current one first.
pub fn done_task_paths(memory_dir: &str) -> (paths: Vec<String>)
    ensures
        paths.len() == 2,
        paths[0]@ == joined(joined(joined(memory_dir@, "agent"@), "tasks"@), "done.md"@),
        paths[1]@ == joined(joined(memory_dir@, "tasks"@), "done.md"@),
{
    let mut paths: Vec<String> = Vec::new();
    paths.push(agent_tasks_done_path(memory_dir));
    paths.push(legacy_tasks_done_path(memory_dir));
    paths
}

/// The inbox of captured notes.
pub fn agent_inbox_captured_path(memory_dir: &str) -> (path: String)
    ensures
        path@ == joined(joined(joined(memory_dir@, "agent"@), "inbox"@), "captured.md"@),
{
    let agent = join_path(memory_dir, "agent");
    let inbox = join_path(agent.as_str(), "inbox");
    join_path(inbox.as_str(), "captured.md")
}

/// Where the memory `filename` lies if it has the priority `priority`.
pub open spec fn memory_path(memory_dir: Seq<char>, priority: Seq<char>, filename: Seq<char>) -> Seq<
    char,
> {
    joined(joined(joined(joined(memory_dir, "agent"@), "memory"@), priority), filename)
}

/// Executable form of [`memory_path`].
pub fn memory_file_path(memory_dir: &str, priority: &str, filename: &str) -> (path: String)
    ensures
        path@ == memory_path(memory_dir@, priority@, filename@),
{
    let agent = join_path(memory_dir, "agent");
    let memory = join_path(agent.as_str(), "memory");
    let level = join_path(memory.as_str(), priority);
    join_path(level.as_str(), filename)
}

/// Every place where the memory `filename` may lie: one for each priority,
/// the most urgent first.
pub fn memory_file_candidates(memory_dir: &str, filename: &str) -> (paths: Vec<String>)
    ensures
        paths.len() == 4,
        paths[0]@ == memory_path(memory_dir@, "P0"@, filename@),
        paths[1]@ == memory_path(memory_dir@, "P1"@, filename@),
        paths[2]@ == memory_path(memory_dir@, "P2"@, filename@),
        paths[3]@ == memory_path(memory_dir@, "P3"@, filename@),
{
    let mut paths: Vec<String> = Vec::new();
    paths.push(memory_file_path(memory_dir, "P0", filename));
    paths.push(memory_file_path(memory_dir, "P1", filename));
    paths.push(memory_file_path(memory_dir, "P2", filename));
    paths.push(memory_file_path(memory_dir, "P3", filename));
    paths
}

/// Where the memory `filename` was found, given for each priority whether
/// a file lies at its place: the place of the most urgent priority that has
/// one.
pub open spec fn found_memory(
    memory_dir: Seq<char>,
    filename: Seq<char>,
    present: Seq<bool>,
) -> Option<Seq<char>> {
    if present.len() > 0 && present[0] {
        Some(memory_path(memory_dir, "P0"@, filename))
    } else if present.len() > 1 && present[1] {
        Some(memory_path(memory_dir, "P1"@, filename))
    } else if present.len() > 2 && present[2] {
        Some(memory_path(memory_dir, "P2"@, filename))
    } else if present.len() > 3 && present[3] {
        Some(memory_path(memory_dir, "P3"@, filename))
    } else {
        None
    }
}

/// Finds the memory `filename`: `present` tells, for each place of
/// [`memory_file_candidates`] in order, whether a file lies there.
pub fn find_memory_file(memory_dir: &str, filename: &str, present: &Vec<bool>) -> (r: Option<String>)
    ensures
        match r {
            Some(path) => found_memory(memory_dir@, filename@, present@) == Some(path@),
            None => found_memory(memory_dir@, filename@, present@) is None,
        },
{
    if present.len() > 0 && present[0] {
        Some(memory_file_path(memory_dir, "P0", filename))
    } else if present.len() > 1 && present[1] {
        Some(memory_file_path(memory_dir, "P1", filename))
    } else if present.len() > 2 && present[2] {
        Some(memory_file_path(memory_dir, "P2", filename))
    } else if present.len() > 3 && present[3] {
        Some(memory_file_path(memory_dir, "P3", filename))
    } else {
        None
    }
}

/// What is left of the path `target` once the path `base` is taken off its
/// front, component by component; `None` where `target` does not start with
/// `base`.
pub uninterp spec fn without_prefix(base: Seq<char>, target: Seq<char>) -> Option<Seq<char>>;

/// `Path::strip_prefix` of the standard library, on paths given as texts.
/// The contract only names the result.
#[verifier::external_body]
fn strip_path_prefix(base: &str, target: &str) -> (rest: Option<String>)
    ensures
        match rest {
            Some(r) => without_prefix(base@, target@) == Some(r@),
            None => without_prefix(base@, target@) is None,
        },
{
    match Path::new(target).strip_prefix(Path::new(base)) {
        Ok(rest) => Some(String::from(rest.to_string_lossy())),
        Err(_) => None,
    }
}

/// How the path `target` is shown, given what is left of it without the
/// memory directory: that, or else the path itself.
pub fn shown_path(target: &str, rest: Option<String>) -> (shown: String)
    ensures
        shown@ == match rest {
            Some(r) => r@,
            None => target@,
        },
{
    match rest {
        Some(r) => r,
        None => String::from_str(target),
    }
}

/// The path `target` as it is shown: relative to the memory directory where
/// it lies in it, else as it is.
pub fn rel_or_abs(memory_dir: &str, target: &str) -> (shown: String)
    ensures
        shown@ == match without_prefix(memory_dir@, target@) {
            Some(r) => r,
            None => target@,
        },
{
    shown_path(target, strip_path_prefix(memory_dir, target))
}

} // verus!
