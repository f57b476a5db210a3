//! Listing the files of a memory directory: by kind, by day and by pattern.
use crate::notes::{is_text, starts_with};
use crate::text::{chars_of, contains, find_in};
use crate::tokens::texts;
use globset::{Glob, GlobSetBuilder};
use vstd::prelude::*;

verus! {

/// Whether globset takes `pattern` for a glob, and builds a set of it.
pub uninterp spec fn is_glob(pattern: Seq<char>) -> bool;

/// Whether the glob `pattern` of globset matches the path `path`.
pub uninterp spec fn glob_accepts(pattern: Seq<char>, path: Seq<char>) -> bool;

/// `Glob::new` of globset, `GlobSetBuilder::build` for the set of that one
/// glob, and `GlobSet::is_match` of the set on `path`: `None` where the
/// pattern is refused, else whether the set matches. The contract only names
/// the results.
#[verifier::external_body]
fn glob_match(pattern: &str, path: &str) -> (r: Option<bool>)
    ensures
        match r {
            Some(matched) => is_glob(pattern@) && matched == glob_accepts(pattern@, path@),
            None => !is_glob(pattern@),
        },
{
    match Glob::new(pattern) {
        Ok(glob) => match GlobSetBuilder::new().add(glob).build() {
            Ok(set) => Some(set.is_match(path)),
            Err(_) => None,
        },
        Err(_) => None,
    }
}

/// A pattern that is no glob.
#[derive(Debug, Clone)]
pub struct InvalidGlob {
    pub pattern: String,
}

impl InvalidGlob {
    /// What to tell the user.
    pub fn message(&self) -> (m: String)
        ensures
            m@ == "invalid glob: "@ + self.pattern@,
    {
        let mut m = String::from_str("invalid glob: ");
        m.append(self.pattern.as_str());
        m
    }
}

/// Whether the file at `path` is of the kind `kind`: the kinds are `owner`,
/// `activity`, `tasks` and `inbox`, and a file is of the kind in whose
/// directory it lies; no file is of any other kind.
pub open spec fn is_of_kind(path: Seq<char>, kind: Seq<char>) -> bool {
    if kind == "owner"@ {
        starts_with(path, "owner/"@)
    } else if kind == "activity"@ {
        starts_with(path, "agent/activity/"@) || starts_with(path, "activity/"@)
    } else if kind == "tasks"@ {
        starts_with(path, "agent/tasks/"@) || starts_with(path, "tasks/"@)
    } else if kind == "inbox"@ {
        starts_with(path, "agent/inbox/"@) || starts_with(path, "inbox/"@)
    } else {
        false
    }
}

/// Whether `path` starts with the text `prefix`.
fn has_prefix(path: &Vec<char>, prefix: &str) -> (b: bool)
    ensures
        b == starts_with(path@, prefix@),
{
    let p = chars_of(prefix);
    if p.len() > path.len() {
        return false;
    }
    is_text(path, 0, p.len(), &p)
}

/// Whether `kind` is the word `word`.
fn is_kind(kind: &Vec<char>, word: &str) -> (b: bool)
    ensures
        b == (kind@ == word@),
{
    let w = chars_of(word);
    let same = is_text(kind, 0, kind.len(), &w);
    assert(kind@.subrange(0, kind@.len() as int) =~= kind@);
    same
}

/// Executable form of [`is_of_kind`].
pub fn path_is_of_kind(path: &str, kind: &str) -> (b: bool)
    ensures
        b == is_of_kind(path@, kind@),
{
    let p = chars_of(path);
    let k = chars_of(kind);
    if is_kind(&k, "owner") {
        has_prefix(&p, "owner/")
    } else if is_kind(&k, "activity") {
        has_prefix(&p, "agent/activity/") || has_prefix(&p, "activity/")
    } else if is_kind(&k, "tasks") {
        has_prefix(&p, "agent/tasks/") || has_prefix(&p, "tasks/")
    } else if is_kind(&k, "inbox") {
        has_prefix(&p, "agent/inbox/") || has_prefix(&p, "inbox/")
    } else {
        false
    }
}

/// Whether a listing shows the file at `path`: it is of the kind asked
/// for, its path holds the day asked for, and the pattern asked for matches
/// it, as `matched` tells.
pub open spec fn is_listed(
    path: Seq<char>,
    kind: Option<Seq<char>>,
    date: Option<Seq<char>>,
    matched: bool,
) -> bool {
    (kind is Some ==> is_of_kind(path, kind->0)) && (date is Some ==> contains(path, date->0))
        && matched
}

/// Tells whether a listing shows the file at `path`, given whether the
/// pattern matches it.
pub fn entry_is_listed(path: &str, kind: Option<&str>, date: Option<&str>, matched: bool) -> (b: bool)
    ensures
        b == is_listed(
            path@,
            match kind {
                Some(k) => Some(k@),
                None => None,
            },
            match date {
                Some(d) => Some(d@),
                None => None,
            },
            matched,
        ),
{
    match kind {
        Some(k) => {
            if !path_is_of_kind(path, k) {
                return false;
            }
        },
        None => {},
    }
    match date {
        Some(d) => {
            let p = chars_of(path);
            let day = chars_of(d);
            if find_in(&p, 0, p.len(), &day).is_none() {
                return false;
            }
        },
        None => {},
    }
    matched
}

/// Whether the pattern asked for matches `path`: any path is matched where
/// no pattern is asked for.
pub open spec fn pattern_accepts(pattern: Option<Seq<char>>, path: Seq<char>) -> bool {
    pattern is Some ==> glob_accepts(pattern->0, path)
}

/// The files among the first `n` of `entries` that a listing shows.
pub open spec fn listed_upto(
    entries: Seq<Seq<char>>,
    pattern: Option<Seq<char>>,
    kind: Option<Seq<char>>,
    date: Option<Seq<char>>,
    n: int,
) -> Seq<Seq<char>>
    decreases n,
{
    if n <= 0 {
        Seq::empty()
    } else if is_listed(entries[n - 1], kind, date, pattern_accepts(pattern, entries[n - 1])) {
        listed_upto(entries, pattern, kind, date, n - 1).push(entries[n - 1])
    } else {
        listed_upto(entries, pattern, kind, date, n - 1)
    }
}

/// `s`, cut off after `limit` items where a limit is given.
pub open spec fn limited(s: Seq<Seq<char>>, limit: Option<usize>) -> Seq<Seq<char>> {
    if limit is Some && limit->0 < s.len() {
        s.take(limit->0 as int)
    } else {
        s
    }
}

/// Lists the files `entries`: those of the kind `kind`, whose path holds
/// `date`, and that the glob `pattern` matches, each filter only where it is
/// given; at most `limit` of them. The order is that of `entries`. A pattern
/// that is no glob is an error.
pub fn list_entries(
    entries: &Vec<String>,
    pattern: Option<&str>,
    kind: Option<&str>,
    date: Option<&str>,
    limit: Option<usize>,
) -> (r: Result<Vec<String>, InvalidGlob>)
    ensures
        match r {
            Ok(out) => (pattern is Some ==> is_glob((pattern->0)@)) && texts(out@) == limited(
                listed_upto(
                    texts(entries@),
                    match pattern {
                        Some(p) => Some(p@),
                        None => None,
                    },
                    match kind {
                        Some(k) => Some(k@),
                        None => None,
                    },
                    match date {
                        Some(d) => Some(d@),
                        None => None,
                    },
                    entries.len() as int,
                ),
                limit,
            ),
            Err(e) => pattern is Some && !is_glob((pattern->0)@) && e.pattern@ == (pattern->0)@,
        },
{
    match pattern {
        Some(p) => {
            // Tried on the empty path, to learn whether the pattern is a glob at all.
            if glob_match(p, "").is_none() {
                return Err(InvalidGlob { pattern: String::from_str(p) });
            }
        },
        None => {},
    }
    let ghost pattern_view: Option<Seq<char>> = match pattern {
        Some(p) => Some(p@),
        None => None,
    };
    let ghost kind_view: Option<Seq<char>> = match kind {
        Some(k) => Some(k@),
        None => None,
    };
    let ghost date_view: Option<Seq<char>> = match date {
        Some(d) => Some(d@),
        None => None,
    };
    let mut out: Vec<String> = Vec::new();
    let mut i: usize = 0;
    assert(texts(out@) =~= listed_upto(texts(entries@), pattern_view, kind_view, date_view, 0));
    while i < entries.len()
        invariant
            i <= entries.len(),
            pattern is Some ==> is_glob((pattern->0)@),
            pattern_view == (match pattern {
                Some(p) => Some(p@),
                None => None,
            }),
            kind_view == (match kind {
                Some(k) => Some(k@),
                None => None,
            }),
            date_view == (match date {
                Some(d) => Some(d@),
                None => None,
            }),
            texts(out@) == listed_upto(texts(entries@), pattern_view, kind_view, date_view, i as int),
        decreases entries.len() - i,
    {
        assert(texts(entries@)[i as int] == entries@[i as int]@);
        let matched: bool = match pattern {
            Some(p) => match glob_match(p, entries[i].as_str()) {
                Some(m) => m,
                None => false,
            },
            None => true,
        };
        if entry_is_listed(entries[i].as_str(), kind, date, matched) {
            let ghost before = texts(out@);
            out.push(entries[i].clone());
            assert(texts(out@) =~= before.push(entries@[i as int]@));
        }
        i = i + 1;
    }
    let ghost all = texts(out@);
    match limit {
        Some(n) => {
            out.truncate(n);
            assert(texts(out@) =~= limited(all, limit));
        },
        None => {},
    }
    Ok(out)
}

} // verus!
