//! The entries of diaries and activity logs: one bullet line each.
use crate::notes::{is_hhmm_at, is_hhmm_text};
use crate::text::{
    chars_of, drop_spaces, find_char, index_of, skip_spaces, string_of, trim_range, trimmed_range,
};
use vstd::prelude::*;

verus! {

/// An entry of the owner's diary.
#[derive(Debug, Clone)]
pub struct DiaryEntry {
    /// Day and time of day, `YYYY-MM-DD HH:MM`.
    pub timestamp: String,
    pub text: String,
    /// The file that holds the entry.
    pub path: String,
}

impl DiaryEntry {
    /// Puts the fields together.
    pub fn new(timestamp: String, text: String, path: String) -> (entry: DiaryEntry)
        ensures
            entry.timestamp == timestamp,
            entry.text == text,
            entry.path == path,
    {
        DiaryEntry { timestamp, text, path }
    }
}

/// An entry of an activity log.
#[derive(Debug, Clone)]
pub struct ActivityEntry {
    /// Day and time of day, `YYYY-MM-DD HH:MM`.
    pub timestamp: String,
    /// Who made the entry, where the line says so in brackets.
    pub source: Option<String>,
    pub text: String,
    /// The file that holds the entry.
    pub path: String,
}

impl ActivityEntry {
    /// Puts the fields together.
    pub fn new(timestamp: String, source: Option<String>, text: String, path: String) -> (entry:
        ActivityEntry)
        ensures
            entry.timestamp == timestamp,
            entry.source == source,
            entry.text == text,
            entry.path == path,
    {
        ActivityEntry { timestamp, source, text, path }
    }
}

/// Whether `s` is a bullet line: it starts with `- `.
pub open spec fn is_bullet(s: Seq<char>) -> bool {
    s.len() >= 2 && s[0] == '-' && s[1] == ' '
}

/// Where the body of the bullet line `s` starts: after the marker and the
/// white space that follows it.
pub open spec fn body_start(s: Seq<char>) -> int {
    skip_spaces(s, 2, s.len() as int)
}

/// Where the body of the bullet line `s` ends: before the white space at
/// the end of the line.
pub open spec fn body_end(s: Seq<char>) -> int {
    drop_spaces(s, body_start(s), s.len() as int)
}

/// Whether the body of the bullet line `s` starts with a time of day.
pub open spec fn is_timed(s: Seq<char>) -> bool {
    body_start(s) + 5 <= body_end(s) && is_hhmm_text(s.subrange(body_start(s), body_start(s) + 5))
}

/// The time of day of the bullet line `s`: the one that its body starts
/// with, or midnight.
pub open spec fn entry_time(s: Seq<char>) -> Seq<char> {
    if is_timed(s) {
        s.subrange(body_start(s), body_start(s) + 5)
    } else {
        "00:00"@
    }
}

/// Where the body of the bullet line `s` goes on after its time of day.
pub open spec fn after_time(s: Seq<char>) -> int {
    if is_timed(s) {
        skip_spaces(s, body_start(s) + 5, body_end(s))
    } else {
        body_start(s)
    }
}

/// The diary entry that the line `s` of the day `date` makes: time stamp and
/// text. `None` where the line is no bullet line or has no text.
pub open spec fn diary_entry(s: Seq<char>, date: Seq<char>) -> Option<(Seq<char>, Seq<char>)> {
    if is_bullet(s) && after_time(s) < body_end(s) {
        Some((date + " "@ + entry_time(s), s.subrange(after_time(s), body_end(s))))
    } else {
        None
    }
}

/// The time of day and the rest of a bullet line.
fn split_time(v: &Vec<char>) -> (r: (String, usize, usize))
    requires
        is_bullet(v@),
    ensures
        r.0@ == entry_time(v@),
        r.1 == after_time(v@),
        r.2 == body_end(v@),
        2 <= r.1 <= r.2 <= v.len(),
        body_start(v@) == body_end(v@) ==> r.1 == r.2,
{
    let n: usize = v.len();
    let (a, b) = trim_range(v, 2, n);
    if b - a >= 5 && is_hhmm_at(v, a) {
        let (rest, _) = trim_range(v, a + 5, b);
        (string_of(v, a, a + 5), rest, b)
    } else {
        (String::from_str("00:00"), a, b)
    }
}

/// Reads a line of a diary file of the day `date`, given as `YYYY-MM-DD`.
pub fn parse_diary_line(date: &str, line: &str, path: &str) -> (r: Option<DiaryEntry>)
    ensures
        match r {
            Some(entry) => diary_entry(line@, date@) == Some((entry.timestamp@, entry.text@))
                && entry.path@ == path@,
            None => diary_entry(line@, date@) is None,
        },
{
    let v = chars_of(line);
    if v.len() < 2 || v[0] != '-' || v[1] != ' ' {
        return None;
    }
    let (time, from, to) = split_time(&v);
    if from >= to {
        return None;
    }
    let mut timestamp = String::from_str(date);
    timestamp.append(" ");
    timestamp.append(time.as_str());
    Some(DiaryEntry::new(timestamp, string_of(&v, from, to), String::from_str(path)))
}

/// Where the source of the bullet line `s` ends: at the first `]` after the
/// `[` that its body goes on with after the time; -1 where it names none.
pub open spec fn source_end(s: Seq<char>) -> int {
    let r = after_time(s);
    if r < body_end(s) && s[r] == '[' && index_of(s, r + 1, body_end(s), ']') < body_end(s) {
        index_of(s, r + 1, body_end(s), ']')
    } else {
        -1
    }
}

/// The source that the bullet line `s` names, where it names one that is
/// not blank.
pub open spec fn entry_source(s: Seq<char>) -> Option<Seq<char>> {
    if source_end(s) >= 0 && trimmed_range(s, after_time(s) + 1, source_end(s)).len() > 0 {
        Some(trimmed_range(s, after_time(s) + 1, source_end(s)))
    } else {
        None
    }
}

/// The text of the activity that the bullet line `s` records.
pub open spec fn activity_text(s: Seq<char>) -> Seq<char> {
    if source_end(s) >= 0 {
        trimmed_range(s, source_end(s) + 1, body_end(s))
    } else {
        s.subrange(after_time(s), body_end(s))
    }
}

/// The activity entry that the line `s` of the day `date` makes: time stamp,
/// source and text. `None` where the line is no bullet line or has no text.
pub open spec fn activity_entry(s: Seq<char>, date: Seq<char>) -> Option<
    (Seq<char>, Option<Seq<char>>, Seq<char>),
> {
    if is_bullet(s) && body_start(s) < body_end(s) && activity_text(s).len() > 0 {
        Some((date + " "@ + entry_time(s), entry_source(s), activity_text(s)))
    } else {
        None
    }
}

/// Reads a line of an activity log of the day `date`, given as
/// `YYYY-MM-DD`.
pub fn parse_activity_line(date: &str, line: &str, path: &str) -> (r: Option<ActivityEntry>)
    ensures
        match r {
            Some(entry) => activity_entry(line@, date@) == Some(
                (
                    entry.timestamp@,
                    match entry.source {
                        Some(s) => Some(s@),
                        None => None,
                    },
                    entry.text@,
                ),
            ) && entry.path@ == path@,
            None => activity_entry(line@, date@) is None,
        },
{
    let v = chars_of(line);
    if v.len() < 2 || v[0] != '-' || v[1] != ' ' {
        return None;
    }
    let (a0, b0) = trim_range(&v, 2, v.len());
    if a0 >= b0 {
        return None;
    }
    let (time, from, to) = split_time(&v);
    let mut source: Option<String> = None;
    let mut text_from: usize = from;
    let mut text_to: usize = to;
    if from < to && v[from] == '[' {
        let end: usize = find_char(&v, from + 1, to, ']');
        if end < to {
            let (sa, sb) = trim_range(&v, from + 1, end);
            if sa < sb {
                source = Some(string_of(&v, sa, sb));
            }
            let (ta, tb) = trim_range(&v, end + 1, to);
            text_from = ta;
            text_to = tb;
        }
    }
    if text_from >= text_to {
        return None;
    }
    let mut timestamp = String::from_str(date);
    timestamp.append(" ");
    timestamp.append(time.as_str());
    Some(
        ActivityEntry::new(
            timestamp,
            source,
            string_of(&v, text_from, text_to),
            String::from_str(path),
        ),
    )
}

} // verus!
