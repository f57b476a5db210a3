//! The lines of a task log.
use crate::entries::{body_end, body_start, is_bullet};
use crate::notes::{all_hex, is_ascii_hexdigit, is_hex_digit, is_word, same_ignoring_case};
use crate::render::{join_texts, joined};
use crate::text::{
    chars_of, find_char, index_of, skip_spaces, string_from_chars, string_of, trim_range,
    trimmed_range,
};
use crate::tokens::texts;
use chrono::NaiveDateTime;
use vstd::prelude::*;

verus! {

/// What a line of a task log says.
#[derive(Debug, Clone)]
pub struct ParsedTaskLine {
    /// When the task was written down, `YYYY-MM-DD HH:MM`.
    pub timestamp: Option<String>,
    /// The task's short hash, in lower case.
    pub hash: Option<String>,
    pub text: String,
}

impl ParsedTaskLine {
    /// Puts the fields together.
    pub fn new(timestamp: Option<String>, hash: Option<String>, text: String) -> (parsed:
        ParsedTaskLine)
        ensures
            parsed.timestamp == timestamp,
            parsed.hash == hash,
            parsed.text == text,
    {
        ParsedTaskLine { timestamp, hash, text }
    }
}

/// Whether chrono reads `token` as a day and a time of day to the minute,
/// written as `%Y-%m-%d %H:%M`.
pub uninterp spec fn is_minute_stamp(token: Seq<char>) -> bool;

/// `NaiveDateTime::parse_from_str` of chrono with the format
/// `%Y-%m-%d %H:%M`: whether it accepts `token`. The contract only names the
/// result.
#[verifier::external_body]
fn parses_as_minute_stamp(token: &str) -> (ok: bool)
    ensures
        ok == is_minute_stamp(token@),
{
    NaiveDateTime::parse_from_str(token, "%Y-%m-%d %H:%M").is_ok()
}

/// Where the first token in brackets of the bullet line `s` closes.
pub open spec fn first_close(s: Seq<char>) -> int {
    index_of(s, body_start(s) + 1, body_end(s), ']')
}

/// Whether the body of the bullet line `s` starts with a token in brackets.
pub open spec fn has_first_token(s: Seq<char>) -> bool {
    is_bullet(s) && body_start(s) < body_end(s) && s[body_start(s)] == '[' && first_close(s)
        < body_end(s)
}

/// The first token in brackets of the bullet line `s`, trimmed.
pub open spec fn first_token(s: Seq<char>) -> Seq<char> {
    trimmed_range(s, body_start(s) + 1, first_close(s))
}

/// Where the body of the bullet line `s` goes on after its first token.
pub open spec fn after_first(s: Seq<char>) -> int {
    skip_spaces(s, first_close(s) + 1, body_end(s))
}

/// Where the second token in brackets of the bullet line `s` closes.
pub open spec fn second_close(s: Seq<char>) -> int {
    index_of(s, after_first(s) + 1, body_end(s), ']')
}

/// Whether a hash in brackets follows the first token of the bullet line
/// `s`: a token of hexadecimal digits alone.
pub open spec fn has_hash(s: Seq<char>) -> bool {
    after_first(s) < body_end(s) && s[after_first(s)] == '[' && second_close(s) < body_end(s)
        && all_hex(trimmed_range(s, after_first(s) + 1, second_close(s)))
}

/// The hexadecimal digit `c` in lower case.
pub open spec fn lower_hex(c: char) -> char {
    if c == 'A' {
        'a'
    } else if c == 'B' {
        'b'
    } else if c == 'C' {
        'c'
    } else if c == 'D' {
        'd'
    } else if c == 'E' {
        'e'
    } else if c == 'F' {
        'f'
    } else {
        c
    }
}

/// The hexadecimal digits `s` in lower case.
pub open spec fn lowered_hex(s: Seq<char>) -> Seq<char> {
    Seq::new(s.len(), |i: int| lower_hex(s[i]))
}

/// Where the text of the task starts in the bullet line `s`, whose first
/// token is a time stamp if `stamped` says so.
pub open spec fn text_start(s: Seq<char>, stamped: bool) -> int {
    if has_first_token(s) && stamped {
        if has_hash(s) {
            skip_spaces(s, second_close(s) + 1, body_end(s))
        } else {
            after_first(s)
        }
    } else {
        body_start(s)
    }
}

/// What the line `s` of a task log says, where `stamped` tells whether its
/// first token in brackets is a time stamp: the time stamp, the hash that
/// follows it, and the text. `None` where the line is no bullet line or has
/// no text.
pub open spec fn task_line(s: Seq<char>, stamped: bool) -> Option<
    (Option<Seq<char>>, Option<Seq<char>>, Seq<char>),
> {
    if is_bullet(s) && body_start(s) < body_end(s) && text_start(s, stamped) < body_end(s) {
        Some(
            (
                if has_first_token(s) && stamped {
                    Some(first_token(s))
                } else {
                    None
                },
                if has_first_token(s) && stamped && has_hash(s) {
                    Some(lowered_hex(trimmed_range(s, after_first(s) + 1, second_close(s))))
                } else {
                    None
                },
                s.subrange(text_start(s, stamped), body_end(s)),
            ),
        )
    } else {
        None
    }
}

/// What a parsed line holds, as texts.
pub open spec fn parsed_view(p: ParsedTaskLine) -> (Option<Seq<char>>, Option<Seq<char>>, Seq<char>) {
    (
        match p.timestamp {
            Some(t) => Some(t@),
            None => None,
        },
        match p.hash {
            Some(h) => Some(h@),
            None => None,
        },
        p.text@,
    )
}

/// The hexadecimal digits at `[from, to)` of `v` in lower case, or `None`
/// where something else stands there.
fn hex_in_lower_case(v: &Vec<char>, from: usize, to: usize) -> (r: Option<Vec<char>>)
    requires
        from <= to <= v.len(),
    ensures
        r is Some == all_hex(v@.subrange(from as int, to as int)),
        r is Some ==> (r->0)@ == lowered_hex(v@.subrange(from as int, to as int)),
{
    let ghost s = v@.subrange(from as int, to as int);
    let mut out: Vec<char> = Vec::new();
    let mut i: usize = from;
    while i < to
        invariant
            from <= i <= to <= v.len(),
            s == v@.subrange(from as int, to as int),
            out@.len() == i - from,
            forall|j: int| 0 <= j < i - from ==> is_hex_digit(#[trigger] s[j]) && out@[j] == lower_hex(s[j]),
        decreases to - i,
    {
        let c: char = v[i];
        assert(s[i - from] == c);
        if !is_ascii_hexdigit(c) {
            return None;
        }
        let low: char = if c == 'A' {
            'a'
        } else if c == 'B' {
            'b'
        } else if c == 'C' {
            'c'
        } else if c == 'D' {
            'd'
        } else if c == 'E' {
            'e'
        } else if c == 'F' {
            'f'
        } else {
            c
        };
        out.push(low);
        i = i + 1;
    }
    assert(out@ =~= lowered_hex(s));
    Some(out)
}

/// The first token in brackets of a line of a task log, where its body
/// starts with one.
pub fn leading_token(line: &str) -> (r: Option<String>)
    ensures
        r is Some == has_first_token(line@),
        r is Some ==> (r->0)@ == first_token(line@),
{
    let v = chars_of(line);
    if v.len() < 2 || v[0] != '-' || v[1] != ' ' {
        return None;
    }
    let (a, b) = trim_range(&v, 2, v.len());
    if a >= b || v[a] != '[' {
        return None;
    }
    let close: usize = find_char(&v, a + 1, b, ']');
    if close >= b {
        return None;
    }
    let (x, y) = trim_range(&v, a + 1, close);
    Some(string_of(&v, x, y))
}

/// Reads a line of a task log, given whether its first token in brackets
/// is a time stamp.
pub fn parse_task_line_with(line: &str, stamped: bool) -> (r: Option<ParsedTaskLine>)
    ensures
        match r {
            Some(parsed) => task_line(line@, stamped) == Some(parsed_view(parsed)),
            None => task_line(line@, stamped) is None,
        },
{
    let v = chars_of(line);
    if v.len() < 2 || v[0] != '-' || v[1] != ' ' {
        return None;
    }
    let (a, b) = trim_range(&v, 2, v.len());
    if a >= b {
        return None;
    }
    let mut timestamp: Option<String> = None;
    let mut hash: Option<String> = None;
    let mut rest: usize = a;
    if stamped && v[a] == '[' {
        let close: usize = find_char(&v, a + 1, b, ']');
        if close < b {
            let (x, y) = trim_range(&v, a + 1, close);
            timestamp = Some(string_of(&v, x, y));
            let (after, _) = trim_range(&v, close + 1, b);
            rest = after;
            if after < b && v[after] == '[' {
                let close2: usize = find_char(&v, after + 1, b, ']');
                if close2 < b {
                    let (p, q) = trim_range(&v, after + 1, close2);
                    match hex_in_lower_case(&v, p, q) {
                        Some(digits) => {
                            hash = Some(string_from_chars(&digits));
                            let (after2, _) = trim_range(&v, close2 + 1, b);
                            rest = after2;
                        },
                        None => {},
                    }
                }
            }
        }
    }
    if rest >= b {
        return None;
    }
    Some(ParsedTaskLine::new(timestamp, hash, string_of(&v, rest, b)))
}

/// Reads a line of a task log: `- [time stamp] [hash] text`, where the time
/// stamp and the hash may be missing. A first token that is no time stamp
/// belongs to the text.
pub fn parse_task_line(line: &str) -> (r: Option<ParsedTaskLine>)
    ensures
        match r {
            Some(parsed) => task_line(
                line@,
                has_first_token(line@) && is_minute_stamp(first_token(line@)),
            ) == Some(parsed_view(parsed)),
            None => task_line(
                line@,
                has_first_token(line@) && is_minute_stamp(first_token(line@)),
            ) is None,
        },
{
    let stamped = match leading_token(line) {
        Some(token) => parses_as_minute_stamp(token.as_str()),
        None => false,
    };
    parse_task_line_with(line, stamped)
}

/// What `set tasks` is asked to do.
#[derive(Debug, Clone)]
pub enum TaskCommand {
    /// Write a task down.
    Add { text: String },
    /// Move the task that the selector names to the finished ones.
    Done { selector: String },
}

/// Why `set tasks` cannot tell what to do.
#[derive(Debug, Clone, Copy, PartialEq, Eq)]
pub enum TaskArgsError {
    MissingArgs,
    MissingSelector,
}

impl TaskArgsError {
    /// What to tell the user.
    pub fn message(&self) -> (m: String)
        ensures
            m@ == match *self {
                TaskArgsError::MissingArgs => "missing task args. use: amem set tasks <task> | amem set tasks done <hash|text>"@,
                TaskArgsError::MissingSelector => "missing task selector. use: amem set tasks done <hash|text>"@,
            },
    {
        match self {
            TaskArgsError::MissingArgs => String::from_str(
                "missing task args. use: amem set tasks <task> | amem set tasks done <hash|text>",
            ),
            TaskArgsError::MissingSelector => String::from_str(
                "missing task selector. use: amem set tasks done <hash|text>",
            ),
        }
    }
}

/// Whether the arguments of `set tasks` ask to finish a task: the first one
/// is the word `done`, in any case.
pub open spec fn asks_done(args: Seq<Seq<char>>) -> bool {
    args.len() > 0 && same_ignoring_case(args[0], "done"@)
}

/// Tells what the arguments of `set tasks` ask for: after the word `done`,
/// the rest names the task to finish; else all of them are the text of a
/// new task. Arguments are put together with one space between each two.
pub fn cmd_set_tasks(args: Vec<String>) -> (r: Result<TaskCommand, TaskArgsError>)
    ensures
        match r {
            Ok(TaskCommand::Done { selector }) => asks_done(texts(args@)) && args.len() >= 2
                && selector@ == joined(texts(args@).skip(1), " "@),
            Ok(TaskCommand::Add { text }) => args.len() > 0 && !asks_done(texts(args@)) && text@
                == joined(texts(args@), " "@),
            Err(TaskArgsError::MissingArgs) => args.len() == 0,
            Err(TaskArgsError::MissingSelector) => asks_done(texts(args@)) && args.len() < 2,
        },
{
    if args.len() == 0 {
        return Err(TaskArgsError::MissingArgs);
    }
    let first = chars_of(args[0].as_str());
    assert(first@.subrange(0, first@.len() as int) =~= first@);
    assert(texts(args@)[0] == args@[0]@);
    if is_word(&first, 0, first.len(), "done") {
        if args.len() < 2 {
            return Err(TaskArgsError::MissingSelector);
        }
        let mut rest: Vec<String> = Vec::new();
        let mut i: usize = 1;
        assert(texts(rest@) =~= texts(args@).skip(1).take(0));
        while i < args.len()
            invariant
                1 <= i <= args.len(),
                texts(rest@) == texts(args@).skip(1).take(i - 1),
            decreases args.len() - i,
        {
            let ghost before = texts(rest@);
            rest.push(args[i].clone());
            assert(texts(rest@) =~= before.push(args@[i as int]@));
            assert(texts(rest@) =~= texts(args@).skip(1).take(i as int));
            i = i + 1;
        }
        assert(texts(args@).skip(1).take(args.len() - 1) =~= texts(args@).skip(1));
        return Ok(TaskCommand::Done { selector: join_texts(&rest, " ") });
    }
    Ok(TaskCommand::Add { text: join_texts(&args, " ") })
}

} // verus!
