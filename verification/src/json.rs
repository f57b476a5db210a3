//! Looking a text up in the JSON that an assistant prints.
use crate::notes::{extract_copilot_session_id_from_share_path, shared_session_id};
use crate::text::{
    chars_of, find_char, index_of, is_space, is_whitespace, line_at, line_break, line_stop,
    string_of, trim_range, trimmed,
};
use crate::tokens::texts;
use vstd::prelude::*;

verus! {

/// A JSON value, as plain data. The members of an object stand in the order
/// of their names.
#[derive(Debug)]
pub enum JsonValue {
    Null,
    Bool(bool),
    /// A number, as JSON writes it.
    Number(String),
    Text(String),
    Array(Vec<JsonValue>),
    Object(Vec<JsonField>),
}

/// A member of a JSON object.
#[derive(Debug)]
pub struct JsonField {
    pub name: String,
    pub value: JsonValue,
}

/// `serde_json::Value`, known by name alone: nothing is said of what such a
/// value holds.
#[verifier::external_type_specification]
#[verifier::external_body]
pub struct ExJsonValue(serde_json::Value);

/// Turns a value of serde_json into plain data, variant by variant; the
/// members of an object come in the order in which serde_json hands them
/// out.
#[verifier::external_body]
fn plain_json(value: serde_json::Value) -> JsonValue {
    match value {
        serde_json::Value::Null => JsonValue::Null,
        serde_json::Value::Bool(b) => JsonValue::Bool(b),
        serde_json::Value::Number(n) => JsonValue::Number(n.to_string()),
        serde_json::Value::String(s) => JsonValue::Text(s),
        serde_json::Value::Array(items) => JsonValue::Array(items.into_iter().map(plain_json).collect()),
        serde_json::Value::Object(map) => JsonValue::Object(
            map.into_iter().map(|(name, v)| JsonField { name, value: plain_json(v) }).collect(),
        ),
    }
}

/// The member of `fields`, at or after position `from`, with the name
/// `key`; -1 where there is none.
pub open spec fn member_from(fields: Seq<JsonField>, key: Seq<char>, from: int) -> int
    decreases fields.len() - from,
{
    if from < 0 || from >= fields.len() {
        -1
    } else if fields[from].name@ == key {
        from
    } else {
        member_from(fields, key, from + 1)
    }
}

/// The text that an object with the members `fields` holds under the first
/// of the names `keys`, from number `k` on, under which it holds a text.
pub open spec fn text_member(fields: Seq<JsonField>, keys: Seq<Seq<char>>, k: int) -> Option<Seq<char>>
    decreases keys.len() - k,
{
    if k < 0 || k >= keys.len() {
        None
    } else if member_from(fields, keys[k], 0) >= 0 && fields[member_from(
        fields,
        keys[k],
        0,
    )].value is Text {
        Some(fields[member_from(fields, keys[k], 0)].value->Text_0@)
    } else {
        text_member(fields, keys, k + 1)
    }
}

/// The text that `value` holds under one of the names `keys`: for an
/// object, the text it holds itself under the first such name, or else what
/// the first of its members holds that holds one; for an array, what the
/// first of its items holds that holds one.
pub open spec fn text_in(value: JsonValue, keys: Seq<Seq<char>>) -> Option<Seq<char>>
    decreases value, 1nat, 0nat,
{
    match value {
        JsonValue::Object(fields) => if text_member(fields@, keys, 0) is Some {
            text_member(fields@, keys, 0)
        } else {
            text_in_members(value, keys, 0)
        },
        JsonValue::Array(items) => text_in_items(value, keys, 0),
        _ => None,
    }
}

/// What the first member of the object `value`, from number `i` on, holds
/// that holds a text under one of the names.
pub open spec fn text_in_members(value: JsonValue, keys: Seq<Seq<char>>, i: int) -> Option<Seq<char>>
    decreases value, 0nat, (if value is Object { value->Object_0@.len() - i } else { 0 }),
{
    if value is Object && 0 <= i < value->Object_0@.len() {
        if text_in(value->Object_0@[i].value, keys) is Some {
            text_in(value->Object_0@[i].value, keys)
        } else {
            text_in_members(value, keys, i + 1)
        }
    } else {
        None
    }
}

/// What the first item of the array `value`, from number `i` on, holds that
/// holds a text under one of the names.
pub open spec fn text_in_items(value: JsonValue, keys: Seq<Seq<char>>, i: int) -> Option<Seq<char>>
    decreases value, 0nat, (if value is Array { value->Array_0@.len() - i } else { 0 }),
{
    if value is Array && 0 <= i < value->Array_0@.len() {
        if text_in(value->Array_0@[i], keys) is Some {
            text_in(value->Array_0@[i], keys)
        } else {
            text_in_items(value, keys, i + 1)
        }
    } else {
        None
    }
}

/// The value that serde_json reads from `text`; `None` where it refuses the
/// text.
pub uninterp spec fn parsed_json(text: Seq<char>) -> Option<JsonValue>;

/// `serde_json::from_str` for a `serde_json::Value`, whose result is handed
/// on as plain data. The contract only names the result.
#[verifier::external_body]
fn parse_json(text: &str) -> (r: Option<JsonValue>)
    ensures
        r == parsed_json(text@),
{
    match serde_json::from_str::<serde_json::Value>(text) {
        Ok(value) => Some(plain_json(value)),
        Err(_) => None,
    }
}

/// Looks for a text under one of the names `keys`: in `value` itself first,
/// then in what it holds, in order and to any depth.
pub fn find_string_field_recursive(value: &JsonValue, keys: &Vec<String>) -> (r: Option<String>)
    ensures
        match r {
            Some(s) => text_in(*value, texts(keys@)) == Some(s@),
            None => text_in(*value, texts(keys@)) is None,
        },
    decreases value,
{
    let ghost names = texts(keys@);
    match value {
        JsonValue::Object(fields) => {
            let mut k: usize = 0;
            while k < keys.len()
                invariant
                    k <= keys.len(),
                    names == texts(keys@),
                    *value == JsonValue::Object(*fields),
                    text_member(fields@, names, 0) == text_member(fields@, names, k as int),
                decreases keys.len() - k,
            {
                assert(names[k as int] == keys@[k as int]@);
                let mut j: usize = 0;
                while j < fields.len() && !(fields[j].name == keys[k])
                    invariant
                        j <= fields.len(),
                        k < keys.len(),
                        member_from(fields@, keys@[k as int]@, 0) == member_from(
                            fields@,
                            keys@[k as int]@,
                            j as int,
                        ),
                    decreases fields.len() - j,
                {
                    j = j + 1;
                }
                if j < fields.len() {
                    match &fields[j].value {
                        JsonValue::Text(s) => {
                            return Some(s.clone());
                        },
                        _ => {},
                    }
                }
                k = k + 1;
            }
            let mut i: usize = 0;
            while i < fields.len()
                invariant
                    i <= fields.len(),
                    names == texts(keys@),
                    *value == JsonValue::Object(*fields),
                    text_member(fields@, names, 0) is None,
                    text_in_members(*value, names, 0) == text_in_members(*value, names, i as int),
                decreases fields.len() - i,
            {
                match find_string_field_recursive(&fields[i].value, keys) {
                    Some(s) => {
                        return Some(s);
                    },
                    None => {},
                }
                i = i + 1;
            }
            None
        },
        JsonValue::Array(items) => {
            let mut i: usize = 0;
            while i < items.len()
                invariant
                    i <= items.len(),
                    names == texts(keys@),
                    *value == JsonValue::Array(*items),
                    text_in_items(*value, names, 0) == text_in_items(*value, names, i as int),
                decreases items.len() - i,
            {
                match find_string_field_recursive(&items[i], keys) {
                    Some(s) => {
                        return Some(s);
                    },
                    None => {},
                }
                i = i + 1;
            }
            None
        },
        _ => None,
    }
}

/// What `text` holds under one of the names `keys`, read as one JSON value.
pub open spec fn text_in_json(text: Seq<char>, keys: Seq<Seq<char>>) -> Option<Seq<char>> {
    match parsed_json(text) {
        Some(value) => text_in(value, keys),
        None => None,
    }
}

/// Executable form of [`text_in_json`].
pub fn find_in_json(text: &str, keys: &Vec<String>) -> (r: Option<String>)
    ensures
        match r {
            Some(s) => text_in_json(text@, texts(keys@)) == Some(s@),
            None => text_in_json(text@, texts(keys@)) is None,
        },
{
    match parse_json(text) {
        Some(value) => find_string_field_recursive(&value, keys),
        None => None,
    }
}

/// What the first line of `s` holds that holds something, among the lines
/// that start at `from` or later, each read as one JSON value.
pub open spec fn text_in_lines(s: Seq<char>, keys: Seq<Seq<char>>, from: int) -> Option<Seq<char>>
    decreases s.len() - from,
{
    let brk = line_break(s, from, s.len() as int);
    let stop = line_stop(s, from, brk, s.len() as int);
    if from < 0 || from >= s.len() {
        None
    } else if text_in_json(s.subrange(from, stop), keys) is Some {
        text_in_json(s.subrange(from, stop), keys)
    } else if from <= brk && brk < s.len() {
        text_in_lines(s, keys, brk + 1)
    } else {
        None
    }
}

/// The last position before `n` that holds `c`; -1 where there is none.
pub open spec fn last_index_of(s: Seq<char>, c: char, n: int) -> int
    decreases n,
{
    if n <= 0 {
        -1
    } else if s[n - 1] == c {
        n - 1
    } else {
        last_index_of(s, c, n - 1)
    }
}

/// What the stretch of `s` from its first `{` to its last `}` holds, read as
/// one JSON value.
pub open spec fn text_in_braces(s: Seq<char>, keys: Seq<Seq<char>>) -> Option<Seq<char>> {
    let start = index_of(s, 0, s.len() as int, '{');
    let end = last_index_of(s, '}', s.len() as int);
    if start < s.len() && start <= end {
        text_in_json(s.subrange(start, end + 1), keys)
    } else {
        None
    }
}

/// What the output `s` of an assistant holds under one of the names `keys`:
/// read as one JSON value; else line by line; else from its first `{` to its
/// last `}`.
pub open spec fn text_in_output(s: Seq<char>, keys: Seq<Seq<char>>) -> Option<Seq<char>> {
    if text_in_json(trimmed(s), keys) is Some {
        text_in_json(trimmed(s), keys)
    } else if text_in_lines(s, keys, 0) is Some {
        text_in_lines(s, keys, 0)
    } else {
        text_in_braces(s, keys)
    }
}

/// Looks for a text under one of the names `keys` in what an assistant
/// printed.
pub fn extract_string_field_from_json_output(output: &str, keys: &Vec<String>) -> (r: Option<String>)
    ensures
        match r {
            Some(s) => text_in_output(output@, texts(keys@)) == Some(s@),
            None => text_in_output(output@, texts(keys@)) is None,
        },
{
    let v = chars_of(output);
    let n: usize = v.len();
    let (a, b) = trim_range(&v, 0, n);
    match find_in_json(string_of(&v, a, b).as_str(), keys) {
        Some(s) => {
            return Some(s);
        },
        None => {},
    }
    let mut from: usize = 0;
    let mut more: bool = true;
    while more && from < n
        invariant
            n == v.len(),
            from <= n,
            v@ == output@,
            more ==> text_in_lines(v@, texts(keys@), 0) == text_in_lines(
                v@,
                texts(keys@),
                from as int,
            ),
            !more ==> text_in_lines(v@, texts(keys@), 0) is None,
            text_in_json(trimmed(v@), texts(keys@)) is None,
        decreases n - from + (if more { 1int } else { 0int }),
    {
        let (stop, brk) = line_at(&v, from, n);
        match find_in_json(string_of(&v, from, stop).as_str(), keys) {
            Some(s) => {
                return Some(s);
            },
            None => {},
        }
        if brk < n {
            from = brk + 1;
        } else {
            more = false;
        }
    }
    let start: usize = find_char(&v, 0, n, '{');
    let mut end: usize = n;
    while end > 0 && v[end - 1] != '}'
        invariant
            end <= n,
            n == v.len(),
            last_index_of(v@, '}', n as int) == last_index_of(v@, '}', end as int),
        decreases end,
    {
        end = end - 1;
    }
    if start < n && end > 0 && start <= end - 1 {
        find_in_json(string_of(&v, start, end).as_str(), keys)
    } else {
        None
    }
}

/// The names under which assistants print the session they run in.
pub open spec fn session_keys() -> Seq<Seq<char>> {
    seq!["session_id"@, "sessionId"@]
}

/// The names of [`session_keys`], and `sessionID`.
pub open spec fn wide_session_keys() -> Seq<Seq<char>> {
    seq!["session_id"@, "sessionId"@, "sessionID"@]
}

/// Executable form of [`session_keys`], or of [`wide_session_keys`].
fn make_session_keys(wide: bool) -> (keys: Vec<String>)
    ensures
        texts(keys@) == (if wide {
            wide_session_keys()
        } else {
            session_keys()
        }),
{
    let mut keys: Vec<String> = Vec::new();
    keys.push(String::from_str("session_id"));
    keys.push(String::from_str("sessionId"));
    if wide {
        keys.push(String::from_str("sessionID"));
        assert(texts(keys@) =~= wide_session_keys());
    } else {
        assert(texts(keys@) =~= session_keys());
    }
    keys
}

/// The session that Gemini names in what it printed.
pub fn extract_gemini_session_id(stdout: &str) -> (r: Option<String>)
    ensures
        match r {
            Some(id) => text_in_output(stdout@, session_keys()) == Some(id@),
            None => text_in_output(stdout@, session_keys()) is None,
        },
{
    let keys = make_session_keys(false);
    extract_string_field_from_json_output(stdout, &keys)
}

/// The session that the assistant names in what it printed.
pub fn extract_claude_session_id(stdout: &str) -> (r: Option<String>)
    ensures
        match r {
            Some(id) => text_in_output(stdout@, session_keys()) == Some(id@),
            None => text_in_output(stdout@, session_keys()) is None,
        },
{
    let keys = make_session_keys(false);
    extract_string_field_from_json_output(stdout, &keys)
}

/// The session that `stdout` names, or else the one that `stderr` names,
/// under one of the names `keys`.
pub open spec fn session_in_streams(stdout: Seq<char>, stderr: Seq<char>, keys: Seq<Seq<char>>) -> Option<
    Seq<char>,
> {
    if text_in_output(stdout, keys) is Some {
        text_in_output(stdout, keys)
    } else {
        text_in_output(stderr, keys)
    }
}

/// The session that Opencode names in what it printed, on either stream.
pub fn extract_opencode_session_id(stdout: &str, stderr: &str) -> (r: Option<String>)
    ensures
        match r {
            Some(id) => session_in_streams(stdout@, stderr@, wide_session_keys()) == Some(id@),
            None => session_in_streams(stdout@, stderr@, wide_session_keys()) is None,
        },
{
    let keys = make_session_keys(true);
    match extract_string_field_from_json_output(stdout, &keys) {
        Some(id) => Some(id),
        None => extract_string_field_from_json_output(stderr, &keys),
    }
}

/// Whether `c` is one of the marks that may stand around a path in running
/// text.
pub open spec fn is_mark(c: char) -> bool {
    c == '"' || c == '\'' || c == '`' || c == ',' || c == ';' || c == '(' || c == ')'
}

/// The first position in `[from, to)` that holds white space, or `to`.
pub open spec fn word_end(s: Seq<char>, from: int, to: int) -> int
    decreases to - from,
{
    if from < to && 0 <= from < s.len() && !is_space(s[from]) {
        word_end(s, from + 1, to)
    } else {
        from
    }
}

/// The first position in `[from, to)` that holds no mark, or `to`.
pub open spec fn skip_marks(s: Seq<char>, from: int, to: int) -> int
    decreases to - from,
{
    if from < to && 0 <= from < s.len() && is_mark(s[from]) {
        skip_marks(s, from + 1, to)
    } else {
        from
    }
}

/// The end of `[from, to)` once the marks at its end are dropped.
pub open spec fn drop_marks(s: Seq<char>, from: int, to: int) -> int
    decreases to - from,
{
    if from < to && 0 < to <= s.len() && is_mark(s[to - 1]) {
        drop_marks(s, from, to - 1)
    } else {
        to
    }
}

/// The session of the first word of `s`, at or after `from`, that is the
/// path of a shared transcript once the marks around it are taken off.
pub open spec fn session_in_words(s: Seq<char>, from: int) -> Option<Seq<char>>
    decreases s.len() - from,
{
    let a = crate::text::skip_spaces(s, from, s.len() as int);
    let e = word_end(s, a, s.len() as int);
    let x = skip_marks(s, a, e);
    let y = drop_marks(s, x, e);
    if from < 0 || a < from || a >= s.len() || e <= a || e > s.len() {
        None
    } else if shared_session_id(s.subrange(x, y)) is Some {
        shared_session_id(s.subrange(x, y))
    } else {
        session_in_words(s, e)
    }
}

/// The session of the first shared transcript that `text` names.
pub fn session_of_shared_transcript(text: &str) -> (r: Option<String>)
    ensures
        match r {
            Some(id) => session_in_words(text@, 0) == Some(id@),
            None => session_in_words(text@, 0) is None,
        },
{
    let v = chars_of(text);
    let n: usize = v.len();
    let mut from: usize = 0;
    while from < n
        invariant
            n == v.len(),
            from <= n,
            v@ == text@,
            session_in_words(v@, 0) == session_in_words(v@, from as int),
        decreases n - from,
    {
        let (a, _) = trim_range(&v, from, n);
        if a >= n {
            return None;
        }
        proof {
            crate::text::lemma_skip_spaces(v@, from as int, n as int);
        }
        let mut e: usize = a;
        while e < n && !is_whitespace(v[e])
            invariant
                a <= e <= n,
                a < n,
                n == v.len(),
                !is_space(v@[a as int]),
                e == a || e > a,
                word_end(v@, a as int, n as int) == word_end(v@, e as int, n as int),
            decreases n - e,
        {
            e = e + 1;
        }
        assert(e > a);
        let mut x: usize = a;
        while x < e && is_mark_char(v[x])
            invariant
                a <= x <= e <= v.len(),
                skip_marks(v@, a as int, e as int) == skip_marks(v@, x as int, e as int),
            decreases e - x,
        {
            x = x + 1;
        }
        let mut y: usize = e;
        while x < y && is_mark_char(v[y - 1])
            invariant
                x <= y <= e <= v.len(),
                drop_marks(v@, x as int, e as int) == drop_marks(v@, x as int, y as int),
            decreases y - x,
        {
            y = y - 1;
        }
        match extract_copilot_session_id_from_share_path(string_of(&v, x, y).as_str()) {
            Some(id) => {
                return Some(id);
            },
            None => {},
        }
        from = e;
    }
    None
}

/// Executable form of [`is_mark`].
pub fn is_mark_char(c: char) -> (b: bool)
    ensures
        b == is_mark(c),
{
    c == '"' || c == '\'' || c == '`' || c == ',' || c == ';' || c == '(' || c == ')'
}

/// The session that Copilot names in what it printed: under one of the
/// names of [`session_keys`] on either stream, or else by the path of a
/// shared transcript somewhere in the two streams.
pub open spec fn copilot_session(stdout: Seq<char>, stderr: Seq<char>) -> Option<Seq<char>> {
    if session_in_streams(stdout, stderr, session_keys()) is Some {
        session_in_streams(stdout, stderr, session_keys())
    } else {
        session_in_words(stdout + "\n"@ + stderr, 0)
    }
}

/// The session that Copilot names in what it printed.
pub fn extract_copilot_session_id_from_output(stdout: &str, stderr: &str) -> (r: Option<String>)
    ensures
        match r {
            Some(id) => copilot_session(stdout@, stderr@) == Some(id@),
            None => copilot_session(stdout@, stderr@) is None,
        },
{
    let keys = make_session_keys(false);
    match extract_string_field_from_json_output(stdout, &keys) {
        Some(id) => {
            return Some(id);
        },
        None => {},
    }
    match extract_string_field_from_json_output(stderr, &keys) {
        Some(id) => {
            return Some(id);
        },
        None => {},
    }
    let mut both = String::from_str(stdout);
    both.append("\n");
    both.append(stderr);
    session_of_shared_transcript(both.as_str())
}

/// The text that an object with the members `fields` holds under the name
/// `key`.
pub open spec fn text_under(fields: Seq<JsonField>, key: Seq<char>) -> Option<Seq<char>> {
    if member_from(fields, key, 0) >= 0 && fields[member_from(fields, key, 0)].value is Text {
        Some(fields[member_from(fields, key, 0)].value->Text_0@)
    } else {
        None
    }
}

/// The thread that the event `value` starts: the text under `thread_id` of
/// an object whose `type` is `thread.started`.
pub open spec fn started_thread(value: JsonValue) -> Option<Seq<char>> {
    if value is Object && text_under(value->Object_0@, "type"@) == Some("thread.started"@) {
        text_under(value->Object_0@, "thread_id"@)
    } else {
        None
    }
}

/// The thread that the line `line` starts, read as one JSON value.
pub open spec fn thread_in_line(line: Seq<char>) -> Option<Seq<char>> {
    match parsed_json(line) {
        Some(value) => started_thread(value),
        None => None,
    }
}

/// The thread that the first line of `s` starts that starts one, among the
/// lines that start at `from` or later.
pub open spec fn thread_in_lines(s: Seq<char>, from: int) -> Option<Seq<char>>
    decreases s.len() - from,
{
    let brk = line_break(s, from, s.len() as int);
    let stop = line_stop(s, from, brk, s.len() as int);
    if from < 0 || from >= s.len() {
        None
    } else if thread_in_line(s.subrange(from, stop)) is Some {
        thread_in_line(s.subrange(from, stop))
    } else if from <= brk && brk < s.len() {
        thread_in_lines(s, brk + 1)
    } else {
        None
    }
}

/// The text that the members `fields` hold under the name `key`.
fn member_text<'a>(fields: &'a Vec<JsonField>, key: &str) -> (r: Option<&'a String>)
    ensures
        match r {
            Some(s) => text_under(fields@, key@) == Some(s@),
            None => text_under(fields@, key@) is None,
        },
{
    let name = String::from_str(key);
    let mut j: usize = 0;
    while j < fields.len() && !(fields[j].name == name)
        invariant
            j <= fields.len(),
            name@ == key@,
            member_from(fields@, key@, 0) == member_from(fields@, key@, j as int),
        decreases fields.len() - j,
    {
        j = j + 1;
    }
    if j < fields.len() {
        match &fields[j].value {
            JsonValue::Text(s) => Some(s),
            _ => None,
        }
    } else {
        None
    }
}

/// The thread that an event starts.
pub fn thread_started_by(value: &JsonValue) -> (r: Option<String>)
    ensures
        match r {
            Some(id) => started_thread(*value) == Some(id@),
            None => started_thread(*value) is None,
        },
{
    match value {
        JsonValue::Object(fields) => {
            let started = match member_text(fields, "type") {
                Some(kind) => {
                    let expected = String::from_str("thread.started");
                    *kind == expected
                },
                None => false,
            };
            if !started {
                return None;
            }
            match member_text(fields, "thread_id") {
                Some(id) => Some(id.clone()),
                None => None,
            }
        },
        _ => None,
    }
}

/// The thread that Codex says it started, in the events that it printed
/// line by line.
pub fn extract_codex_thread_id(stdout: &str) -> (r: Option<String>)
    ensures
        match r {
            Some(id) => thread_in_lines(stdout@, 0) == Some(id@),
            None => thread_in_lines(stdout@, 0) is None,
        },
{
    let v = chars_of(stdout);
    let n: usize = v.len();
    let mut from: usize = 0;
    while from < n
        invariant
            n == v.len(),
            from <= n,
            v@ == stdout@,
            thread_in_lines(v@, 0) == thread_in_lines(v@, from as int),
        decreases n - from,
    {
        let (stop, brk) = line_at(&v, from, n);
        match parse_json(string_of(&v, from, stop).as_str()) {
            Some(value) => {
                match thread_started_by(&value) {
                    Some(id) => {
                        return Some(id);
                    },
                    None => {},
                }
            },
            None => {},
        }
        if brk >= n {
            return None;
        }
        from = brk + 1;
    }
    None
}

} // verus!
