use amem::json::{
    extract_claude_session_id, extract_codex_thread_id, extract_copilot_session_id_from_output,
    extract_gemini_session_id, extract_opencode_session_id, extract_string_field_from_json_output,
    find_string_field_recursive, session_of_shared_transcript, thread_started_by, JsonField,
    JsonValue,
};

fn keys(names: &[&str]) -> Vec<String> {
    names.iter().map(|s| s.to_string()).collect()
}

fn field(name: &str, value: JsonValue) -> JsonField {
    JsonField { name: name.to_string(), value }
}

fn text(s: &str) -> JsonValue {
    JsonValue::Text(s.to_string())
}

#[test]
fn fields_are_found_at_any_depth() {
    let ks = keys(&["session_id", "sessionId"]);
    let nested = JsonValue::Object(vec![
        field("a", JsonValue::Array(vec![JsonValue::Null, JsonValue::Object(vec![field("sessionId", text("deep"))])])),
        field("b", JsonValue::Object(vec![field("session_id", text("later"))])),
    ]);
    assert_eq!(find_string_field_recursive(&nested, &ks), Some("deep".to_string()));
    let direct = JsonValue::Object(vec![
        field("a", JsonValue::Object(vec![field("session_id", text("inner"))])),
        field("sessionId", text("second name")),
        field("session_id", JsonValue::Number("7".to_string())),
    ]);
    assert_eq!(find_string_field_recursive(&direct, &ks), Some("second name".to_string()));
    assert_eq!(find_string_field_recursive(&text("session_id"), &ks), None);
    assert_eq!(find_string_field_recursive(&JsonValue::Array(Vec::new()), &ks), None);
    assert_eq!(find_string_field_recursive(&nested, &Vec::new()), None);
}

#[test]
fn fields_are_found_in_printed_output() {
    let ks = keys(&["session_id", "sessionId"]);
    let find = |out: &str| extract_string_field_from_json_output(out, &ks);
    assert_eq!(find("  {\"session_id\": \"f8db4215\"}\n"), Some("f8db4215".to_string()));
    assert_eq!(
        find("starting\n{\"type\":\"init\",\"sessionId\":\"abc\"}\n{\"session_id\":\"late\"}\n"),
        Some("abc".to_string())
    );
    assert_eq!(
        find("log: {\n  \"result\": {\"session_id\": \"multi\"}\n} done"),
        Some("multi".to_string())
    );
    assert_eq!(find("{\"z\": {\"session_id\": \"zed\"}, \"a\": {\"session_id\": \"ay\"}}"), Some("ay".to_string()));
    assert_eq!(find("{\"session_id\": 12}"), None);
    assert_eq!(find("} nothing {"), None);
    assert_eq!(find("no json at all"), None);
    assert_eq!(find(""), None);
}

#[test]
fn sessions_are_read_from_assistants() {
    let out = "{\"session_id\":\"7f6e5d4c-3b2a-1908-7654-3210abcdef12\"}";
    assert_eq!(extract_gemini_session_id(out), Some("7f6e5d4c-3b2a-1908-7654-3210abcdef12".to_string()));
    assert_eq!(extract_claude_session_id(out), Some("7f6e5d4c-3b2a-1908-7654-3210abcdef12".to_string()));
    assert_eq!(extract_gemini_session_id("{\"sessionID\":\"x\"}"), None);
    assert_eq!(extract_opencode_session_id("{\"sessionID\":\"ses_abcd1234\"}", ""), Some("ses_abcd1234".to_string()));
    assert_eq!(extract_opencode_session_id("plain", "{\"sessionId\":\"err\"}"), Some("err".to_string()));
    assert_eq!(extract_opencode_session_id("plain", "plain"), None);
}

#[test]
fn copilot_sessions_are_read_from_output_or_shared_paths() {
    assert_eq!(
        extract_copilot_session_id_from_output("{\"session_id\":\"json\"}", "copilot-session-path.md"),
        Some("json".to_string())
    );
    assert_eq!(
        extract_copilot_session_id_from_output("done", "saved to `./copilot-session-abcd1234.md`, bye"),
        Some("abcd1234".to_string())
    );
    assert_eq!(
        extract_copilot_session_id_from_output("see (\"/tmp/copilot-session-one.md\");", "copilot-session-two.md"),
        Some("one".to_string())
    );
    assert_eq!(extract_copilot_session_id_from_output("copilot-session-.md", ""), None);
    assert_eq!(session_of_shared_transcript("  \n\t "), None);
    assert_eq!(session_of_shared_transcript("a copilot-session-x.md.bak 'copilot-session-y.md'"), Some("y".to_string()));
}

#[test]
fn codex_threads_are_read_from_events() {
    let events = "noise\n{\"type\":\"turn.started\",\"thread_id\":\"no\"}\r\n{\"type\":\"thread.started\",\"thread_id\":\"019c7f9d-2298-70f1-a19d-c164f18d7f45\"}\n";
    assert_eq!(extract_codex_thread_id(events), Some("019c7f9d-2298-70f1-a19d-c164f18d7f45".to_string()));
    assert_eq!(extract_codex_thread_id("{\"type\":\"thread.started\"}"), None);
    assert_eq!(extract_codex_thread_id("[{\"type\":\"thread.started\",\"thread_id\":\"x\"}]"), None);
    assert_eq!(extract_codex_thread_id(""), None);
    let event = JsonValue::Object(vec![field("thread_id", text("t1")), field("type", text("thread.started"))]);
    assert_eq!(thread_started_by(&event), Some("t1".to_string()));
    let other = JsonValue::Object(vec![field("thread_id", text("t1")), field("type", JsonValue::Bool(true))]);
    assert_eq!(thread_started_by(&other), None);
}
