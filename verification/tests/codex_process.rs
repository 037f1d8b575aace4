use vibe_monitor::codex::process::{
    classify_server_message, event_for, first_line_title, initialize_params,
    thread_start_params, thread_summary_from_response, turn_lifecycle, turn_start_params,
    CodexEvent, CodexProcessManager, ServerMessage, TurnLifecycle, CLIENT_VERSION,
};
use vibe_monitor::error::AppError;
use vibe_monitor::json::{JsonNumber, JsonValue};

fn text(s: &str) -> JsonValue {
    JsonValue::String(s.to_string())
}

fn object(members: Vec<(&str, JsonValue)>) -> JsonValue {
    JsonValue::Object(members.into_iter().map(|(k, v)| (k.to_string(), v)).collect())
}

fn same(a: &JsonValue, b: &JsonValue) -> bool {
    match (a, b) {
        (JsonValue::Null, JsonValue::Null) => true,
        (JsonValue::Bool(x), JsonValue::Bool(y)) => x == y,
        (JsonValue::Number(JsonNumber::PosInt(x)), JsonValue::Number(JsonNumber::PosInt(y))) => x == y,
        (JsonValue::Number(JsonNumber::NegInt(x)), JsonValue::Number(JsonNumber::NegInt(y))) => x == y,
        (JsonValue::String(x), JsonValue::String(y)) => x == y,
        (JsonValue::Array(x), JsonValue::Array(y)) => {
            x.len() == y.len() && x.iter().zip(y.iter()).all(|(p, q)| same(p, q))
        }
        (JsonValue::Object(x), JsonValue::Object(y)) => {
            x.len() == y.len()
                && x.iter().all(|(k, v)| y.iter().any(|(l, w)| k == l && same(v, w)))
        }
        _ => false,
    }
}

fn field<'a>(v: &'a JsonValue, key: &str) -> Option<&'a JsonValue> {
    v.get(key)
}

#[test]
fn first_line_title_truncates_utf8_without_panicking() {
    let prompt = "请".repeat(100);

    let title = first_line_title(&prompt);

    assert_eq!(title.chars().count(), 80);
    assert!(title.ends_with("..."));
}

#[test]
fn first_line_title_uses_first_line_or_default() {
    assert_eq!(first_line_title("  Run tests  \nmore"), "Run tests");
    assert_eq!(first_line_title(""), "Codex Thread");
    assert_eq!(first_line_title("   \nsecond"), "Codex Thread");
    assert_eq!(first_line_title("line\r\nnext"), "line");
    let exact = "x".repeat(80);
    assert_eq!(first_line_title(&exact), exact);
}

#[test]
fn protocol_messages_match_current_app_server_contract() {
    assert!(same(
        &initialize_params(),
        &object(vec![(
            "clientInfo",
            object(vec![
                ("name", text("vibe_monitor")),
                ("title", text("Vibe Monitor")),
                ("version", text(CLIENT_VERSION)),
            ]),
        )])
    ));

    let thread = thread_start_params("D:\\workspace");
    assert_eq!(field(&thread, "cwd").and_then(|v| v.as_str()), Some("D:\\workspace"));
    assert_eq!(field(&thread, "approvalPolicy").and_then(|v| v.as_str()), Some("on-request"));
    assert_eq!(field(&thread, "sandbox").and_then(|v| v.as_str()), Some("workspace-write"));
    assert!(thread.get("prompt").is_none());

    assert!(same(
        &turn_start_params("thr_123", "Run tests", "D:\\workspace"),
        &object(vec![
            ("threadId", text("thr_123")),
            ("input", JsonValue::Array(vec![object(vec![("type", text("text")), ("text", text("Run tests"))])])),
            ("cwd", text("D:\\workspace")),
            ("approvalPolicy", text("on-request")),
            (
                "sandboxPolicy",
                object(vec![
                    ("type", text("workspaceWrite")),
                    ("writableRoots", JsonValue::Array(vec![text("D:\\workspace")])),
                    ("networkAccess", JsonValue::Bool(true)),
                ]),
            ),
        ])
    ));
}

#[test]
fn thread_summary_uses_the_server_thread_id() {
    let summary = thread_summary_from_response(
        "workspace-1",
        "Run tests",
        &object(vec![(
            "thread",
            object(vec![
                ("id", text("thr_server_123")),
                ("preview", text("")),
                ("createdAt", JsonValue::Number(JsonNumber::PosInt(1_750_000_000))),
            ]),
        )]),
    )
    .expect("valid thread response");

    assert_eq!(summary.id, "thr_server_123");
    assert_eq!(summary.workspace_id, "workspace-1");
    assert_eq!(summary.title, "Run tests");
    assert_eq!(summary.status, "running");
}

#[test]
fn thread_summary_formats_the_server_creation_time() {
    let summary = thread_summary_from_response(
        "w",
        "Run tests",
        &object(vec![(
            "thread",
            object(vec![
                ("id", text("t")),
                ("createdAt", JsonValue::Number(JsonNumber::PosInt(1_750_000_000))),
            ]),
        )]),
    )
    .expect("summary");
    assert_eq!(summary.created_at.as_deref(), Some("2025-06-15T15:06:40+00:00"));
    assert_eq!(summary.updated_at, summary.created_at);
    assert_eq!(summary.preview.as_deref(), Some("Run tests"));

    let without_time = thread_summary_from_response(
        "w",
        "p",
        &object(vec![("thread", object(vec![("id", text("t"))]))]),
    )
    .expect("summary");
    assert!(without_time.created_at.expect("time").ends_with("+00:00"));

    match thread_summary_from_response("w", "p", &object(vec![])) {
        Err(AppError::CommandFailed(message)) => {
            assert_eq!(message, "codex app-server returned no thread id")
        }
        other => panic!("unexpected {other:?}"),
    }
}

#[test]
fn turn_lifecycle_is_driven_by_ordered_server_notifications() {
    assert_eq!(
        turn_lifecycle(&object(vec![
            ("method", text("turn/started")),
            (
                "params",
                object(vec![("threadId", text("thr_123")), ("turn", object(vec![("id", text("turn_456"))]))]),
            ),
        ])),
        Some(TurnLifecycle::Started {
            thread_id: "thr_123".to_string(),
            turn_id: "turn_456".to_string()
        })
    );
    assert_eq!(
        turn_lifecycle(&object(vec![
            ("method", text("turn/completed")),
            ("params", object(vec![("threadId", text("thr_123"))])),
        ])),
        Some(TurnLifecycle::Completed {
            thread_id: "thr_123".to_string()
        })
    );
}

#[test]
fn server_messages_are_classified() {
    let response = object(vec![("id", JsonValue::Number(JsonNumber::PosInt(4))), ("result", text("ok"))]);
    match classify_server_message(&response) {
        ServerMessage::Response { id, result: Ok(Some(JsonValue::String(s))) } => {
            assert_eq!(id, 4);
            assert_eq!(s, "ok");
        }
        other => panic!("unexpected {other:?}"),
    }
    let failure = object(vec![
        ("id", JsonValue::Number(JsonNumber::PosInt(5))),
        ("error", object(vec![("code", JsonValue::Number(JsonNumber::NegInt(-32600))), ("message", text("bad"))])),
    ]);
    match classify_server_message(&failure) {
        ServerMessage::Response { id: 5, result: Err(message) } => {
            assert_eq!(message, "codex app-server error -32600: bad")
        }
        other => panic!("unexpected {other:?}"),
    }
    let bare_error = object(vec![("id", JsonValue::Number(JsonNumber::PosInt(6))), ("error", object(vec![]))]);
    match classify_server_message(&bare_error) {
        ServerMessage::Response { id: 6, result: Err(message) } => {
            assert_eq!(message, "codex app-server error 0: unknown app-server error")
        }
        other => panic!("unexpected {other:?}"),
    }
    assert!(matches!(classify_server_message(&object(vec![("id", text("x"))])), ServerMessage::Ignored));
    let note = object(vec![("method", text("Thread/Started"))]);
    match classify_server_message(&note) {
        ServerMessage::Notification { lifecycle: None, event: Some(CodexEvent::ThreadUpdated) } => {}
        other => panic!("unexpected {other:?}"),
    }
}

#[test]
fn server_events_follow_the_method() {
    let event = |m: &str| event_for(&object(vec![("method", text(m))]));
    assert_eq!(event("item/commandExecution/requestApproval"), Some(CodexEvent::ApprovalRequested));
    assert_eq!(event("turn/completed"), Some(CodexEvent::TurnFinished));
    assert_eq!(event("thread/started"), Some(CodexEvent::ThreadUpdated));
    assert_eq!(event("item/started"), Some(CodexEvent::Item));
    assert_eq!(event("turn/started"), Some(CodexEvent::Item));
    assert_eq!(event("account/updated"), None);
    assert_eq!(event_for(&object(vec![("type", text("APPROVAL"))])), Some(CodexEvent::ApprovalRequested));
    assert_eq!(CodexEvent::TurnFinished.name(), "codex://turn-finished");
}

#[test]
fn interrupt_follows_the_turn_lifecycle() {
    let mut manager = CodexProcessManager::new();
    assert!(matches!(
        manager.turn_interrupt_request("thr"),
        Err(AppError::CommandFailed(m)) if m == "codex turn is not running"
    ));
    manager.apply_lifecycle(TurnLifecycle::Started { thread_id: "thr".to_string(), turn_id: "turn-1".to_string() });
    let params = manager.turn_interrupt_request(" thr ").expect("turn is running");
    assert_eq!(params.get("turnId").and_then(|v| v.as_str()), Some("turn-1"));
    assert_eq!(params.get("threadId").and_then(|v| v.as_str()), Some("thr"));
    manager.apply_lifecycle(TurnLifecycle::Completed { thread_id: "thr".to_string() });
    assert!(manager.turn_interrupt_request("thr").is_err());
    assert!(matches!(
        manager.turn_interrupt_request("  "),
        Err(AppError::InvalidInput(m)) if m == "codex thread id cannot be empty"
    ));
}

#[test]
fn turn_send_needs_a_known_thread_and_a_prompt() {
    let mut manager = CodexProcessManager::new();
    assert_eq!(manager.next_request_id(), 1);
    assert_eq!(manager.next_request_id(), 2);
    assert!(matches!(
        manager.turn_send_params("thr", "hi"),
        Err(AppError::CommandFailed(m)) if m == "codex thread workspace is unavailable"
    ));
    assert!(matches!(
        manager.turn_send_params("thr", "  "),
        Err(AppError::InvalidInput(m)) if m == "codex prompt cannot be empty"
    ));
    manager.record_thread("thr".to_string(), "/work".to_string());
    let params = manager.turn_send_params(" thr", " hi ").expect("params");
    assert!(same(&params, &turn_start_params("thr", "hi", "/work")));
    assert!(matches!(
        CodexProcessManager::thread_start_prompt(" "),
        Err(AppError::InvalidInput(m)) if m == "codex prompt cannot be empty"
    ));
    assert_eq!(CodexProcessManager::thread_start_prompt(" go ").expect("prompt"), "go");
}

#[test]
fn server_error_codes_are_written_in_decimal() {
    for (code, expected) in [
        (JsonNumber::PosInt(1234), "codex app-server error 1234: x"),
        (JsonNumber::PosInt(7), "codex app-server error 7: x"),
        (JsonNumber::NegInt(i64::MIN), "codex app-server error -9223372036854775808: x"),
        (JsonNumber::PosInt(i64::MAX as u64), "codex app-server error 9223372036854775807: x"),
    ] {
        let failure = object(vec![
            ("id", JsonValue::Number(JsonNumber::PosInt(1))),
            ("error", object(vec![("code", JsonValue::Number(code)), ("message", text("x"))])),
        ]);
        match classify_server_message(&failure) {
            ServerMessage::Response { id: 1, result: Err(message) } => assert_eq!(message, expected),
            other => panic!("unexpected {other:?}"),
        }
    }
}

#[test]
fn server_lines_are_read_and_drive_the_running_turns() {
    let mut manager = CodexProcessManager::new();
    assert!(manager.handle_server_line("not json").is_none());
    assert!(manager.handle_server_line("").is_none());

    let started = manager
        .handle_server_line(r#"{"method":"turn/started","params":{"threadId":"t1","turn":{"id":"u1"}}}"#)
        .expect("a document");
    assert!(matches!(turn_lifecycle(&started), Some(TurnLifecycle::Started { .. })));
    let params = manager.turn_interrupt_request("t1").expect("running");
    let expected = object(vec![("threadId", text("t1")), ("turnId", text("u1"))]);
    assert!(same(&params, &expected));

    let reply = manager.handle_server_line(r#"{"id":3,"result":{"ratio":1.5,"n":-2}}"#).expect("a document");
    match classify_server_message(&reply) {
        ServerMessage::Response { id: 3, result: Ok(Some(JsonValue::Object(members))) } => {
            assert_eq!(members.len(), 2);
            assert!(matches!(&members[0], (k, JsonValue::Number(JsonNumber::NegInt(-2))) if k == "n"));
            assert!(matches!(&members[1], (k, JsonValue::Number(JsonNumber::Float(t))) if k == "ratio" && t == "1.5"));
        }
        other => panic!("unexpected {other:?}"),
    }
    assert!(manager.turn_interrupt_request("t1").is_ok());

    manager
        .handle_server_line(r#"{"method":"turn/completed","params":{"threadId":"t1"}}"#)
        .expect("a document");
    match manager.turn_interrupt_request("t1") {
        Err(AppError::CommandFailed(m)) => assert_eq!(m, "codex turn is not running"),
        other => panic!("unexpected {other:?}"),
    }
    assert_eq!(manager.last_request_id(), 0);
}
