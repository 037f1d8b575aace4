use vibe_monitor::attention::{list_attention_items, AttentionTable};
use vibe_monitor::codex::{
    codex_version_from_output, detect_with_runner, notification_to_attention_item,
    notification_value_to_attention_item, CodexApprovalRequest,
};
use vibe_monitor::git::CommandOutput;
use vibe_monitor::json::JsonValue;

fn text(s: &str) -> JsonValue {
    JsonValue::String(s.to_string())
}

fn object(members: Vec<(&str, JsonValue)>) -> JsonValue {
    JsonValue::Object(members.into_iter().map(|(k, v)| (k.to_string(), v)).collect())
}

#[test]
fn codex_detect_reports_unavailable_when_version_command_fails() {
    let availability = detect_with_runner(|| Err("Access is denied".to_string()));

    assert!(!availability.available);
    assert_eq!(availability.version, None);
    assert_eq!(availability.error, Some("Access is denied".to_string()));
}

#[test]
fn codex_detect_trims_the_reported_version() {
    let availability = detect_with_runner(|| Ok("  codex-cli 0.39.0\n".to_string()));
    assert!(availability.available);
    assert_eq!(availability.version, Some("codex-cli 0.39.0".to_string()));
    assert_eq!(availability.error, None);
}

#[test]
fn codex_version_output_is_read_as_the_cli_reports_it() {
    let output = |success: bool, stdout: &str, stderr: &str| CommandOutput {
        success,
        status: "exit status: 1".to_string(),
        stdout: stdout.to_string(),
        stderr: stderr.to_string(),
    };
    assert_eq!(codex_version_from_output(&output(true, " 1.2.3 \n", "")), Ok("1.2.3".to_string()));
    assert_eq!(
        codex_version_from_output(&output(true, "  ", "")),
        Ok("codex version unknown".to_string())
    );
    assert_eq!(
        codex_version_from_output(&output(false, "", " denied ")),
        Err("denied".to_string())
    );
    assert_eq!(
        codex_version_from_output(&output(false, "", "")),
        Err("codex --version exited with exit status: 1".to_string())
    );
}

#[test]
fn approval_notification_value_creates_attention_item_when_workspace_is_present() {
    let mut table = AttentionTable::new();
    let payload = object(vec![
        ("method", text("approval/requested")),
        (
            "params",
            object(vec![
                ("workspaceId", text("workspace-1")),
                ("threadId", text("thread-1")),
                ("approvalId", text("approval-1")),
                ("title", text("Run command")),
                ("summary", text("codex wants to run npm test")),
            ]),
        ),
    ]);

    let item = notification_value_to_attention_item(&mut table, &payload)
        .expect("mapped item")
        .expect("approval should create an item");

    assert_eq!(item.workspace_id, "workspace-1");
    assert_eq!(item.kind, "approval");
    assert_eq!(item.priority, 3);
}

#[test]
fn approval_notification_value_reads_fallback_keys_and_defaults() {
    let mut table = AttentionTable::new();
    let payload = object(vec![
        ("type", text("item/approvalRequest")),
        ("workspace_id", text("ws")),
        ("thread_id", text("t-9")),
        ("id", text("a-7")),
    ]);
    let item = notification_value_to_attention_item(&mut table, &payload)
        .expect("mapped item")
        .expect("approval should create an item");
    assert_eq!(item.workspace_id, "ws");
    assert_eq!(item.session_id, Some("t-9".to_string()));
    assert_eq!(item.action_label, Some("Review request".to_string()));
    assert_eq!(item.summary, "Codex is waiting for approval.");
    assert_eq!(item.action_ref, Some("codex://thread/t-9/approval/a-7".to_string()));
}

#[test]
fn notification_without_approval_or_workspace_creates_nothing() {
    let mut table = AttentionTable::new();
    let other = object(vec![("method", text("turn/started"))]);
    assert_eq!(notification_value_to_attention_item(&mut table, &other).expect("ok"), None);
    let no_workspace = object(vec![
        ("method", text("approval/requested")),
        ("params", object(vec![("threadId", text("t")), ("approvalId", text("a"))])),
    ]);
    assert_eq!(notification_value_to_attention_item(&mut table, &no_workspace).expect("ok"), None);
    let not_text = object(vec![
        ("method", text("approval/requested")),
        ("params", object(vec![("workspaceId", JsonValue::Null), ("workspace_id", text("w")), ("threadId", text("t")), ("approvalId", text("a"))])),
    ]);
    assert_eq!(notification_value_to_attention_item(&mut table, &not_text).expect("ok"), None);
    assert!(table.rows().is_empty());
}

#[test]
fn approval_notification_creates_high_priority_attention_item() {
    let mut table = AttentionTable::new();

    let item = notification_to_attention_item(
        &mut table,
        "workspace-1",
        CodexApprovalRequest {
            thread_id: "thread-1".to_string(),
            approval_id: "approval-1".to_string(),
            title: "Run command".to_string(),
            summary: "codex wants to run npm test".to_string(),
        },
    )
    .expect("attention item")
    .expect("approval should create an item");

    assert_eq!(item.kind, "approval");
    assert_eq!(item.priority, 3);
    assert_eq!(item.title, "Codex approval required");
    assert_eq!(item.session_id, Some("thread-1".to_string()));
    assert_eq!(
        item.action_ref,
        Some("codex://thread/thread-1/approval/approval-1".to_string())
    );

    let active_items =
        list_attention_items(&table, Some("workspace-1".to_string())).expect("items");
    assert_eq!(active_items.len(), 1);
}

#[test]
fn approval_notification_with_blank_summary_is_refused() {
    let mut table = AttentionTable::new();
    let result = notification_to_attention_item(
        &mut table,
        "w",
        CodexApprovalRequest {
            thread_id: "t".to_string(),
            approval_id: "a".to_string(),
            title: "x".to_string(),
            summary: " ".to_string(),
        },
    );
    assert!(result.is_err());
    assert!(table.rows().is_empty());
}
