use vibe_monitor::attention::{
    attention_list, create_attention_item, list_attention_items, resolve_attention_item,
    AttentionTable, CreateAttentionItem,
};
use vibe_monitor::error::AppError;

fn create_input(workspace_id: &str, kind: &str, priority: i64, title: &str) -> CreateAttentionItem {
    CreateAttentionItem {
        workspace_id: workspace_id.to_string(),
        session_id: None,
        kind: kind.to_string(),
        priority,
        title: title.to_string(),
        summary: format!("{title} summary"),
        action_label: None,
        action_ref: None,
    }
}

fn invalid_message(result: Result<vibe_monitor::attention::AttentionItem, AppError>) -> String {
    match result {
        Err(AppError::InvalidInput(message)) => message,
        other => panic!("expected an input error, got {other:?}"),
    }
}

#[test]
fn attention_create_list_and_resolve_persists_active_queue() {
    let mut table = AttentionTable::new();

    let low = create_attention_item(&mut table, create_input("workspace-1", "info", 1, "Low priority"))
        .expect("low priority item");
    let high =
        create_attention_item(&mut table, create_input("workspace-1", "failed", 3, "High priority"))
            .expect("high priority item");

    let active = list_attention_items(&table, Some("workspace-1".to_string()))
        .expect("active attention list");
    assert_eq!(
        active.iter().map(|item| item.id.as_str()).collect::<Vec<_>>(),
        vec![high.id.as_str(), low.id.as_str()]
    );

    resolve_attention_item(&mut table, high.id.clone()).expect("attention item should resolve");

    let active_after_resolve = list_attention_items(&table, Some("workspace-1".to_string()))
        .expect("active attention list");
    assert_eq!(active_after_resolve, vec![low]);
}

#[test]
fn attention_list_filters_by_workspace_and_excludes_resolved_items() {
    let mut table = AttentionTable::new();

    let workspace_one =
        create_attention_item(&mut table, create_input("workspace-1", "blocked", 3, "Workspace one"))
            .expect("workspace one item");
    let workspace_two =
        create_attention_item(&mut table, create_input("workspace-2", "approval", 2, "Workspace two"))
            .expect("workspace two item");

    resolve_attention_item(&mut table, workspace_two.id)
        .expect("workspace two item should resolve");

    let workspace_one_items = list_attention_items(&table, Some("workspace-1".to_string()))
        .expect("workspace one list");
    assert_eq!(workspace_one_items, vec![workspace_one.clone()]);

    let all_active = list_attention_items(&table, None).expect("all active attention list");
    assert_eq!(all_active, vec![workspace_one]);
}

#[test]
fn attention_create_rejects_invalid_kind_and_priority() {
    let mut table = AttentionTable::new();

    let invalid_kind =
        create_attention_item(&mut table, create_input("workspace-1", "surprise", 1, "Invalid kind"));
    assert!(invalid_kind.is_err());

    let invalid_priority =
        create_attention_item(&mut table, create_input("workspace-1", "info", 4, "Invalid priority"));
    assert!(invalid_priority.is_err());
}

#[test]
fn attention_create_reports_each_refusal() {
    let mut table = AttentionTable::new();
    assert_eq!(
        invalid_message(create_attention_item(&mut table, create_input("  ", "info", 1, "Title"))),
        "workspace id cannot be empty"
    );
    assert_eq!(
        invalid_message(create_attention_item(&mut table, create_input("w", "surprise", 1, "Title"))),
        "unsupported attention kind: surprise"
    );
    assert_eq!(
        invalid_message(create_attention_item(&mut table, create_input("w", "info", -1, "Title"))),
        "attention priority must be between 0 and 3"
    );
    assert_eq!(
        invalid_message(create_attention_item(&mut table, create_input("w", "info", 0, " \t"))),
        "attention title cannot be empty"
    );
    let mut no_summary = create_input("w", "done", 2, "Title");
    no_summary.summary = "\n".to_string();
    assert_eq!(
        invalid_message(create_attention_item(&mut table, no_summary)),
        "attention summary cannot be empty"
    );
    assert!(table.rows().is_empty());
}

#[test]
fn attention_create_trims_and_cleans_fields() {
    let mut table = AttentionTable::new();
    let mut input = create_input("  workspace-1 ", "unread", 0, "  Title  ");
    input.session_id = Some("   ".to_string());
    input.action_label = Some("  Open  ".to_string());
    input.action_ref = None;
    let item = create_attention_item(&mut table, input).expect("item");
    assert_eq!(item.workspace_id, "workspace-1");
    assert_eq!(item.title, "Title");
    assert_eq!(item.session_id, None);
    assert_eq!(item.action_label, Some("Open".to_string()));
    assert_eq!(item.resolved_at, None);
    assert_eq!(item.id.len(), 36);
    assert_eq!(item.id.chars().nth(14), Some('4'));
    assert!(item.created_at.ends_with("+00:00"));
    assert_eq!(table.rows().len(), 1);
}

#[test]
fn attention_resolve_refuses_blank_id_and_ignores_unknown() {
    let mut table = AttentionTable::new();
    let item = create_attention_item(&mut table, create_input("w", "info", 1, "One")).expect("item");
    match resolve_attention_item(&mut table, "   ".to_string()) {
        Err(AppError::InvalidInput(message)) => {
            assert_eq!(message, "attention item id cannot be empty")
        }
        other => panic!("unexpected {other:?}"),
    }
    resolve_attention_item(&mut table, "unknown".to_string()).expect("unknown id is no error");
    assert_eq!(list_attention_items(&table, None).expect("list"), vec![item.clone()]);
    resolve_attention_item(&mut table, format!("  {}  ", item.id)).expect("resolve trimmed id");
    assert!(list_attention_items(&table, None).expect("list").is_empty());
    let resolved_at = table.rows()[0].resolved_at.clone().expect("resolved time");
    resolve_attention_item(&mut table, item.id.clone()).expect("second resolve");
    assert_eq!(table.rows()[0].resolved_at, Some(resolved_at));
}

#[test]
fn attention_queue_orders_by_priority_then_creation_time() {
    let rows = vec![
        row("a", "w", 1, "2024-01-03T00:00:00+00:00"),
        row("b", "w", 3, "2024-01-02T00:00:00+00:00"),
        row("c", "w", 1, "2024-01-01T00:00:00+00:00"),
        row("d", "w", 3, "2024-01-01T00:00:00+00:00"),
        row("e", "other", 2, "2024-01-01T00:00:00+00:00"),
    ];
    let table = AttentionTable::from_rows(rows).expect("unique identifiers");
    let ids: Vec<String> =
        list_attention_items(&table, Some("w".to_string())).expect("list").into_iter().map(|i| i.id).collect();
    assert_eq!(ids, vec!["d", "b", "c", "a"]);
    let all: Vec<String> = attention_list(&table, Some("   ".to_string()))
        .expect("list")
        .into_iter()
        .map(|i| i.id)
        .collect();
    assert_eq!(all, vec!["d", "b", "e", "c", "a"]);
    let trimmed: Vec<String> = attention_list(&table, Some(" other ".to_string()))
        .expect("list")
        .into_iter()
        .map(|i| i.id)
        .collect();
    assert_eq!(trimmed, vec!["e"]);
}

fn row(id: &str, workspace: &str, priority: i64, created_at: &str) -> vibe_monitor::attention::AttentionItem {
    vibe_monitor::attention::AttentionItem {
        id: id.to_string(),
        workspace_id: workspace.to_string(),
        session_id: None,
        kind: "info".to_string(),
        priority,
        title: "t".to_string(),
        summary: "s".to_string(),
        action_label: None,
        action_ref: None,
        created_at: created_at.to_string(),
        resolved_at: None,
    }
}

#[test]
fn attention_table_finds_identifiers() {
    let mut table = AttentionTable::new();
    let first = create_attention_item(&mut table, create_input("w", "info", 1, "One")).expect("item");
    let mut rows = table.rows().clone();
    rows.push(first.clone());
    assert!(AttentionTable::from_rows(rows).is_none());
    let table = AttentionTable::from_rows(table.rows().clone()).expect("unique identifiers");
    assert_eq!(table.rows().len(), 1);
    assert!(table.contains_id(&first.id));
    assert!(!table.contains_id("missing"));
}

#[test]
fn created_item_has_an_rfc3339_utc_creation_time_and_is_queued_once() {
    let mut table = AttentionTable::new();
    let item = create_attention_item(&mut table, create_input("workspace-1", "done", 0, "Done"))
        .expect("item");
    let t: Vec<char> = item.created_at.chars().collect();
    assert!(t.len() >= 25);
    assert!(t[..4].iter().all(|c| c.is_ascii_digit()));
    assert_eq!((t[4], t[7], t[10], t[13], t[16]), ('-', '-', 'T', ':', ':'));
    assert!(item.created_at.ends_with("+00:00"));
    let fraction = t.len() - 25;
    assert!([0, 4, 7, 10].contains(&fraction));

    let mine = list_attention_items(&table, Some("workspace-1".to_string())).expect("list");
    assert_eq!(mine.iter().filter(|x| x.id == item.id).count(), 1);
    let all = list_attention_items(&table, None).expect("list");
    assert_eq!(all.iter().filter(|x| x.id == item.id).count(), 1);
}

#[test]
fn an_unresolved_item_stays_listed_once_after_later_changes() {
    let mut table = AttentionTable::new();
    let item = create_attention_item(&mut table, create_input("w", "blocked", 2, "Kept")).expect("item");
    let other = create_attention_item(&mut table, create_input("w", "info", 1, "Other")).expect("other");
    create_attention_item(&mut table, create_input("v", "failed", 3, "Elsewhere")).expect("third");
    resolve_attention_item(&mut table, other.id.clone()).expect("resolve");
    resolve_attention_item(&mut table, "unknown".to_string()).expect("resolve unknown");

    for listed in [
        list_attention_items(&table, Some("w".to_string())).expect("list"),
        list_attention_items(&table, None).expect("list"),
    ] {
        let same: Vec<_> = listed.iter().filter(|x| x.id == item.id).collect();
        assert_eq!(same.len(), 1);
        assert_eq!(same[0], &item);
        assert!(listed.iter().all(|x| x.id != other.id));
    }
}
