use vibe_monitor::error::AppError;
use vibe_monitor::workspace::{
    add_workspace, directory_name, find_workspace_by_id, git_root_candidate, list_workspaces,
    path_to_display_string, remove_workspace, validate_workspace_path, DirectoryFacts, Workspace,
    WorkspaceTable,
};

fn directory(path: &str, git_root: Option<&str>) -> DirectoryFacts {
    DirectoryFacts {
        is_dir: true,
        canonical_path: path.to_string(),
        file_name: path.rsplit('/').next().map(|s| s.to_string()),
        git_root: git_root.map(|g| g.to_string()),
    }
}

fn row(id: &str, name: &str, updated_at: &str) -> Workspace {
    Workspace {
        id: id.to_string(),
        name: name.to_string(),
        path: format!("/p/{id}"),
        git_root: None,
        default_ai_engine: "codex".to_string(),
        created_at: updated_at.to_string(),
        updated_at: updated_at.to_string(),
    }
}

#[test]
fn workspace_add_rejects_non_directory_paths() {
    let mut table = WorkspaceTable::new();

    let result = add_workspace(&mut table, "/tmp/app-data/missing".to_string(), None, |p| {
        Ok(DirectoryFacts { is_dir: false, ..directory(&p, None) })
    });

    assert!(result.is_err());
}

#[test]
fn workspace_add_list_and_remove_persists_workspace_state() {
    let mut table = WorkspaceTable::new();

    let added = add_workspace(&mut table, "/tmp/work/project-one".to_string(), None, |p| {
        Ok(directory(&p, None))
    })
    .expect("workspace should be added");

    assert_eq!(added.name, "project-one");
    assert_eq!(added.default_ai_engine, "codex");
    assert!(added.git_root.is_none());

    let listed = list_workspaces(&table).expect("workspace list");
    assert_eq!(listed, vec![added.clone()]);

    remove_workspace(&mut table, added.id).expect("workspace removal");
    let listed_after_remove = list_workspaces(&table).expect("workspace list");
    assert!(listed_after_remove.is_empty());
}

#[test]
fn workspace_add_records_git_root_when_directory_is_inside_a_git_repo() {
    let mut table = WorkspaceTable::new();
    let added = add_workspace(&mut table, "/tmp/repo/nested".to_string(), None, |p| {
        Ok(directory(&p, Some("/tmp/repo")))
    })
    .expect("workspace should be added");

    assert_eq!(added.git_root.as_deref(), Some("/tmp/repo"));
}

#[test]
fn workspace_add_reports_each_refusal() {
    let mut table = WorkspaceTable::new();
    match add_workspace(&mut table, "  ".to_string(), None, |_| panic!("no inspection")) {
        Err(AppError::InvalidInput(m)) => assert_eq!(m, "workspace path cannot be empty"),
        other => panic!("unexpected {other:?}"),
    }
    match add_workspace(&mut table, " /x/y ".to_string(), None, |p| {
        assert_eq!(p, "/x/y");
        Ok(DirectoryFacts { is_dir: false, ..directory(&p, None) })
    }) {
        Err(AppError::InvalidInput(m)) => assert_eq!(m, "workspace path is not a directory: /x/y"),
        other => panic!("unexpected {other:?}"),
    }
    match add_workspace(&mut table, "/".to_string(), Some("  ".to_string()), |p| {
        Ok(DirectoryFacts { file_name: None, ..directory(&p, None) })
    }) {
        Err(AppError::InvalidInput(m)) => assert_eq!(m, "workspace directory has no name"),
        other => panic!("unexpected {other:?}"),
    }
    match add_workspace(&mut table, "/gone".to_string(), None, |_| Err(AppError::Io("no such file".to_string()))) {
        Err(AppError::Io(m)) => assert_eq!(m, "no such file"),
        other => panic!("unexpected {other:?}"),
    }
    assert!(table.rows().is_empty());
}

#[test]
fn workspace_add_again_updates_the_same_workspace() {
    let mut table = WorkspaceTable::new();
    let first = add_workspace(&mut table, "/w/a".to_string(), None, |p| Ok(directory(&p, None)))
        .expect("first");
    let second = add_workspace(&mut table, "/w/a".to_string(), Some(" Renamed ".to_string()), |p| {
        Ok(directory(&p, Some("/w")))
    })
    .expect("second");
    assert_eq!(second.id, first.id);
    assert_eq!(second.created_at, first.created_at);
    assert_eq!(second.name, "Renamed");
    assert_eq!(second.git_root.as_deref(), Some("/w"));
    assert_eq!(list_workspaces(&table).expect("list").len(), 1);
    assert_eq!(find_workspace_by_id(&table, &first.id).expect("find"), Some(second));
}

#[test]
fn workspace_list_orders_by_update_time_then_name() {
    let table = WorkspaceTable::from_rows(vec![
        row("1", "beta", "2024-01-01"),
        row("2", "alpha", "2024-01-01"),
        row("3", "zeta", "2024-02-01"),
    ])
    .expect("unique paths and identifiers");
    let names: Vec<String> = list_workspaces(&table).expect("list").into_iter().map(|w| w.name).collect();
    assert_eq!(names, vec!["zeta", "alpha", "beta"]);
}

#[test]
fn workspace_paths_and_names_are_read_as_shown() {
    assert_eq!(path_to_display_string("\\\\?\\C:\\work"), "C:\\work");
    assert_eq!(path_to_display_string("/home/me"), "/home/me");
    assert_eq!(directory_name(Some("proj".to_string())).expect("name"), "proj");
    assert!(directory_name(Some("  ".to_string())).is_err());
    assert!(directory_name(None).is_err());
    assert_eq!(validate_workspace_path("  /a  ").expect("path"), "/a");
    assert_eq!(git_root_candidate(true, " /repo \n"), Some("/repo".to_string()));
    assert_eq!(git_root_candidate(true, "  "), None);
    assert_eq!(git_root_candidate(false, "/repo"), None);
}

#[test]
fn workspace_removal_of_unknown_id_changes_nothing() {
    let mut table = WorkspaceTable::from_rows(vec![row("1", "a", "t")]).expect("unique");
    remove_workspace(&mut table, "2".to_string()).expect("remove");
    assert_eq!(table.rows().len(), 1);
    remove_workspace(&mut table, "1".to_string()).expect("remove");
    assert!(find_workspace_by_id(&table, "1").expect("find").is_none());
}

#[test]
fn workspace_table_refuses_shared_paths_or_identifiers() {
    let mut same_path = row("2", "b", "t");
    same_path.path = "/p/1".to_string();
    assert!(WorkspaceTable::from_rows(vec![row("1", "a", "t"), same_path]).is_none());
    assert!(WorkspaceTable::from_rows(vec![row("1", "a", "t"), row("1", "b", "t")]).is_none());
    assert!(WorkspaceTable::from_rows(vec![row("1", "a", "t"), row("2", "b", "t")]).is_some());
}
