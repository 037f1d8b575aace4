use vibe_monitor::attention::{list_attention_items, AttentionTable};
use vibe_monitor::error::AppError;
use vibe_monitor::git::{
    self, create_conflict_attention_item, parse_status_output, CommandOutput, GitFileStatus,
    GitStatus,
};
use vibe_monitor::workspace::{add_workspace, DirectoryFacts, WorkspaceTable};

fn workspace_with_root(table: &mut WorkspaceTable, path: &str, git_root: Option<&str>) -> String {
    add_workspace(table, path.to_string(), None, |p| {
        Ok(DirectoryFacts {
            is_dir: true,
            canonical_path: p.clone(),
            file_name: p.rsplit('/').next().map(|s| s.to_string()),
            git_root: git_root.map(|g| g.to_string()),
        })
    })
    .expect("workspace should be added")
    .id
}

fn output(success: bool, stdout: &str, stderr: &str) -> CommandOutput {
    CommandOutput {
        success,
        status: "exit status: 128".to_string(),
        stdout: stdout.to_string(),
        stderr: stderr.to_string(),
    }
}

#[test]
fn git_status_parser_reads_branch_ahead_behind_and_files() {
    let status = git::parse_status_output(
        "## feature/git-status-diff...origin/feature/git-status-diff [ahead 1, behind 2]\n M src/main.rs\nA  src/new.rs\n?? notes.md\nUU src/conflict.rs\n",
    )
    .expect("status output should parse");

    assert!(status.available);
    assert_eq!(status.branch.as_deref(), Some("feature/git-status-diff"));
    assert_eq!(status.ahead, 1);
    assert_eq!(status.behind, 2);
    assert_eq!(status.files.len(), 4);
    assert_eq!(status.files[0].path, "src/main.rs");
    assert_eq!(status.files[0].index_status, " ");
    assert_eq!(status.files[0].worktree_status, "M");
    assert_eq!(status.files[2].path, "notes.md");
    assert_eq!(status.files[2].index_status, "?");
    assert_eq!(status.files[2].worktree_status, "?");
    assert!(status.has_unmerged_files());
}

#[test]
fn git_status_parser_handles_renames_new_branches_and_bad_counts() {
    let status = parse_status_output(
        "## No commits yet on main\r\nR  old.rs -> new.rs\nab\n\n M  \n",
    )
    .expect("parse");
    assert_eq!(status.branch.as_deref(), Some("main"));
    assert_eq!(status.files.len(), 1);
    assert_eq!(status.files[0].path, "new.rs");
    assert_eq!(status.files[0].index_status, "R");
    assert!(!status.has_unmerged_files());

    let gone = parse_status_output("## HEAD (no branch) [ahead x, behind -3]]]\n").expect("parse");
    assert_eq!(gone.branch.as_deref(), Some("HEAD (no branch)"));
    assert_eq!(gone.ahead, 0);
    assert_eq!(gone.behind, -3);

    let empty = parse_status_output("").expect("parse");
    assert!(empty.available);
    assert_eq!(empty.branch, None);
    assert!(empty.files.is_empty());
}

#[test]
fn unmerged_pairs_are_the_seven_conflict_codes() {
    let status = |x: &str, y: &str| GitStatus {
        available: true,
        branch: None,
        ahead: 0,
        behind: 0,
        files: vec![GitFileStatus { path: "f".to_string(), index_status: x.to_string(), worktree_status: y.to_string() }],
        error: None,
    };
    for (x, y) in [("D", "D"), ("A", "U"), ("U", "D"), ("U", "A"), ("D", "U"), ("A", "A"), ("U", "U")] {
        assert!(status(x, y).has_unmerged_files(), "{x}{y}");
    }
    for (x, y) in [("M", "M"), ("A", " "), ("?", "?"), ("D", " "), ("UU", "")] {
        assert!(!status(x, y).has_unmerged_files(), "{x}{y}");
    }
    let unavailable = GitStatus::unavailable("no repo");
    assert!(!unavailable.available);
    assert_eq!(unavailable.error.as_deref(), Some("no repo"));
}

#[test]
fn git_status_returns_unavailable_for_workspace_without_git_root() {
    let mut workspaces = WorkspaceTable::new();
    let mut attention = AttentionTable::new();
    let id = workspace_with_root(&mut workspaces, "/tmp/project", None);

    let status = git::status(&workspaces, &mut attention, id, |_, _| panic!("git must not run"))
        .expect("git status should not error");

    assert!(!status.available);
    assert_eq!(status.files, Vec::new());
    assert_eq!(status.error.as_deref(), Some("workspace is not a Git repository"));
}

#[test]
fn git_status_runs_porcelain_status_and_reports_conflicts() {
    let mut workspaces = WorkspaceTable::new();
    let mut attention = AttentionTable::new();
    let id = workspace_with_root(&mut workspaces, "/tmp/repo/sub", Some("/tmp/repo"));

    let status = git::status(&workspaces, &mut attention, format!(" {id} "), |root, args| {
        assert_eq!(root, "/tmp/repo");
        assert_eq!(args, vec!["status", "--porcelain=v1", "--branch"]);
        Ok(output(true, "## main\nUU a.rs\n", ""))
    })
    .expect("status");
    assert_eq!(status.branch.as_deref(), Some("main"));
    assert_eq!(list_attention_items(&attention, Some(id.clone())).expect("list").len(), 1);

    let failed = git::status(&workspaces, &mut attention, id.clone(), |_, _| {
        Ok(output(false, "", " fatal: not a git repository \n"))
    })
    .expect("status");
    assert!(!failed.available);
    assert_eq!(failed.error.as_deref(), Some("fatal: not a git repository"));

    match git::status(&workspaces, &mut attention, "missing".to_string(), |_, _| panic!("no run")) {
        Err(AppError::InvalidInput(m)) => assert_eq!(m, "workspace not found"),
        other => panic!("unexpected {other:?}"),
    }
}

#[test]
fn unmerged_status_creates_blocked_attention_item() {
    let mut attention = AttentionTable::new();
    let status = git::parse_status_output("## main\nUU src/conflict.rs\n")
        .expect("status output should parse");

    git::create_conflict_attention_item(&mut attention, "workspace-1", &status)
        .expect("conflict attention should be created");

    let items = list_attention_items(&attention, Some("workspace-1".to_string()))
        .expect("attention list should load");
    assert_eq!(items.len(), 1);
    assert_eq!(items[0].kind, "blocked");
    assert_eq!(items[0].priority, 3);
    assert_eq!(items[0].title, "Git conflict requires attention");
}

#[test]
fn conflict_item_is_raised_once() {
    let mut attention = AttentionTable::new();
    let status = parse_status_output("AA both.rs\n").expect("parse");
    create_conflict_attention_item(&mut attention, "w", &status).expect("first");
    create_conflict_attention_item(&mut attention, "w", &status).expect("second");
    assert_eq!(attention.rows().len(), 1);
    let clean = parse_status_output(" M a.rs\n").expect("parse");
    create_conflict_attention_item(&mut attention, "other", &clean).expect("clean");
    assert_eq!(attention.rows().len(), 1);
}

#[test]
fn stage_unstage_and_diff_run_the_expected_commands() {
    let mut workspaces = WorkspaceTable::new();
    let id = workspace_with_root(&mut workspaces, "/tmp/repo", Some("/tmp/repo"));
    git::stage(&workspaces, id.clone(), " src/a.rs ".to_string(), |root, args| {
        assert_eq!(root, "/tmp/repo");
        assert_eq!(args, vec!["add", "--", "src/a.rs"]);
        Ok(output(true, "", ""))
    })
    .expect("stage");
    match git::unstage(&workspaces, id.clone(), "src/a.rs".to_string(), |_, args| {
        assert_eq!(args, vec!["restore", "--staged", "--", "src/a.rs"]);
        Ok(output(false, " out ", ""))
    }) {
        Err(AppError::CommandFailed(m)) => assert_eq!(m, "out"),
        other => panic!("unexpected {other:?}"),
    }
    match git::stage(&workspaces, id.clone(), "  ".to_string(), |_, _| panic!("no run")) {
        Err(AppError::InvalidInput(m)) => assert_eq!(m, "git path cannot be empty"),
        other => panic!("unexpected {other:?}"),
    }
    match git::stage(&workspaces, id.clone(), "a\0b".to_string(), |_, _| panic!("no run")) {
        Err(AppError::InvalidInput(m)) => assert_eq!(m, "git path cannot contain NUL bytes"),
        other => panic!("unexpected {other:?}"),
    }
    let d = git::diff(&workspaces, id.clone(), Some(" a.rs ".to_string()), |_, args| {
        assert_eq!(args, vec!["diff", "--", "a.rs"]);
        Ok(output(true, "diff text", ""))
    })
    .expect("diff");
    assert_eq!(d.path.as_deref(), Some("a.rs"));
    assert_eq!(d.text, "diff text");
    let whole = git::diff(&workspaces, id, None, |_, args| {
        assert_eq!(args, vec!["diff"]);
        Ok(output(false, "", ""))
    });
    match whole {
        Err(AppError::CommandFailed(m)) => assert_eq!(m, "git exited with status exit status: 128"),
        other => panic!("unexpected {other:?}"),
    }
    let mut plain = WorkspaceTable::new();
    let no_git = workspace_with_root(&mut plain, "/tmp/plain", None);
    match git::stage(&plain, no_git, "a".to_string(), |_, _| panic!("no run")) {
        Err(AppError::InvalidInput(m)) => assert_eq!(m, "workspace is not a Git repository"),
        other => panic!("unexpected {other:?}"),
    }
}
