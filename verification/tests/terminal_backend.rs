use std::sync::{Arc, Mutex};

use vibe_monitor::error::AppError;
use vibe_monitor::terminal::{
    self, TerminalBackend, TerminalLaunchSpec, TerminalLauncher, TerminalManager,
};
use vibe_monitor::workspace::{add_workspace, DirectoryFacts, Workspace, WorkspaceTable};

#[derive(Clone, Default)]
struct FakeLauncher {
    specs: Arc<Mutex<Vec<TerminalLaunchSpec>>>,
    writes: Arc<Mutex<Vec<String>>>,
    resizes: Arc<Mutex<Vec<(u16, u16)>>>,
    closes: Arc<Mutex<usize>>,
}

impl TerminalLauncher for FakeLauncher {
    fn spawn(&self, spec: TerminalLaunchSpec) -> Result<Box<dyn TerminalBackend>, AppError> {
        self.specs.lock().expect("specs lock").push(spec);
        Ok(Box::new(FakeTerminalBackend {
            writes: self.writes.clone(),
            resizes: self.resizes.clone(),
            closes: self.closes.clone(),
        }))
    }
}

struct FakeTerminalBackend {
    writes: Arc<Mutex<Vec<String>>>,
    resizes: Arc<Mutex<Vec<(u16, u16)>>>,
    closes: Arc<Mutex<usize>>,
}

impl TerminalBackend for FakeTerminalBackend {
    fn write(&mut self, data: &str) -> Result<(), AppError> {
        self.writes
            .lock()
            .expect("writes lock")
            .push(data.to_string());
        Ok(())
    }

    fn resize(&mut self, cols: u16, rows: u16) -> Result<(), AppError> {
        self.resizes.lock().expect("resizes lock").push((cols, rows));
        Ok(())
    }

    fn close(&mut self) -> Result<(), AppError> {
        *self.closes.lock().expect("closes lock") += 1;
        Ok(())
    }
}

struct FailingLauncher;

impl TerminalLauncher for FailingLauncher {
    fn spawn(&self, _spec: TerminalLaunchSpec) -> Result<Box<dyn TerminalBackend>, AppError> {
        Err(AppError::CommandFailed("failed to open terminal".to_string()))
    }
}

fn workspace(table: &mut WorkspaceTable, path: &str) -> Workspace {
    add_workspace(table, path.to_string(), None, |p| {
        Ok(DirectoryFacts {
            is_dir: true,
            canonical_path: p.clone(),
            file_name: Some("project".to_string()),
            git_root: None,
        })
    })
    .expect("workspace should be added")
}

#[test]
fn terminal_open_rejects_unknown_workspace_without_spawning() {
    let workspaces = WorkspaceTable::new();
    let launcher = FakeLauncher::default();
    let mut manager = TerminalManager::new(Box::new(launcher.clone()));

    let result = manager.open_session(&workspaces, "missing-workspace".to_string(), 80, 24, terminal::default_shell(true, None));

    assert!(result.is_err());
    assert!(launcher.specs.lock().expect("specs lock").is_empty());
}

#[test]
fn terminal_open_stores_session_and_launches_default_shell_in_workspace() {
    let mut workspaces = WorkspaceTable::new();
    let workspace = workspace(&mut workspaces, "/tmp/project");
    let launcher = FakeLauncher::default();
    let mut manager = TerminalManager::new(Box::new(launcher.clone()));

    let session = manager
        .open_session(&workspaces, workspace.id.clone(), 120, 30, terminal::default_shell(true, None))
        .expect("terminal should open");

    assert_eq!(session.workspace_id, workspace.id);
    assert_eq!(session.cwd, workspace.path);
    assert_eq!(session.cols, 120);
    assert_eq!(session.rows, 30);

    let specs = launcher.specs.lock().expect("specs lock");
    assert_eq!(specs.len(), 1);
    assert_eq!(specs[0].cwd, workspace.path);
    assert_eq!(specs[0].shell, terminal::default_shell(true, None));
    assert_eq!(specs[0].cols, 120);
    assert_eq!(specs[0].rows, 30);
}

#[test]
fn terminal_resize_rejects_zero_dimensions_and_updates_session() {
    let mut workspaces = WorkspaceTable::new();
    let workspace = workspace(&mut workspaces, "/tmp/project");
    let mut manager = TerminalManager::new(Box::new(FakeLauncher::default()));
    let session = manager
        .open_session(&workspaces, workspace.id, 80, 24, terminal::default_shell(true, None))
        .expect("terminal should open");

    assert!(manager.resize_session(&session.id, 0, 24).is_err());

    manager
        .resize_session(&session.id, 100, 40)
        .expect("terminal should resize");
    let resized = manager.session(&session.id).expect("session should exist");
    assert_eq!(resized.cols, 100);
    assert_eq!(resized.rows, 40);
}

#[test]
fn terminal_write_and_close_reject_unknown_session_ids() {
    let mut workspaces = WorkspaceTable::new();
    let workspace = workspace(&mut workspaces, "/tmp/project");
    let launcher = FakeLauncher::default();
    let mut manager = TerminalManager::new(Box::new(launcher.clone()));
    let session = manager
        .open_session(&workspaces, workspace.id, 80, 24, terminal::default_shell(true, None))
        .expect("terminal should open");

    assert!(manager.write_session("missing", "git status\r\n").is_err());
    assert!(manager.close_session("missing").is_err());

    manager
        .write_session(&session.id, "git status\r\n")
        .expect("terminal should accept input");
    assert_eq!(
        launcher.writes.lock().expect("writes lock").as_slice(),
        &["git status\r\n".to_string()]
    );

    manager
        .close_session(&session.id)
        .expect("terminal should close");
    assert!(manager
        .write_session(&session.id, "node --version\r\n")
        .is_err());
}

#[test]
fn terminal_open_checks_size_and_identifier_first() {
    let mut workspaces = WorkspaceTable::new();
    let workspace = workspace(&mut workspaces, "/tmp/project");
    let launcher = FakeLauncher::default();
    let mut manager = TerminalManager::new(Box::new(launcher.clone()));
    match manager.open_session(&workspaces, workspace.id.clone(), 0, 24, terminal::default_shell(true, None)) {
        Err(AppError::InvalidInput(m)) => assert_eq!(m, "terminal dimensions must be greater than zero"),
        other => panic!("unexpected {other:?}"),
    }
    match manager.open_session(&workspaces, "  ".to_string(), 80, 24, terminal::default_shell(true, None)) {
        Err(AppError::InvalidInput(m)) => assert_eq!(m, "workspace id cannot be empty"),
        other => panic!("unexpected {other:?}"),
    }
    match manager.open_session(&workspaces, "nope".to_string(), 80, 24, terminal::default_shell(true, None)) {
        Err(AppError::InvalidInput(m)) => assert_eq!(m, "workspace was not found"),
        other => panic!("unexpected {other:?}"),
    }
    assert!(launcher.specs.lock().expect("specs").is_empty());
    let session = manager.open_session(&workspaces, format!(" {} ", workspace.id), 80, 24, "/bin/sh".to_string()).expect("open");
    assert_eq!(session.shell, "/bin/sh");
    assert_eq!(session.id.len(), 36);
    assert!(manager.session(&format!(" {} ", session.id)).is_some());
}

#[test]
fn default_shell_is_powershell_on_windows_and_the_shell_variable_elsewhere() {
    assert_eq!(terminal::default_shell(true, Some("/bin/zsh".to_string())), "powershell.exe");
    assert_eq!(terminal::default_shell(true, None), "powershell.exe");
    assert_eq!(terminal::default_shell(false, Some("/bin/zsh".to_string())), "/bin/zsh");
    assert_eq!(terminal::default_shell(false, None), "/bin/sh");
}

#[test]
fn terminal_open_reports_launcher_failure_and_keeps_nothing() {
    let mut workspaces = WorkspaceTable::new();
    let workspace = workspace(&mut workspaces, "/tmp/project");
    let mut manager = TerminalManager::new(Box::new(FailingLauncher));
    match manager.open_session(&workspaces, workspace.id, 80, 24, terminal::default_shell(true, None)) {
        Err(AppError::CommandFailed(m)) => assert_eq!(m, "failed to open terminal"),
        other => panic!("unexpected {other:?}"),
    }
}

#[test]
fn terminal_resize_and_close_reach_the_process_of_the_session() {
    let mut workspaces = WorkspaceTable::new();
    let workspace = workspace(&mut workspaces, "/tmp/project");
    let launcher = FakeLauncher::default();
    let mut manager = TerminalManager::new(Box::new(launcher.clone()));
    let session = manager.open_session(&workspaces, workspace.id, 80, 24, terminal::default_shell(true, None)).expect("open");

    assert!(manager.resize_session(&session.id, 0, 40).is_err());
    assert!(manager.resize_session("missing", 100, 40).is_err());
    assert!(launcher.resizes.lock().expect("resizes lock").is_empty());
    manager.resize_session(&session.id, 100, 40).expect("resize");
    assert_eq!(launcher.resizes.lock().expect("resizes lock").as_slice(), &[(100, 40)]);

    assert!(manager.close_session("missing").is_err());
    assert_eq!(*launcher.closes.lock().expect("closes lock"), 0);
    manager.close_session(&session.id).expect("close");
    assert_eq!(*launcher.closes.lock().expect("closes lock"), 1);
    assert!(manager.session(&session.id).is_none());
}
