//! Integrated terminals: the sessions that are open, keyed by their
//! identifiers, and the rules for opening, writing to, resizing and closing
//! them. The terminal itself is behind `TerminalLauncher` and
//! `TerminalBackend`, which the embedding application implements.
use vstd::prelude::*;
use crate::error::AppError;
use crate::keyed::KeyedList;
use crate::stamps::{new_id, now_rfc3339, utc_stamp, uuid_v4_text};
use crate::text::{blank, trim, trim_seq, trimmed};
use crate::workspace::{find_workspace_by_id, row_with_id, WorkspaceTable, WorkspaceView};

verus! {

/// The width of a terminal that the user has not sized.
pub const DEFAULT_COLS: u16 = 80;

/// The height of a terminal that the user has not sized.
pub const DEFAULT_ROWS: u16 = 24;

/// The event that carries output of a terminal.
pub const OUTPUT_EVENT: &'static str = "terminal://output";

/// An open terminal.
#[derive(Debug, Clone, PartialEq, Eq)]
pub struct TerminalSession {
    pub id: String,
    pub workspace_id: String,
    pub cwd: String,
    pub shell: String,
    pub cols: u16,
    pub rows: u16,
    pub created_at: String,
}

/// What a launcher needs to start a terminal.
#[derive(Debug, Clone, PartialEq, Eq)]
pub struct TerminalLaunchSpec {
    pub session_id: String,
    pub workspace_id: String,
    pub cwd: String,
    pub shell: String,
    pub cols: u16,
    pub rows: u16,
}

/// Output that a terminal wrote.
#[derive(Debug, Clone, PartialEq, Eq)]
pub struct TerminalOutputEvent {
    pub session_id: String,
    pub data: String,
}

/// An open terminal as plain values.
pub struct TerminalSessionView {
    pub id: Seq<char>,
    pub workspace_id: Seq<char>,
    pub cwd: Seq<char>,
    pub shell: Seq<char>,
    pub cols: u16,
    pub rows: u16,
    pub created_at: Seq<char>,
}

impl View for TerminalSession {
    type V = TerminalSessionView;

    open spec fn view(&self) -> TerminalSessionView {
        TerminalSessionView {
            id: self.id@,
            workspace_id: self.workspace_id@,
            cwd: self.cwd@,
            shell: self.shell@,
            cols: self.cols,
            rows: self.rows,
            created_at: self.created_at@,
        }
    }
}

impl TerminalSession {
    /// A copy of the session.
    pub fn duplicate(&self) -> (r: TerminalSession)
        ensures
            r@ == self@,
    {
        TerminalSession {
            id: self.id.clone(),
            workspace_id: self.workspace_id.clone(),
            cwd: self.cwd.clone(),
            shell: self.shell.clone(),
            cols: self.cols,
            rows: self.rows,
            created_at: self.created_at.clone(),
        }
    }
}

/// A running terminal process.
pub trait TerminalBackend: Send {
    /// Sends input to the terminal.
    fn write(&mut self, data: &str) -> Result<(), AppError>;

    /// Gives the terminal a new size.
    fn resize(&mut self, cols: u16, rows: u16) -> Result<(), AppError>;

    /// Ends the terminal process.
    fn close(&mut self) -> Result<(), AppError>;
}

/// Starts terminal processes.
pub trait TerminalLauncher: Send {
    /// Starts a terminal as `spec` describes.
    fn spawn(&self, spec: TerminalLaunchSpec) -> Result<Box<dyn TerminalBackend>, AppError>;
}

/// A launch spec as plain values.
pub struct TerminalLaunchSpecView {
    pub session_id: Seq<char>,
    pub workspace_id: Seq<char>,
    pub cwd: Seq<char>,
    pub shell: Seq<char>,
    pub cols: u16,
    pub rows: u16,
}

impl View for TerminalLaunchSpec {
    type V = TerminalLaunchSpecView;

    open spec fn view(&self) -> TerminalLaunchSpecView {
        TerminalLaunchSpecView {
            session_id: self.session_id@,
            workspace_id: self.workspace_id@,
            cwd: self.cwd@,
            shell: self.shell@,
            cols: self.cols,
            rows: self.rows,
        }
    }
}

/// A start of a terminal: the spec handed to the launcher, and the error
/// that the launcher gave back (none when it started the terminal).
pub struct LaunchRecord {
    pub spec: TerminalLaunchSpecView,
    pub error: Option<AppError>,
}

/// A call on the process of an open terminal, with what the call gave back.
pub enum BackendCall {
    Write { session_id: Seq<char>, data: Seq<char>, result: Result<(), AppError> },
    Resize { session_id: Seq<char>, cols: u16, rows: u16, result: Result<(), AppError> },
    Close { session_id: Seq<char>, result: Result<(), AppError> },
}

/// An open terminal and its process.
struct TerminalEntry {
    session: TerminalSession,
    backend: Box<dyn TerminalBackend>,
}

/// The open terminals of the cockpit. Beside the sessions it keeps, as
/// ghost state, the record of every terminal that it asked the launcher to
/// start and of every call that it made on a terminal's process.
pub struct TerminalManager {
    sessions: KeyedList<TerminalEntry>,
    launcher: Box<dyn TerminalLauncher>,
    launches: Ghost<Seq<LaunchRecord>>,
    calls: Ghost<Seq<BackendCall>>,
}

/// Both sides of a terminal are at least one cell.
pub open spec fn valid_dimensions(cols: u16, rows: u16) -> bool {
    cols > 0 && rows > 0
}

/// The shell that terminals run by default: PowerShell on Windows; elsewhere
/// the shell that the `SHELL` variable names when it is set, else `/bin/sh`.
pub open spec fn default_shell_of(windows: bool, shell_var: Option<Seq<char>>) -> Seq<char> {
    if windows {
        "powershell.exe"@
    } else {
        match shell_var {
            Some(s) => s,
            None => "/bin/sh"@,
        }
    }
}

/// Why opening a terminal is refused before anything is started; nothing
/// when the size is valid and the workspace (trimmed identifier) is known.
pub open spec fn open_refusal(
    workspaces: Seq<WorkspaceView>,
    workspace_id: Seq<char>,
    cols: u16,
    rows: u16,
) -> Option<Seq<char>> {
    if !valid_dimensions(cols, rows) {
        Some("terminal dimensions must be greater than zero"@)
    } else if blank(workspace_id) {
        Some("workspace id cannot be empty"@)
    } else if row_with_id(workspaces, trim_seq(workspace_id)) is None {
        Some("workspace was not found"@)
    } else {
        None
    }
}

/// The spec that starts a terminal `session_id` for the workspace `w`: in
/// the workspace's directory, with `shell`, `cols` by `rows` cells.
pub open spec fn launch_spec_for(
    w: WorkspaceView,
    session_id: Seq<char>,
    shell: Seq<char>,
    cols: u16,
    rows: u16,
) -> TerminalLaunchSpecView {
    TerminalLaunchSpecView {
        session_id: session_id,
        workspace_id: w.id,
        cwd: w.path,
        shell: shell,
        cols: cols,
        rows: rows,
    }
}

/// The session that a started terminal makes, created at `created_at`.
pub open spec fn session_for(spec: TerminalLaunchSpecView, created_at: Seq<char>) -> TerminalSessionView {
    TerminalSessionView {
        id: spec.session_id,
        workspace_id: spec.workspace_id,
        cwd: spec.cwd,
        shell: spec.shell,
        cols: spec.cols,
        rows: spec.rows,
        created_at: created_at,
    }
}

/// What opening a terminal does, from the launches and sessions before to
/// those after, with the result `r`: a refusal starts nothing and keeps
/// nothing; otherwise one start is recorded, for a fresh identifier, in the
/// workspace's directory, and its error comes back or its session is kept.
pub open spec fn open_outcome(
    workspaces: Seq<WorkspaceView>,
    workspace_id: Seq<char>,
    cols: u16,
    rows: u16,
    shell: Seq<char>,
    old_launches: Seq<LaunchRecord>,
    new_launches: Seq<LaunchRecord>,
    old_sessions: Map<Seq<char>, TerminalSessionView>,
    new_sessions: Map<Seq<char>, TerminalSessionView>,
    r: Result<TerminalSession, AppError>,
) -> bool {
    match open_refusal(workspaces, workspace_id, cols, rows) {
        Some(m) => {
            &&& r matches Err(AppError::InvalidInput(x)) && x@ == m
            &&& new_sessions == old_sessions
            &&& new_launches == old_launches
        },
        None => {
            let w = row_with_id(workspaces, trim_seq(workspace_id))->0;
            let rec = new_launches.last();
            &&& new_launches.len() == old_launches.len() + 1
            &&& new_launches.drop_last() =~= old_launches
            &&& uuid_v4_text(rec.spec.session_id)
            &&& rec.spec == launch_spec_for(w, rec.spec.session_id, shell, cols, rows)
            &&& match rec.error {
                Some(e) => r == Err::<TerminalSession, AppError>(e) && new_sessions == old_sessions,
                None => r matches Ok(s) && {
                    &&& s@ == session_for(rec.spec, s.created_at@)
                    &&& utc_stamp(s.created_at@)
                    &&& new_sessions =~= old_sessions.insert(s.id@, s@)
                },
            }
        },
    }
}

/// The sessions of a map of open terminals.
spec fn session_views(m: Map<Seq<char>, TerminalEntry>) -> Map<Seq<char>, TerminalSessionView> {
    m.map_values(|e: TerminalEntry| e.session@)
}

proof fn lemma_session_views_insert(m: Map<Seq<char>, TerminalEntry>, k: Seq<char>, e: TerminalEntry)
    ensures
        session_views(m.insert(k, e)) == session_views(m).insert(k, e.session@),
{
    assert(session_views(m.insert(k, e)) =~= session_views(m).insert(k, e.session@));
}

proof fn lemma_session_views_remove(m: Map<Seq<char>, TerminalEntry>, k: Seq<char>)
    ensures
        session_views(m.remove(k)) == session_views(m).remove(k),
{
    assert(session_views(m.remove(k)) =~= session_views(m).remove(k));
}

/// Checks that a terminal is at least one cell wide and high.
fn validate_dimensions(cols: u16, rows: u16) -> (r: Result<(), AppError>)
    ensures
        valid_dimensions(cols, rows) ==> r is Ok,
        !valid_dimensions(cols, rows) ==> (r matches Err(AppError::InvalidInput(m)) && m@
            == "terminal dimensions must be greater than zero"@),
{
    if cols == 0 || rows == 0 {
        return Err(
            AppError::InvalidInput("terminal dimensions must be greater than zero".to_owned()),
        );
    }
    Ok(())
}

/// The shell that terminals run by default, on Windows (`windows`) or
/// elsewhere, given the value of the `SHELL` variable when it is set.
pub fn default_shell(windows: bool, shell_var: Option<String>) -> (r: String)
    ensures
        r@ == default_shell_of(windows, shell_var.deep_view()),
{
    if windows {
        "powershell.exe".to_owned()
    } else {
        match shell_var {
            Some(s) => s,
            None => "/bin/sh".to_owned(),
        }
    }
}

/// The error that a launcher gave back, if it gave one.
pub open spec fn launch_error(r: Result<Box<dyn TerminalBackend>, AppError>) -> Option<AppError> {
    match r {
        Ok(_) => None,
        Err(e) => Some(e),
    }
}

/// Asks `launcher` to start a terminal as `spec` describes, and records the
/// spec that it was handed and the error that it gave back.
fn launch(
    launcher: &Box<dyn TerminalLauncher>,
    spec: TerminalLaunchSpec,
    log: &mut Ghost<Seq<LaunchRecord>>,
) -> (r: Result<Box<dyn TerminalBackend>, AppError>)
    ensures
        final(log)@ == old(log)@.push(
            LaunchRecord {
                spec: spec@,
                error: launch_error(r),
            },
        ),
{
    let ghost sv = spec@;
    let r = launcher.spawn(spec);
    proof {
        log@ = log@.push(
            LaunchRecord {
                spec: sv,
                error: launch_error(r),
            },
        );
    }
    r
}

/// Hands `data` to the process of the session `session_id`, and records the
/// call with what it gave back.
fn backend_write(
    backend: &mut Box<dyn TerminalBackend>,
    session_id: &String,
    data: &str,
    log: &mut Ghost<Seq<BackendCall>>,
) -> (r: Result<(), AppError>)
    ensures
        final(log)@ == old(log)@.push(
            BackendCall::Write { session_id: session_id@, data: data@, result: r },
        ),
{
    let r = backend.write(data);
    proof {
        log@ = log@.push(BackendCall::Write { session_id: session_id@, data: data@, result: r });
    }
    r
}

/// Asks the process of the session `session_id` for `cols` by `rows`
/// cells, and records the call with what it gave back.
fn backend_resize(
    backend: &mut Box<dyn TerminalBackend>,
    session_id: &String,
    cols: u16,
    rows: u16,
    log: &mut Ghost<Seq<BackendCall>>,
) -> (r: Result<(), AppError>)
    ensures
        final(log)@ == old(log)@.push(
            BackendCall::Resize { session_id: session_id@, cols, rows, result: r },
        ),
{
    let r = backend.resize(cols, rows);
    proof {
        log@ = log@.push(BackendCall::Resize { session_id: session_id@, cols, rows, result: r });
    }
    r
}

/// Asks the process of the session `session_id` to end, and records the
/// call with what it gave back.
fn backend_close(
    backend: &mut Box<dyn TerminalBackend>,
    session_id: &String,
    log: &mut Ghost<Seq<BackendCall>>,
) -> (r: Result<(), AppError>)
    ensures
        final(log)@ == old(log)@.push(BackendCall::Close { session_id: session_id@, result: r }),
{
    let r = backend.close();
    proof {
        log@ = log@.push(BackendCall::Close { session_id: session_id@, result: r });
    }
    r
}

impl TerminalManager {
    /// The open sessions, by identifier.
    pub closed spec fn sessions(&self) -> Map<Seq<char>, TerminalSessionView> {
        session_views(self.sessions.map())
    }

    /// Every terminal that the manager asked the launcher to start, in order.
    pub closed spec fn launches(&self) -> Seq<LaunchRecord> {
        self.launches@
    }

    /// Every call that the manager made on a terminal's process, in order.
    pub closed spec fn backend_calls(&self) -> Seq<BackendCall> {
        self.calls@
    }

    /// No terminal is open or started yet.
    pub fn new(launcher: Box<dyn TerminalLauncher>) -> (r: TerminalManager)
        ensures
            r.sessions() == Map::<Seq<char>, TerminalSessionView>::empty(),
            r.launches() == Seq::<LaunchRecord>::empty(),
            r.backend_calls() == Seq::<BackendCall>::empty(),
    {
        let r = TerminalManager {
            sessions: KeyedList::new(),
            launcher,
            launches: Ghost(Seq::empty()),
            calls: Ghost(Seq::empty()),
        };
        assert(r.sessions() =~= Map::<Seq<char>, TerminalSessionView>::empty());
        r
    }

    /// Opens a terminal in the workspace `workspace_id` (trimmed), `cols` by
    /// `rows` cells, running `shell`. An empty size, a blank identifier or an
    /// unknown workspace is refused before anything is started. Otherwise the
    /// launcher is asked, once, to start `shell` in the workspace's
    /// directory under a fresh identifier; its error comes back as it came,
    /// and when it starts the terminal the new session, created at the
    /// current time, is kept.
    pub fn open_session(
        &mut self,
        workspaces: &WorkspaceTable,
        workspace_id: String,
        cols: u16,
        rows: u16,
        shell: String,
    ) -> (r: Result<TerminalSession, AppError>)
        ensures
            final(self).backend_calls() == old(self).backend_calls(),
            open_outcome(
                workspaces@,
                workspace_id@,
                cols,
                rows,
                shell@,
                old(self).launches(),
                final(self).launches(),
                old(self).sessions(),
                final(self).sessions(),
                r,
            ),
    {
        if let Err(e) = validate_dimensions(cols, rows) {
            return Err(e);
        }
        let workspace_id = trim(workspace_id.as_str());
        if workspace_id.is_empty() {
            return Err(AppError::InvalidInput("workspace id cannot be empty".to_owned()));
        }
        let workspace = match find_workspace_by_id(workspaces, workspace_id) {
            Ok(Some(w)) => w,
            _ => return Err(AppError::InvalidInput("workspace was not found".to_owned())),
        };
        let session_id = new_id();
        let spec = TerminalLaunchSpec {
            session_id: session_id.clone(),
            workspace_id: workspace.id.clone(),
            cwd: workspace.path.clone(),
            shell: shell.clone(),
            cols,
            rows,
        };
        let spawned = launch(&self.launcher, spec, &mut self.launches);
        let backend = match spawned {
            Ok(b) => b,
            Err(e) => return Err(e),
        };
        let session = TerminalSession {
            id: session_id.clone(),
            workspace_id: workspace.id,
            cwd: workspace.path,
            shell,
            cols,
            rows,
            created_at: now_rfc3339(),
        };
        let ghost before = self.sessions.map();
        let entry = TerminalEntry { session: session.duplicate(), backend };
        let ghost ev = entry;
        let ghost kv = session_id@;
        assert(kv == session@.id);
        assert(ev.session@ == session@);
        self.sessions.insert(session_id, entry);
        assert(self.sessions.map() == before.insert(kv, ev));
        proof {
            lemma_session_views_insert(before, kv, ev);
        }
        assert(self.sessions() =~= session_views(before).insert(session@.id, session@));
        Ok(session)
    }

    /// Sends `data` to the session `session_id` (trimmed): an unknown
    /// session is refused and nothing is called; a known one's process is
    /// handed `data`, and what it gives back is the result. The sessions stay
    /// as they are.
    pub fn write_session(&mut self, session_id: &str, data: &str) -> (r: Result<(), AppError>)
        ensures
            final(self).sessions() == old(self).sessions(),
            final(self).launches() == old(self).launches(),
            !old(self).sessions().dom().contains(trim_seq(session_id@)) ==> {
                &&& r matches Err(AppError::InvalidInput(m)) && m@ == "terminal session was not found"@
                &&& final(self).backend_calls() == old(self).backend_calls()
            },
            old(self).sessions().dom().contains(trim_seq(session_id@)) ==> final(self).backend_calls()
                == old(self).backend_calls().push(
                BackendCall::Write { session_id: trim_seq(session_id@), data: data@, result: r },
            ),
    {
        let key = trimmed(session_id);
        let ghost before = self.sessions.map();
        let mut entry = match self.sessions.remove(key.as_str()) {
            Some(e) => e,
            None => {
                return Err(AppError::InvalidInput("terminal session was not found".to_owned()));
            },
        };
        let ghost sess = entry.session@;
        let r = backend_write(&mut entry.backend, &key, data, &mut self.calls);
        assert(entry.session@ == sess);
        let ghost kv = key@;
        let ghost ev = entry;
        let ghost mid = self.sessions.map();
        self.sessions.insert(key, entry);
        proof {
            lemma_session_views_insert(mid, kv, ev);
            lemma_session_views_remove(before, kv);
            assert(session_views(before)[kv] == sess);
        }
        assert(self.sessions() =~= session_views(before));
        r
    }

    /// Gives the session `session_id` (trimmed) a new size. An empty size or
    /// an unknown session is refused and nothing is called. Otherwise the
    /// session's process is asked for `cols` by `rows` cells, what it gives
    /// back is the result, and when it takes the size the session records it.
    pub fn resize_session(&mut self, session_id: &str, cols: u16, rows: u16) -> (r: Result<
        (),
        AppError,
    >)
        ensures
            final(self).launches() == old(self).launches(),
            !valid_dimensions(cols, rows) ==> (r matches Err(AppError::InvalidInput(m)) && m@
                == "terminal dimensions must be greater than zero"@),
            valid_dimensions(cols, rows) && !old(self).sessions().dom().contains(
                trim_seq(session_id@),
            ) ==> (r matches Err(AppError::InvalidInput(m)) && m@
                == "terminal session was not found"@),
            !(valid_dimensions(cols, rows) && old(self).sessions().dom().contains(
                trim_seq(session_id@),
            )) ==> final(self).backend_calls() == old(self).backend_calls(),
            valid_dimensions(cols, rows) && old(self).sessions().dom().contains(
                trim_seq(session_id@),
            ) ==> final(self).backend_calls() == old(self).backend_calls().push(
                BackendCall::Resize { session_id: trim_seq(session_id@), cols, rows, result: r },
            ),
            r is Err ==> final(self).sessions() == old(self).sessions(),
            r is Ok ==> {
                let k = trim_seq(session_id@);
                &&& old(self).sessions().dom().contains(k)
                &&& final(self).sessions() == old(self).sessions().insert(
                    k,
                    TerminalSessionView { cols: cols, rows: rows, ..old(self).sessions()[k] },
                )
            },
    {
        if let Err(e) = validate_dimensions(cols, rows) {
            return Err(e);
        }
        let key = trimmed(session_id);
        let ghost before = self.sessions.map();
        let mut entry = match self.sessions.remove(key.as_str()) {
            Some(e) => e,
            None => {
                return Err(AppError::InvalidInput("terminal session was not found".to_owned()));
            },
        };
        let ghost sess = entry.session@;
        let r = backend_resize(&mut entry.backend, &key, cols, rows, &mut self.calls);
        if r.is_ok() {
            entry.session.cols = cols;
            entry.session.rows = rows;
        }
        let ghost ev = entry.session@;
        let ghost kv = key@;
        let ghost en = entry;
        let ghost mid = self.sessions.map();
        self.sessions.insert(key, entry);
        proof {
            lemma_session_views_insert(mid, kv, en);
            lemma_session_views_remove(before, kv);
        }
        assert(self.sessions() =~= session_views(before).insert(key@, ev));
        proof {
            if r.is_err() {
                assert(session_views(before)[key@] == sess);
                assert(self.sessions() =~= session_views(before));
            }
        }
        r
    }

    /// Closes the session `session_id` (trimmed). An unknown session is
    /// refused and nothing is called. A known one is forgotten (also when its
    /// process fails to end), its process is asked to end, and what that
    /// gives back is the result.
    pub fn close_session(&mut self, session_id: &str) -> (r: Result<(), AppError>)
        ensures
            final(self).launches() == old(self).launches(),
            final(self).sessions() == old(self).sessions().remove(trim_seq(session_id@)),
            !old(self).sessions().dom().contains(trim_seq(session_id@)) ==> {
                &&& r matches Err(AppError::InvalidInput(m)) && m@ == "terminal session was not found"@
                &&& final(self).backend_calls() == old(self).backend_calls()
            },
            old(self).sessions().dom().contains(trim_seq(session_id@)) ==> final(self).backend_calls()
                == old(self).backend_calls().push(
                BackendCall::Close { session_id: trim_seq(session_id@), result: r },
            ),
    {
        let key = trimmed(session_id);
        let ghost before = self.sessions.map();
        let removed = self.sessions.remove(key.as_str());
        proof {
            lemma_session_views_remove(before, key@);
        }
        assert(self.sessions() =~= session_views(before).remove(key@));
        match removed {
            Some(mut entry) => {
                backend_close(&mut entry.backend, &key, &mut self.calls)
            },
            None => Err(AppError::InvalidInput("terminal session was not found".to_owned())),
        }
    }

    /// The session `session_id` (trimmed), if it is open.
    pub fn session(&self, session_id: &str) -> (r: Option<&TerminalSession>)
        ensures
            r is Some <==> self.sessions().dom().contains(trim_seq(session_id@)),
            r matches Some(s) ==> self.sessions()[trim_seq(session_id@)] == s@,
    {
        match self.sessions.get(trim(session_id)) {
            Some(entry) => Some(&entry.session),
            None => None,
        }
    }
}

/// A terminal opens in the directory of its workspace, whatever the
/// workspace's Git root: when the size is valid and the trimmed identifier
/// names a workspace, exactly one start is handed to the launcher, with that
/// workspace's path as its directory and its identifier, the requested shell
/// and size; a session that opens has the same directory, workspace, shell
/// and size and is kept under its identifier. Nothing opens for an unknown
/// workspace.
pub proof fn law_terminal_opens_in_workspace_directory(
    workspaces: Seq<WorkspaceView>,
    workspace_id: Seq<char>,
    cols: u16,
    rows: u16,
    shell: Seq<char>,
    old_launches: Seq<LaunchRecord>,
    new_launches: Seq<LaunchRecord>,
    old_sessions: Map<Seq<char>, TerminalSessionView>,
    new_sessions: Map<Seq<char>, TerminalSessionView>,
    r: Result<TerminalSession, AppError>,
)
    requires
        open_outcome(
            workspaces,
            workspace_id,
            cols,
            rows,
            shell,
            old_launches,
            new_launches,
            old_sessions,
            new_sessions,
            r,
        ),
    ensures
        r is Ok ==> row_with_id(workspaces, trim_seq(workspace_id)) is Some,
        row_with_id(workspaces, trim_seq(workspace_id)) is None ==> new_launches == old_launches
            && new_sessions == old_sessions && r is Err,
        row_with_id(workspaces, trim_seq(workspace_id)) is Some && cols > 0 && rows > 0 && !blank(
            workspace_id,
        ) ==> {
            let w = row_with_id(workspaces, trim_seq(workspace_id))->0;
            &&& new_launches.len() == old_launches.len() + 1
            &&& new_launches.last().spec.cwd == w.path
            &&& new_launches.last().spec.workspace_id == w.id
            &&& new_launches.last().spec.shell == shell
            &&& new_launches.last().spec.cols == cols
            &&& new_launches.last().spec.rows == rows
            &&& r matches Ok(s) ==> {
                &&& s.cwd@ == w.path
                &&& s.workspace_id@ == w.id
                &&& s.shell@ == shell
                &&& s.cols == cols
                &&& s.rows == rows
                &&& new_sessions.dom().contains(s.id@)
                &&& new_sessions[s.id@].cwd == w.path
            }
        },
{
}

/// A closed session is gone: after `close_session` with an identifier, the
/// sessions hold none under it, so writing to it, resizing it or closing it
/// again is refused.
pub proof fn law_closed_session_is_gone(
    sessions: Map<Seq<char>, TerminalSessionView>,
    session_id: Seq<char>,
)
    ensures
        !sessions.remove(trim_seq(session_id)).dom().contains(trim_seq(session_id)),
{
}

/// A resize that went through is what the session then reports.
pub proof fn law_resize_is_reported(
    sessions: Map<Seq<char>, TerminalSessionView>,
    key: Seq<char>,
    cols: u16,
    rows: u16,
)
    requires
        sessions.dom().contains(key),
    ensures
        ({
            let after = sessions.insert(key, TerminalSessionView { cols: cols, rows: rows, ..sessions[key] });
            &&& after.dom().contains(key)
            &&& after[key].cols == cols
            &&& after[key].rows == rows
            &&& after[key].id == sessions[key].id
            &&& after[key].cwd == sessions[key].cwd
        }),
{
}

} // verus!
