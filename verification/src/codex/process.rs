//! The decisions of the Codex app-server client: the parameters of each
//! request, the summary of a new thread, what each line from the server
//! means, and which turns are running.
use vstd::prelude::*;
use crate::codex::CodexThreadSummary;
use crate::error::AppError;
use crate::json::{
    get_in, get_opt, json_get, json_i64, json_str, json_u64, member_text, member_value,
    obj_keys, opt_deref, str_opt, arr_items, json_document_of, parse_json_document, JsonNumber,
    JsonValue,
};
use crate::keyed::KeyedList;
use crate::stamps::{now_rfc3339, rfc3339_from_unix_seconds, rfc3339_of_unix_seconds, utc_stamp};
use crate::text::{
    blank, chars_of, contains_seq, occurs_at, decimal, find_first_exec, find_first, int_decimal, lines,
    lines_seq, seq_eq, str_eq, trim, trim_seq, trimmed,
};

verus! {

/// The event that tells the front end a thread changed.
pub const THREAD_UPDATED_EVENT: &'static str = "codex://thread-updated";

/// The event that carries an item of a turn.
pub const ITEM_EVENT: &'static str = "codex://item";

/// The event that tells the front end Codex waits for an approval.
pub const APPROVAL_REQUESTED_EVENT: &'static str = "codex://approval-requested";

/// The event that tells the front end a turn finished.
pub const TURN_FINISHED_EVENT: &'static str = "codex://turn-finished";

/// The version of this client that the server is told.
pub const CLIENT_VERSION: &'static str = "0.1.0";

/// The title of a thread that has no first line to name it.
pub open spec fn default_title() -> Seq<char> {
    "Codex Thread"@
}

/// The title of a thread started with `prompt`: its first line, trimmed, cut
/// to 77 characters and an ellipsis when it is longer than 80.
pub open spec fn title_of(prompt: Seq<char>) -> Seq<char> {
    let line = if lines_seq(prompt).len() > 0 {
        lines_seq(prompt)[0]
    } else {
        default_title()
    };
    let title = trim_seq(line);
    if title.len() > 80 {
        title.subrange(0, 77) + "..."@
    } else if title.len() == 0 {
        default_title()
    } else {
        title
    }
}

/// The title of a thread started with `prompt`.
pub fn first_line_title(prompt: &str) -> (r: String)
    ensures
        r@ == title_of(prompt@),
{
    let all = lines(prompt);
    let line = if all.len() > 0 {
        all[0]
    } else {
        "Codex Thread"
    };
    let title = trim(line);
    let count = chars_of(title).len();
    if count > 80 {
        let mut t = title.substring_char(0, 77).to_owned();
        t.append("...");
        t
    } else if count == 0 {
        "Codex Thread".to_owned()
    } else {
        title.to_owned()
    }
}

/// An object of the given members.
fn object(members: Vec<(String, JsonValue)>) -> (r: JsonValue)
    ensures
        r == JsonValue::Object(members),
{
    JsonValue::Object(members)
}

/// Member `i` of `v` has the key `key` and the text `text`.
pub open spec fn text_member(v: JsonValue, i: int, key: Seq<char>, text: Seq<char>) -> bool {
    obj_keys(v) matches Some(keys) && 0 <= i < keys.len() && keys[i] == key && member_text(
        v,
        i,
        text,
    )
}

/// The parameters of `initialize`: the client's name, title and version.
pub fn initialize_params() -> (r: JsonValue)
    ensures
        obj_keys(r) == Some(seq!["clientInfo"@]),
        member_value(r, 0) matches Some(info) && {
            &&& obj_keys(info) == Some(seq!["name"@, "title"@, "version"@])
            &&& text_member(info, 0, "name"@, "vibe_monitor"@)
            &&& text_member(info, 1, "title"@, "Vibe Monitor"@)
            &&& text_member(info, 2, "version"@, CLIENT_VERSION@)
        },
{
    let info = object(
        vec![
            ("name".to_owned(), JsonValue::text("vibe_monitor")),
            ("title".to_owned(), JsonValue::text("Vibe Monitor")),
            ("version".to_owned(), JsonValue::text(CLIENT_VERSION)),
        ],
    );
    let r = object(vec![("clientInfo".to_owned(), info)]);
    r
}

/// The parameters of `thread/start`: the working directory, approvals on
/// request, and a sandbox that may write the workspace.
pub fn thread_start_params(cwd: &str) -> (r: JsonValue)
    ensures
        obj_keys(r) == Some(seq!["cwd"@, "approvalPolicy"@, "sandbox"@]),
        text_member(r, 0, "cwd"@, cwd@),
        text_member(r, 1, "approvalPolicy"@, "on-request"@),
        text_member(r, 2, "sandbox"@, "workspace-write"@),
{
    object(
        vec![
            ("cwd".to_owned(), JsonValue::text(cwd)),
            ("approvalPolicy".to_owned(), JsonValue::text("on-request")),
            ("sandbox".to_owned(), JsonValue::text("workspace-write")),
        ],
    )
}

/// The parameters of `thread/list`: the working directory and a limit of 50.
pub fn thread_list_params(cwd: &str) -> (r: JsonValue)
    ensures
        obj_keys(r) == Some(seq!["cwd"@, "limit"@]),
        text_member(r, 0, "cwd"@, cwd@),
        json_u64(member_value(r, 1)) == Some(50u64),
{
    object(
        vec![
            ("cwd".to_owned(), JsonValue::text(cwd)),
            ("limit".to_owned(), JsonValue::Number(JsonNumber::PosInt(50))),
        ],
    )
}

/// The parameters of `turn/start` are those for `thread_id`, `prompt` and
/// `cwd`: the thread, one text input, the working directory, approvals on
/// request, and a sandbox that may write `cwd` and reach the network.
pub open spec fn turn_start_shape(r: JsonValue, thread_id: Seq<char>, prompt: Seq<char>, cwd: Seq<char>) -> bool {
    &&& obj_keys(r) == Some(
        seq!["threadId"@, "input"@, "cwd"@, "approvalPolicy"@, "sandboxPolicy"@],
    )
    &&& text_member(r, 0, "threadId"@, thread_id)
    &&& member_value(r, 1) matches Some(input) && arr_items(input) matches Some(items) && items.len()
        == 1 && {
        &&& obj_keys(items[0]) == Some(seq!["type"@, "text"@])
        &&& text_member(items[0], 0, "type"@, "text"@)
        &&& text_member(items[0], 1, "text"@, prompt)
    }
    &&& text_member(r, 2, "cwd"@, cwd)
    &&& text_member(r, 3, "approvalPolicy"@, "on-request"@)
    &&& member_value(r, 4) matches Some(policy) && {
        &&& obj_keys(policy) == Some(seq!["type"@, "writableRoots"@, "networkAccess"@])
        &&& text_member(policy, 0, "type"@, "workspaceWrite"@)
        &&& member_value(policy, 1) matches Some(roots) && arr_items(roots) matches Some(rs)
            && rs.len() == 1 && json_str(Some(rs[0])) == Some(cwd)
        &&& member_value(policy, 2) == Some(JsonValue::Bool(true))
    }
}

/// The parameters of `turn/start`.
pub fn turn_start_params(thread_id: &str, prompt: &str, cwd: &str) -> (r: JsonValue)
    ensures
        turn_start_shape(r, thread_id@, prompt@, cwd@),
{
    let input_item = object(
        vec![("type".to_owned(), JsonValue::text("text")), ("text".to_owned(), JsonValue::text(prompt))],
    );
    let roots = JsonValue::Array(vec![JsonValue::text(cwd)]);
    let policy = object(
        vec![
            ("type".to_owned(), JsonValue::text("workspaceWrite")),
            ("writableRoots".to_owned(), roots),
            ("networkAccess".to_owned(), JsonValue::Bool(true)),
        ],
    );
    assert(obj_keys(input_item) =~= Some(seq!["type"@, "text"@]));
    assert(obj_keys(policy) =~= Some(seq!["type"@, "writableRoots"@, "networkAccess"@]));
    let inputs = JsonValue::Array(vec![input_item]);
    let r = object(
        vec![
            ("threadId".to_owned(), JsonValue::text(thread_id)),
            ("input".to_owned(), inputs),
            ("cwd".to_owned(), JsonValue::text(cwd)),
            ("approvalPolicy".to_owned(), JsonValue::text("on-request")),
            ("sandboxPolicy".to_owned(), policy),
        ],
    );
    assert(obj_keys(r) =~= Some(seq!["threadId"@, "input"@, "cwd"@, "approvalPolicy"@, "sandboxPolicy"@]));
    r
}

/// The parameters of `turn/interrupt`: the thread and the running turn.
pub fn turn_interrupt_params(thread_id: &str, turn_id: &str) -> (r: JsonValue)
    ensures
        obj_keys(r) == Some(seq!["threadId"@, "turnId"@]),
        text_member(r, 0, "threadId"@, thread_id@),
        text_member(r, 1, "turnId"@, turn_id@),
{
    object(
        vec![
            ("threadId".to_owned(), JsonValue::text(thread_id)),
            ("turnId".to_owned(), JsonValue::text(turn_id)),
        ],
    )
}

/// The member at the path `k1` / `k2` of `v`.
pub open spec fn at2(v: JsonValue, k1: Seq<char>, k2: Seq<char>) -> Option<JsonValue> {
    get_in(json_get(v, k1), k2)
}

/// The thread identifier of a `thread/start` response.
pub open spec fn response_thread_id(response: JsonValue) -> Option<Seq<char>> {
    json_str(at2(response, "thread"@, "id"@))
}

/// The creation time that a `thread/start` response gives, as RFC 3339 text.
pub open spec fn response_created_at(response: JsonValue) -> Option<Seq<char>> {
    match json_i64(at2(response, "thread"@, "createdAt"@)) {
        Some(secs) => rfc3339_of_unix_seconds(secs),
        None => None,
    }
}

/// The summary of a thread that the server started for `prompt` in
/// `workspace_id`: the server's thread identifier (refused when there is
/// none), the prompt's title, the status `running`, the prompt as preview,
/// and the server's creation time (else the current time) as both times.
pub fn thread_summary_from_response(workspace_id: &str, prompt: &str, response: &JsonValue) -> (r:
    Result<CodexThreadSummary, AppError>)
    ensures
        match response_thread_id(*response) {
            None => r matches Err(AppError::CommandFailed(m)) && m@
                == "codex app-server returned no thread id"@,
            Some(id) => r matches Ok(s) && {
                &&& s.id@ == id
                &&& s.workspace_id@ == workspace_id@
                &&& s.title@ == title_of(prompt@)
                &&& s.status@ == "running"@
                &&& s.preview.deep_view() == Some(prompt@)
                &&& s.created_at.deep_view() == s.updated_at.deep_view()
                &&& s.created_at is Some
                &&& match response_created_at(*response) {
                    Some(t) => s.created_at.deep_view() == Some(t),
                    None => utc_stamp(s.created_at->0@),
                }
            },
        },
{
    let thread = response.get("thread");
    let id = match str_opt(get_opt(thread, "id")) {
        Some(id) => id,
        None => {
            return Err(AppError::CommandFailed("codex app-server returned no thread id".to_owned()));
        },
    };
    let stamp = match get_opt(thread, "createdAt") {
        Some(v) => match v.as_i64() {
            Some(secs) => rfc3339_from_unix_seconds(secs),
            None => None,
        },
        None => None,
    };
    let created_at = match stamp {
        Some(t) => t,
        None => now_rfc3339(),
    };
    Ok(
        CodexThreadSummary {
            id: id.to_owned(),
            workspace_id: workspace_id.to_owned(),
            title: first_line_title(prompt),
            status: "running".to_owned(),
            preview: Some(prompt.to_owned()),
            created_at: Some(created_at.clone()),
            updated_at: Some(created_at),
        },
    )
}

/// A change in the life of a turn, as the server announces it.
#[derive(Debug, PartialEq, Eq)]
pub enum TurnLifecycle {
    Started { thread_id: String, turn_id: String },
    Completed { thread_id: String },
}

/// A change in the life of a turn, as plain values.
pub enum TurnLifecycleView {
    Started { thread_id: Seq<char>, turn_id: Seq<char> },
    Completed { thread_id: Seq<char> },
}

impl View for TurnLifecycle {
    type V = TurnLifecycleView;

    open spec fn view(&self) -> TurnLifecycleView {
        match self {
            TurnLifecycle::Started { thread_id, turn_id } => TurnLifecycleView::Started {
                thread_id: thread_id@,
                turn_id: turn_id@,
            },
            TurnLifecycle::Completed { thread_id } => TurnLifecycleView::Completed {
                thread_id: thread_id@,
            },
        }
    }
}

/// The change that a notification announces: `turn/started` with the turn's
/// identifier, or `turn/completed`, for the thread in its parameters.
pub open spec fn lifecycle_of(value: JsonValue) -> Option<TurnLifecycleView> {
    match (json_str(json_get(value, "method"@)), json_str(at2(value, "params"@, "threadId"@))) {
        (Some(method), Some(thread_id)) => if method == "turn/started"@ {
            match json_str(get_in(at2(value, "params"@, "turn"@), "id"@)) {
                Some(turn_id) => Some(TurnLifecycleView::Started { thread_id, turn_id }),
                None => None,
            }
        } else if method == "turn/completed"@ {
            Some(TurnLifecycleView::Completed { thread_id })
        } else {
            None
        },
        _ => None,
    }
}

/// The change in the life of a turn that `value` announces, if any.
pub fn turn_lifecycle(value: &JsonValue) -> (r: Option<TurnLifecycle>)
    ensures
        match lifecycle_of(*value) {
            Some(l) => r matches Some(x) && x@ == l,
            None => r is None,
        },
{
    let method = match str_opt(value.get("method")) {
        Some(m) => m,
        None => return None,
    };
    let params = value.get("params");
    let thread_id = match str_opt(get_opt(params, "threadId")) {
        Some(t) => t,
        None => return None,
    };
    if str_eq(method, "turn/started") {
        let turn_id = match str_opt(get_opt(get_opt(params, "turn"), "id")) {
            Some(t) => t,
            None => return None,
        };
        Some(TurnLifecycle::Started { thread_id: thread_id.to_owned(), turn_id: turn_id.to_owned() })
    } else if str_eq(method, "turn/completed") {
        Some(TurnLifecycle::Completed { thread_id: thread_id.to_owned() })
    } else {
        None
    }
}

/// The events that the client passes on to the front end.
#[derive(Debug, Clone, Copy, PartialEq, Eq)]
pub enum CodexEvent {
    ThreadUpdated,
    Item,
    ApprovalRequested,
    TurnFinished,
}

impl CodexEvent {
    /// The name under which the front end listens for the event.
    pub fn name(&self) -> (r: &'static str)
        ensures
            r@ == match self {
                CodexEvent::ThreadUpdated => THREAD_UPDATED_EVENT@,
                CodexEvent::Item => ITEM_EVENT@,
                CodexEvent::ApprovalRequested => APPROVAL_REQUESTED_EVENT@,
                CodexEvent::TurnFinished => TURN_FINISHED_EVENT@,
            },
    {
        match self {
            CodexEvent::ThreadUpdated => THREAD_UPDATED_EVENT,
            CodexEvent::Item => ITEM_EVENT,
            CodexEvent::ApprovalRequested => APPROVAL_REQUESTED_EVENT,
            CodexEvent::TurnFinished => TURN_FINISHED_EVENT,
        }
    }
}

/// `c` with an ASCII capital letter made small.
pub open spec fn ascii_lower(c: char) -> char {
    if 'A' <= c && c <= 'Z' {
        ((c as u32) + 32) as char
    } else {
        c
    }
}

/// The method of a message, ASCII letters made small.
pub open spec fn lowered_method(value: JsonValue) -> Seq<char> {
    crate::codex::method_of(value).map_values(|c: char| ascii_lower(c))
}

/// The event that a message of the server raises: an approval request, the
/// end of a turn, a change of a thread, or an item of a turn (whose method
/// speaks of an item or a turn); other messages raise none.
pub open spec fn event_of(value: JsonValue) -> Option<CodexEvent> {
    let m = lowered_method(value);
    if contains_seq(m, "approval"@) {
        Some(CodexEvent::ApprovalRequested)
    } else if m == "turn/completed"@ {
        Some(CodexEvent::TurnFinished)
    } else if contains_seq(m, "thread"@) {
        Some(CodexEvent::ThreadUpdated)
    } else if contains_seq(m, "item"@) || contains_seq(m, "turn"@) {
        Some(CodexEvent::Item)
    } else {
        None
    }
}

/// The characters of `s`, ASCII letters made small.
fn lower_chars(s: &str) -> (r: Vec<char>)
    ensures
        r@ == s@.map_values(|c: char| ascii_lower(c)),
{
    let v = chars_of(s);
    let mut out: Vec<char> = Vec::new();
    let mut i: usize = 0;
    while i < v.len()
        invariant
            i <= v.len(),
            v@ == s@,
            out@ == v@.take(i as int).map_values(|c: char| ascii_lower(c)),
        decreases v.len() - i,
    {
        let c = v[i];
        let l = if 'A' <= c && c <= 'Z' {
            ((c as u8) + 32) as char
        } else {
            c
        };
        assert(l == ascii_lower(c));
        out.push(l);
        assert(out@ =~= v@.take(i + 1).map_values(|c: char| ascii_lower(c)));
        i = i + 1;
    }
    assert(v@.take(v.len() as int) =~= v@);
    out
}

/// Whether `p` occurs in `v`.
fn has(v: &Vec<char>, p: &str) -> (r: bool)
    ensures
        r == contains_seq(v@, p@),
{
    let w = chars_of(p);
    find_first_exec(v, &w).is_some()
}

/// The event that a message of the server raises, if any.
pub fn event_for(value: &JsonValue) -> (r: Option<CodexEvent>)
    ensures
        r == event_of(*value),
{
    let m = lower_chars(crate::codex::message_method(value));
    if has(&m, "approval") {
        Some(CodexEvent::ApprovalRequested)
    } else if seq_eq(&m, &chars_of("turn/completed")) {
        Some(CodexEvent::TurnFinished)
    } else if has(&m, "thread") {
        Some(CodexEvent::ThreadUpdated)
    } else if has(&m, "item") || has(&m, "turn") {
        Some(CodexEvent::Item)
    } else {
        None
    }
}

/// What a line from the server means.
#[derive(Debug)]
pub enum ServerMessage<'a> {
    /// The answer to request `id`: its result (nothing for null), or the
    /// server's error.
    Response { id: u64, result: Result<Option<&'a JsonValue>, String> },
    /// A notification, with the turn change and the event that it raises.
    Notification { lifecycle: Option<TurnLifecycle>, event: Option<CodexEvent> },
    /// A message without a method or a numeric identifier.
    Ignored,
}

/// The error text of a server error: its code (0 when it has none) and its
/// message (else a note that it is unknown).
pub open spec fn server_error_text(error: JsonValue) -> Seq<char> {
    let code = match json_i64(json_get(error, "code"@)) {
        Some(c) => c,
        None => 0,
    };
    let message = match json_str(json_get(error, "message"@)) {
        Some(m) => m,
        None => "unknown app-server error"@,
    };
    "codex app-server error "@ + int_decimal(code as int) + ": "@ + message
}

/// What a message from the server means: one without a method answers the
/// request with its numeric `id` (with its `error`, else its `result`, else
/// null); one with a method is a notification.
pub fn classify_server_message<'a>(value: &'a JsonValue) -> (r: ServerMessage<'a>)
    ensures
        json_get(*value, "method"@) is None ==> (match json_u64(json_get(*value, "id"@)) {
            None => r is Ignored,
            Some(id) => r matches ServerMessage::Response { id: rid, result } && rid == id && match json_get(
                *value,
                "error"@,
            ) {
                Some(error) => result matches Err(m) && m@ == server_error_text(error),
                None => result matches Ok(x) && opt_deref(x) == json_get(*value, "result"@),
            },
        }),
        json_get(*value, "method"@) is Some ==> (r matches ServerMessage::Notification {
            lifecycle,
            event,
        } && event == event_of(*value) && match lifecycle_of(*value) {
            Some(l) => lifecycle matches Some(x) && x@ == l,
            None => lifecycle is None,
        }),
{
    if value.get("method").is_none() {
        let id = match value.get("id") {
            Some(v) => match v.as_u64() {
                Some(id) => id,
                None => return ServerMessage::Ignored,
            },
            None => return ServerMessage::Ignored,
        };
        let result = match value.get("error") {
            Some(error) => {
                let code = match error.get("code") {
                    Some(c) => match c.as_i64() {
                        Some(c) => c,
                        None => 0,
                    },
                    None => 0,
                };
                let message = match str_opt(error.get("message")) {
                    Some(m) => m,
                    None => "unknown app-server error",
                };
                let mut text = "codex app-server error ".to_owned();
                text.append(decimal(code).as_str());
                text.append(": ");
                text.append(message);
                Err(text)
            },
            None => Ok(value.get("result")),
        };
        return ServerMessage::Response { id, result };
    }
    ServerMessage::Notification { lifecycle: turn_lifecycle(value), event: event_for(value) }
}

/// The running turns after `change`: a started turn is recorded for its
/// thread, a completed one is forgotten.
pub open spec fn turns_after(turns: Map<Seq<char>, Seq<char>>, change: TurnLifecycleView) -> Map<
    Seq<char>,
    Seq<char>,
> {
    match change {
        TurnLifecycleView::Started { thread_id, turn_id } => turns.insert(thread_id, turn_id),
        TurnLifecycleView::Completed { thread_id } => turns.remove(thread_id),
    }
}

/// What a request to interrupt the turn of `thread_id` gives: refused for a
/// blank thread, an error when no turn of the thread runs, else the
/// parameters that name the thread (trimmed) and its running turn.
pub open spec fn interrupt_outcome(
    turns: Map<Seq<char>, Seq<char>>,
    thread_id: Seq<char>,
    r: Result<JsonValue, AppError>,
) -> bool {
    if blank(thread_id) {
        r matches Err(AppError::InvalidInput(m)) && m@ == "codex thread id cannot be empty"@
    } else if !turns.dom().contains(trim_seq(thread_id)) {
        r matches Err(AppError::CommandFailed(m)) && m@ == "codex turn is not running"@
    } else {
        r matches Ok(p) && obj_keys(p) == Some(seq!["threadId"@, "turnId"@]) && text_member(
            p,
            0,
            "threadId"@,
            trim_seq(thread_id),
        ) && text_member(p, 1, "turnId"@, turns[trim_seq(thread_id)])
    }
}

/// The state of the client that outlives a request: the last request
/// identifier, the running turn of each thread, and the working directory
/// of each thread that it started.
pub struct CodexProcessManager {
    next_id: u64,
    active_turns: KeyedList<String>,
    thread_cwds: KeyedList<String>,
}

impl Default for CodexProcessManager {
    /// A client that has sent nothing and knows of no thread.
    fn default() -> (r: CodexProcessManager)
        ensures
            r.last_id() == 0,
            r.turns() == Map::<Seq<char>, Seq<char>>::empty(),
            r.cwds() == Map::<Seq<char>, Seq<char>>::empty(),
    {
        CodexProcessManager::new()
    }
}

/// The texts of a map's values.
pub open spec fn texts(m: Map<Seq<char>, String>) -> Map<Seq<char>, Seq<char>> {
    m.map_values(|s: String| s@)
}

impl CodexProcessManager {
    /// The identifier of the last request.
    pub closed spec fn last_id(&self) -> u64 {
        self.next_id
    }

    /// The running turn of each thread.
    pub closed spec fn turns(&self) -> Map<Seq<char>, Seq<char>> {
        texts(self.active_turns.map())
    }

    /// The working directory of each thread that the client started.
    pub closed spec fn cwds(&self) -> Map<Seq<char>, Seq<char>> {
        texts(self.thread_cwds.map())
    }

    /// A client that has sent nothing and knows of no thread.
    pub fn new() -> (r: CodexProcessManager)
        ensures
            r.last_id() == 0,
            r.turns() == Map::<Seq<char>, Seq<char>>::empty(),
            r.cwds() == Map::<Seq<char>, Seq<char>>::empty(),
    {
        let r = CodexProcessManager {
            next_id: 0,
            active_turns: KeyedList::new(),
            thread_cwds: KeyedList::new(),
        };
        assert(r.turns() =~= Map::<Seq<char>, Seq<char>>::empty());
        assert(r.cwds() =~= Map::<Seq<char>, Seq<char>>::empty());
        r
    }

    /// The identifier of the last request.
    pub fn last_request_id(&self) -> (r: u64)
        ensures
            r == self.last_id(),
    {
        self.next_id
    }

    /// The identifier for the next request: one more than the last.
    pub fn next_request_id(&mut self) -> (r: u64)
        requires
            old(self).last_id() < u64::MAX,
        ensures
            r == old(self).last_id() + 1,
            final(self).last_id() == r,
            final(self).turns() == old(self).turns(),
            final(self).cwds() == old(self).cwds(),
    {
        self.next_id = self.next_id + 1;
        self.next_id
    }

    /// Records a change in the life of a turn.
    pub fn apply_lifecycle(&mut self, change: TurnLifecycle)
        ensures
            final(self).turns() == turns_after(old(self).turns(), change@),
            final(self).cwds() == old(self).cwds(),
            final(self).last_id() == old(self).last_id(),
    {
        let ghost before = self.active_turns.map();
        match change {
            TurnLifecycle::Started { thread_id, turn_id } => {
                let ghost k = thread_id@;
                let ghost v = turn_id;
                self.active_turns.insert(thread_id, turn_id);
                assert(texts(self.active_turns.map()) =~= texts(before).insert(k, v@));
            },
            TurnLifecycle::Completed { thread_id } => {
                let _ = self.active_turns.remove(thread_id.as_str());
                assert(texts(self.active_turns.map()) =~= texts(before).remove(thread_id@));
            },
        }
    }

    /// Records the working directory of a thread that the client started.
    pub fn record_thread(&mut self, thread_id: String, cwd: String)
        ensures
            final(self).cwds() == old(self).cwds().insert(thread_id@, cwd@),
            final(self).turns() == old(self).turns(),
            final(self).last_id() == old(self).last_id(),
    {
        let ghost before = self.thread_cwds.map();
        let ghost k = thread_id@;
        let ghost v = cwd@;
        self.thread_cwds.insert(thread_id, cwd);
        assert(texts(self.thread_cwds.map()) =~= texts(before).insert(k, v));
    }

    /// The prompt of a new thread, trimmed; a blank one is refused.
    pub fn thread_start_prompt(prompt: &str) -> (r: Result<String, AppError>)
        ensures
            blank(prompt@) ==> (r matches Err(AppError::InvalidInput(m)) && m@
                == "codex prompt cannot be empty"@),
            !blank(prompt@) ==> (r matches Ok(p) && p@ == trim_seq(prompt@)),
    {
        let p = trimmed(prompt);
        if p.as_str().is_empty() {
            return Err(AppError::InvalidInput("codex prompt cannot be empty".to_owned()));
        }
        Ok(p)
    }

    /// The parameters that send `prompt` to the thread `thread_id`: refused
    /// for a blank thread or prompt, an error for a thread that the client did
    /// not start, else a `turn/start` in the thread's working directory.
    pub fn turn_send_params(&self, thread_id: &str, prompt: &str) -> (r: Result<JsonValue, AppError>)
        ensures
            blank(thread_id@) ==> (r matches Err(AppError::InvalidInput(m)) && m@
                == "codex thread id cannot be empty"@),
            !blank(thread_id@) && blank(prompt@) ==> (r matches Err(AppError::InvalidInput(m))
                && m@ == "codex prompt cannot be empty"@),
            !blank(thread_id@) && !blank(prompt@) && !self.cwds().dom().contains(
                trim_seq(thread_id@),
            ) ==> (r matches Err(AppError::CommandFailed(m)) && m@
                == "codex thread workspace is unavailable"@),
            !blank(thread_id@) && !blank(prompt@) && self.cwds().dom().contains(
                trim_seq(thread_id@),
            ) ==> (r matches Ok(p) && turn_start_shape(
                p,
                trim_seq(thread_id@),
                trim_seq(prompt@),
                self.cwds()[trim_seq(thread_id@)],
            )),
    {
        let prompt = trim(prompt);
        let thread = trim(thread_id);
        if thread.is_empty() {
            return Err(AppError::InvalidInput("codex thread id cannot be empty".to_owned()));
        }
        if prompt.is_empty() {
            return Err(AppError::InvalidInput("codex prompt cannot be empty".to_owned()));
        }
        match self.thread_cwds.get(thread) {
            Some(cwd) => Ok(turn_start_params(thread, prompt, cwd.as_str())),
            None => Err(
                AppError::CommandFailed("codex thread workspace is unavailable".to_owned()),
            ),
        }
    }

    /// The parameters that interrupt the running turn of `thread_id`.
    pub fn turn_interrupt_request(&self, thread_id: &str) -> (r: Result<JsonValue, AppError>)
        ensures
            interrupt_outcome(self.turns(), thread_id@, r),
    {
        let thread = trim(thread_id);
        if thread.is_empty() {
            return Err(AppError::InvalidInput("codex thread id cannot be empty".to_owned()));
        }
        match self.active_turns.get(thread) {
            Some(turn) => Ok(turn_interrupt_params(thread, turn.as_str())),
            None => Err(AppError::CommandFailed("codex turn is not running".to_owned())),
        }
    }
}

impl CodexProcessManager {
    /// Reads one line from the server: the JSON document that it holds
    /// (nothing when it holds none), after recording the change in the life
    /// of a turn that it announces, if any.
    pub fn handle_server_line(&mut self, line: &str) -> (r: Option<JsonValue>)
        ensures
            r == json_document_of(line@),
            final(self).turns() == match r {
                Some(v) => match lifecycle_of(v) {
                    Some(l) => turns_after(old(self).turns(), l),
                    None => old(self).turns(),
                },
                None => old(self).turns(),
            },
            final(self).cwds() == old(self).cwds(),
            final(self).last_id() == old(self).last_id(),
    {
        let parsed = parse_json_document(line);
        if let Some(value) = &parsed {
            if let Some(change) = turn_lifecycle(value) {
                self.apply_lifecycle(change);
            }
        }
        parsed
    }
}

/// Only `turn/completed` (in any ASCII case) is announced as the end of a
/// turn. A method that speaks of an approval is announced as an approval
/// request; one that speaks of a thread (and not of an approval), as a
/// change of a thread; one that speaks of an item, and of neither an approval nor a
/// thread, and is not `turn/completed`, as an item of a turn; one that speaks
/// of none of approval, thread, item or turn raises no event.
pub proof fn law_events_follow_the_method(value: JsonValue)
    ensures
        ({
            let m = crate::codex::method_of(value).map_values(|c: char| ascii_lower(c));
            &&& event_of(value) == Some(CodexEvent::TurnFinished) ==> m == "turn/completed"@
            &&& contains_seq(m, "approval"@) ==> event_of(value) == Some(
                CodexEvent::ApprovalRequested,
            )
            &&& contains_seq(m, "thread"@) && !contains_seq(m, "approval"@) && m
                != "turn/completed"@ ==> event_of(value) == Some(CodexEvent::ThreadUpdated)
            &&& contains_seq(m, "item"@) && !contains_seq(m, "approval"@) && !contains_seq(
                m,
                "thread"@,
            ) && m != "turn/completed"@ ==> event_of(value) == Some(CodexEvent::Item)
            &&& !contains_seq(m, "approval"@) && !contains_seq(m, "thread"@) && !contains_seq(
                m,
                "item"@,
            ) && !contains_seq(m, "turn"@) ==> event_of(value) is None
        }),
{
    reveal_strlit("turn/completed");
    reveal_strlit("turn");
    let m = crate::codex::method_of(value).map_values(|c: char| ascii_lower(c));
    assert(m =~= lowered_method(value));
    if m == "turn/completed"@ {
        assert(occurs_at(m, "turn"@, 0)) by {
            assert(m.subrange(0, 4) =~= "turn"@);
        }
        assert(contains_seq(m, "turn"@));
    }
}

/// A turn that the server announced as started can be interrupted, by its
/// own identifier; once announced as completed, it cannot.
pub proof fn law_turn_lifecycle_drives_interrupt(
    turns: Map<Seq<char>, Seq<char>>,
    thread_id: Seq<char>,
    turn_id: Seq<char>,
    started: Result<JsonValue, AppError>,
    completed: Result<JsonValue, AppError>,
)
    requires
        !blank(thread_id),
        trim_seq(thread_id) == thread_id,
        interrupt_outcome(
            turns_after(turns, TurnLifecycleView::Started { thread_id, turn_id }),
            thread_id,
            started,
        ),
        interrupt_outcome(
            turns_after(
                turns_after(turns, TurnLifecycleView::Started { thread_id, turn_id }),
                TurnLifecycleView::Completed { thread_id },
            ),
            thread_id,
            completed,
        ),
    ensures
        started matches Ok(p) && text_member(p, 1, "turnId"@, turn_id),
        completed matches Err(AppError::CommandFailed(m)) && m@ == "codex turn is not running"@,
{
}

/// A thread's title is never longer than 80 characters, and a longer first
/// line is cut to 77 characters and an ellipsis.
pub proof fn law_title_at_most_80(prompt: Seq<char>)
    ensures
        title_of(prompt).len() <= 80,
        trim_seq(
            if lines_seq(prompt).len() > 0 {
                lines_seq(prompt)[0]
            } else {
                default_title()
            },
        ).len() > 80 ==> title_of(prompt).len() == 80,
{
    reveal_strlit("...");
    reveal_strlit("Codex Thread");
}

} // verus!
