//! Codex: detecting the command line tool, and turning approval requests
//! into items of the Attention Queue.
pub mod jsonrpc;
pub mod process;

use vstd::prelude::*;
use crate::attention::{
    create_attention_item, create_outcome, create_result_view, AttentionItem, AttentionItemView,
    AttentionTable, CreateAttentionItem, CreateAttentionItemView,
};
use crate::error::AppError;
use crate::git::CommandOutput;
use crate::json::{get_in, get_opt, json_get, json_str, or_else, str_opt, JsonValue};
use crate::text::{
    blank, contains_seq, contains_str, is_blank, lemma_trim_idempotent, trim, trim_seq, trimmed,
};

verus! {

/// Whether the Codex command line tool can run, with its version or why not.
#[derive(Debug, Clone, PartialEq, Eq)]
pub struct CodexAvailability {
    pub available: bool,
    pub version: Option<String>,
    pub error: Option<String>,
}

/// A Codex Thread as the cockpit lists it.
#[derive(Debug, Clone, PartialEq, Eq)]
pub struct CodexThreadSummary {
    pub id: String,
    pub workspace_id: String,
    pub title: String,
    pub status: String,
    pub preview: Option<String>,
    pub created_at: Option<String>,
    pub updated_at: Option<String>,
}

/// A request of Codex for the user's approval.
#[derive(Debug, Clone, PartialEq, Eq)]
pub struct CodexApprovalRequest {
    pub thread_id: String,
    pub approval_id: String,
    pub title: String,
    pub summary: String,
}

/// An approval request as plain values.
pub struct CodexApprovalRequestView {
    pub thread_id: Seq<char>,
    pub approval_id: Seq<char>,
    pub title: Seq<char>,
    pub summary: Seq<char>,
}

impl View for CodexApprovalRequest {
    type V = CodexApprovalRequestView;

    open spec fn view(&self) -> CodexApprovalRequestView {
        CodexApprovalRequestView {
            thread_id: self.thread_id@,
            approval_id: self.approval_id@,
            title: self.title@,
            summary: self.summary@,
        }
    }
}

/// The availability that the version check's outcome means: the version,
/// trimmed, or the error.
pub open spec fn availability_of(out: Result<String, String>, r: CodexAvailability) -> bool {
    match out {
        Ok(v) => r.available && r.version.deep_view() == Some(trim_seq(v@)) && r.error is None,
        Err(e) => !r.available && r.version is None && r.error.deep_view() == Some(e@),
    }
}

/// Runs the version check `runner` and reports what it found.
pub fn detect_with_runner<F>(runner: F) -> (r: CodexAvailability)
    where
        F: FnOnce() -> Result<String, String>,
    requires
        runner.requires(()),
    ensures
        exists|out: Result<String, String>| #[trigger] runner.ensures((), out) && availability_of(out, r),
{
    let out = runner();
    let ghost o = out;
    let r = match out {
        Ok(version) => CodexAvailability {
            available: true,
            version: Some(trimmed(version.as_str())),
            error: None,
        },
        Err(error) => CodexAvailability { available: false, version: None, error: Some(error) },
    };
    assert(runner.ensures((), o));
    r
}

/// What `codex --version` reported, as the version check reads it: on
/// success the version (trimmed, or a note that it is unknown), on failure
/// the error output (trimmed) or the exit status.
pub open spec fn version_outcome(o: CommandOutput) -> Result<Seq<char>, Seq<char>> {
    if o.success {
        if blank(o.stdout@) {
            Ok("codex version unknown"@)
        } else {
            Ok(trim_seq(o.stdout@))
        }
    } else if blank(o.stderr@) {
        Err("codex --version exited with "@ + o.status@)
    } else {
        Err(trim_seq(o.stderr@))
    }
}

/// Reads what `codex --version` reported.
pub fn codex_version_from_output(output: &CommandOutput) -> (r: Result<String, String>)
    ensures
        match (r, version_outcome(*output)) {
            (Ok(v), Ok(w)) => v@ == w,
            (Err(v), Err(w)) => v@ == w,
            _ => false,
        },
{
    if output.success {
        let stdout = trimmed(output.stdout.as_str());
        if stdout.as_str().is_empty() {
            Ok("codex version unknown".to_owned())
        } else {
            Ok(stdout)
        }
    } else {
        let stderr = trimmed(output.stderr.as_str());
        if stderr.as_str().is_empty() {
            let mut msg = "codex --version exited with ".to_owned();
            msg.append(output.status.as_str());
            Err(msg)
        } else {
            Err(stderr)
        }
    }
}

/// The item that an approval request raises for `workspace_id`.
pub open spec fn approval_input(
    workspace_id: Seq<char>,
    request: CodexApprovalRequestView,
) -> CreateAttentionItemView {
    CreateAttentionItemView {
        workspace_id: trim_seq(workspace_id),
        session_id: Some(trim_seq(request.thread_id)),
        kind: "approval"@,
        priority: 3,
        title: "Codex approval required"@,
        summary: trim_seq(request.summary),
        action_label: Some(trim_seq(request.title)),
        action_ref: Some(
            "codex://thread/"@ + trim_seq(request.thread_id) + "/approval/"@ + trim_seq(
                request.approval_id,
            ),
        ),
    }
}

/// The result of raising an item as plain values.
pub open spec fn raised_view(r: Result<Option<AttentionItem>, AppError>) -> Result<
    Option<AttentionItemView>,
    Option<Seq<char>>,
> {
    match r {
        Ok(Some(item)) => Ok(Some(item@)),
        Ok(None) => Ok(None),
        Err(AppError::InvalidInput(m)) => Err(Some(m@)),
        Err(_) => Err(None),
    }
}

/// What an approval request does: nothing without a workspace, a thread or
/// an approval identifier; else it creates its item.
pub open spec fn approval_outcome(
    before: Seq<AttentionItemView>,
    after: Seq<AttentionItemView>,
    workspace_id: Seq<char>,
    request: CodexApprovalRequestView,
    r: Result<Option<AttentionItemView>, Option<Seq<char>>>,
) -> bool {
    if blank(workspace_id) || blank(request.thread_id) || blank(request.approval_id) {
        r == Ok::<Option<AttentionItemView>, Option<Seq<char>>>(None) && after == before
    } else {
        exists|c: Result<AttentionItemView, Option<Seq<char>>>|
            #[trigger] create_outcome(before, after, approval_input(workspace_id, request), c) && r
                == match c {
                Ok(item) => Ok(Some(item)),
                Err(e) => Err(e),
            }
    }
}

/// Raises an `approval` item of priority 3 for an approval request of Codex
/// in `workspace_id`, pointing at the thread and the approval.
pub fn notification_to_attention_item(
    attention: &mut AttentionTable,
    workspace_id: &str,
    request: CodexApprovalRequest,
) -> (r: Result<Option<AttentionItem>, AppError>)
    ensures
        approval_outcome(
            old(attention)@,
            final(attention)@,
            workspace_id@,
            request@,
            raised_view(r),
        ),
{
    if is_blank(workspace_id) || is_blank(request.thread_id.as_str()) || is_blank(
        request.approval_id.as_str(),
    ) {
        return Ok(None);
    }
    let thread_id = trimmed(request.thread_id.as_str());
    let approval_id = trimmed(request.approval_id.as_str());
    let mut action_ref = "codex://thread/".to_owned();
    action_ref.append(thread_id.as_str());
    action_ref.append("/approval/");
    action_ref.append(approval_id.as_str());
    let input = CreateAttentionItem {
        workspace_id: trimmed(workspace_id),
        session_id: Some(thread_id),
        kind: "approval".to_owned(),
        priority: 3,
        title: "Codex approval required".to_owned(),
        summary: trimmed(request.summary.as_str()),
        action_label: Some(trimmed(request.title.as_str())),
        action_ref: Some(action_ref),
    };
    assert(input@ == approval_input(workspace_id@, request@));
    let created = create_attention_item(attention, input);
    let ghost c = create_result_view(created);
    assert(create_outcome(old(attention)@, attention@, approval_input(workspace_id@, request@), c));
    match created {
        Ok(item) => Ok(Some(item)),
        Err(e) => Err(e),
    }
}

/// The method of a message: its `method` text, else its `type` text.
pub open spec fn method_of(value: JsonValue) -> Seq<char> {
    match or_else(json_str(json_get(value, "method"@)), json_str(json_get(value, "type"@))) {
        Some(m) => m,
        None => Seq::empty(),
    }
}

/// The text under the first of `keys` that the object has, when it is text.
pub open spec fn text_field(params: JsonValue, keys: Seq<Seq<char>>, default: Seq<char>) -> Seq<char>
    decreases keys.len(),
{
    match json_str(first_member(params, keys)) {
        Some(s) => s,
        None => default,
    }
}

/// The value under the first of `keys` that the object has.
pub open spec fn first_member(params: JsonValue, keys: Seq<Seq<char>>) -> Option<JsonValue>
    decreases keys.len(),
{
    if keys.len() == 0 {
        None
    } else {
        or_else(json_get(params, keys[0]), first_member(params, keys.drop_first()))
    }
}

/// The workspace and the approval request that a message of Codex carries,
/// when its method speaks of an approval. Each field is read from the
/// message's `params` (or the message itself), under its camel-case key or
/// else its snake-case one.
pub open spec fn approval_request_of(value: JsonValue) -> Option<(Seq<char>, CodexApprovalRequestView)> {
    if !contains_seq(method_of(value), "approval"@) {
        None
    } else {
        let params = match json_get(value, "params"@) {
            Some(p) => p,
            None => value,
        };
        Some(
            (
                text_field(params, seq!["workspaceId"@, "workspace_id"@], Seq::empty()),
                CodexApprovalRequestView {
                    thread_id: text_field(params, seq!["threadId"@, "thread_id"@], Seq::empty()),
                    approval_id: text_field(
                        params,
                        seq!["approvalId"@, "approval_id"@, "id"@],
                        Seq::empty(),
                    ),
                    title: text_field(
                        params,
                        seq!["title"@, "command"@, "toolName"@],
                        "Review request"@,
                    ),
                    summary: text_field(
                        params,
                        seq!["summary"@, "message"@, "command"@],
                        "Codex is waiting for approval."@,
                    ),
                },
            ),
        )
    }
}

/// The item that an approval request raises reads the request's own fields:
/// its action label is the `title` text of the parameters (trimmed, none
/// when blank), its summary is their `summary` text (trimmed), and it is an
/// `approval` item of priority 3 for the trimmed `workspaceId`, whose
/// session is the trimmed `threadId` and whose action points at that thread
/// and the trimmed `approvalId`.
pub proof fn law_approval_item_reads_title_and_summary(
    before: Seq<AttentionItemView>,
    after: Seq<AttentionItemView>,
    value: JsonValue,
    params: JsonValue,
    workspace: Seq<char>,
    thread: Seq<char>,
    approval: Seq<char>,
    title: Seq<char>,
    summary: Seq<char>,
    item: AttentionItemView,
)
    requires
        json_get(value, "params"@) == Some(params),
        json_str(json_get(params, "workspaceId"@)) == Some(workspace),
        json_str(json_get(params, "threadId"@)) == Some(thread),
        json_str(json_get(params, "approvalId"@)) == Some(approval),
        json_str(json_get(params, "title"@)) == Some(title),
        json_str(json_get(params, "summary"@)) == Some(summary),
        match approval_request_of(value) {
            Some((ws, request)) => approval_outcome(before, after, ws, request, Ok(Some(item))),
            None => false,
        },
    ensures
        item.action_label == (if blank(title) {
            None
        } else {
            Some(trim_seq(title))
        }),
        item.summary == trim_seq(summary),
        item.kind == "approval"@,
        item.priority == 3,
        item.resolved_at is None,
        item.workspace_id == trim_seq(workspace),
        item.session_id == Some(trim_seq(thread)),
        item.action_ref == Some(
            "codex://thread/"@ + trim_seq(thread) + "/approval/"@ + trim_seq(approval),
        ),
{
    reveal_with_fuel(first_member, 2);
    let (ws, request) = approval_request_of(value)->0;
    assert(request.title == title);
    assert(request.summary == summary);
    assert(request.thread_id == thread);
    assert(request.approval_id == approval);
    assert(ws == workspace);
    lemma_trim_idempotent(workspace);
    lemma_trim_idempotent(thread);
    let r = "codex://thread/"@ + trim_seq(thread) + "/approval/"@ + trim_seq(approval);
    reveal_strlit("codex://thread/");
    assert(r[0] == 'c');
    assert(!crate::text::is_ws(r[0]));
    if !blank(approval) {
        crate::text::lemma_trim_ends(approval);
        assert(r.last() == trim_seq(approval).last());
        assert(crate::text::trim_start_seq(r) == r);
        assert(crate::text::trim_end_seq(r) == r);
        assert(trim_seq(r) == r);
    }
    let c = choose|c: Result<AttentionItemView, Option<Seq<char>>>|
        #[trigger] create_outcome(before, after, approval_input(ws, request), c) && Ok::<
            Option<AttentionItemView>,
            Option<Seq<char>>,
        >(Some(item)) == match c {
            Ok(it) => Ok(Some(it)),
            Err(e) => Err(e),
        };
    assert(c == Ok::<AttentionItemView, Option<Seq<char>>>(item));
    lemma_trim_idempotent(title);
    lemma_trim_idempotent(summary);
}

/// The text under the first of two keys, or `default`.
fn text_of2(params: &JsonValue, k1: &str, k2: &str, default: &str) -> (r: String)
    ensures
        r@ == text_field(*params, seq![k1@, k2@], default@),
{
    let ghost keys = seq![k1@, k2@];
    proof {
        reveal_with_fuel(first_member, 3);
    }
    assert(keys.drop_first().drop_first() =~= Seq::<Seq<char>>::empty());
    assert(keys.drop_first() =~= seq![k2@]);
    let found = match params.get(k1) {
        Some(v) => Some(v),
        None => params.get(k2),
    };
    match str_opt(found) {
        Some(s) => s.to_owned(),
        None => default.to_owned(),
    }
}

/// The text under the first of three keys, or `default`.
fn text_of3(params: &JsonValue, k1: &str, k2: &str, k3: &str, default: &str) -> (r: String)
    ensures
        r@ == text_field(*params, seq![k1@, k2@, k3@], default@),
{
    let ghost keys = seq![k1@, k2@, k3@];
    proof {
        reveal_with_fuel(first_member, 4);
    }
    assert(keys.drop_first().drop_first().drop_first() =~= Seq::<Seq<char>>::empty());
    assert(keys.drop_first().drop_first() =~= seq![k3@]);
    assert(keys.drop_first() =~= seq![k2@, k3@]);
    let found = match params.get(k1) {
        Some(v) => Some(v),
        None => match params.get(k2) {
            Some(v) => Some(v),
            None => params.get(k3),
        },
    };
    match str_opt(found) {
        Some(s) => s.to_owned(),
        None => default.to_owned(),
    }
}

/// The method of a message, as text.
pub fn message_method(value: &JsonValue) -> (r: &str)
    ensures
        r@ == method_of(*value),
{
    proof {
        reveal_strlit("");
    }
    match str_opt(value.get("method")) {
        Some(m) => m,
        None => match str_opt(value.get("type")) {
            Some(t) => t,
            None => "",
        },
    }
}

/// Raises an `approval` item for a message of Codex that asks for one (its
/// method speaks of an approval); any other message changes nothing.
pub fn notification_value_to_attention_item(attention: &mut AttentionTable, value: &JsonValue) -> (r:
    Result<Option<AttentionItem>, AppError>)
    ensures
        match approval_request_of(*value) {
            None => raised_view(r) == Ok::<Option<AttentionItemView>, Option<Seq<char>>>(None)
                && final(attention)@ == old(attention)@,
            Some((ws, request)) => approval_outcome(
                old(attention)@,
                final(attention)@,
                ws,
                request,
                raised_view(r),
            ),
        },
{
    let method = message_method(value);
    proof {
        reveal_strlit("");
    }
    assert(""@ =~= Seq::<char>::empty());
    if !contains_str(method, "approval") {
        return Ok(None);
    }
    let params = match value.get("params") {
        Some(p) => p,
        None => value,
    };
    let workspace_id = text_of2(params, "workspaceId", "workspace_id", "");
    let request = CodexApprovalRequest {
        thread_id: text_of2(params, "threadId", "thread_id", ""),
        approval_id: text_of3(params, "approvalId", "approval_id", "id", ""),
        title: text_of3(params, "title", "command", "toolName", "Review request"),
        summary: text_of3(params, "summary", "message", "command", "Codex is waiting for approval."),
    };
    notification_to_attention_item(attention, workspace_id.as_str(), request)
}

} // verus!
