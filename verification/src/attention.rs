//! The Attention Queue: items that need the user, their validation, and the
//! table that keeps them, with the queue order of the active ones.
use vstd::prelude::*;
use vstd::seq_lib::to_multiset_insert;
use crate::error::AppError;
use crate::stamps::{new_id, now_rfc3339, utc_stamp, uuid_v4_text};
use crate::text::{
    blank, is_blank, lemma_text_le_total, lemma_text_le_trans, str_eq, text_le, text_le_exec,
    trim_seq, trimmed,
};

verus! {

/// Something that needs, or may soon need, the user.
#[derive(Debug, Clone, PartialEq, Eq)]
pub struct AttentionItem {
    pub id: String,
    pub workspace_id: String,
    pub session_id: Option<String>,
    pub kind: String,
    pub priority: i64,
    pub title: String,
    pub summary: String,
    pub action_label: Option<String>,
    pub action_ref: Option<String>,
    pub created_at: String,
    pub resolved_at: Option<String>,
}

/// What a caller hands in to create an item.
#[derive(Debug, Clone)]
pub struct CreateAttentionItem {
    pub workspace_id: String,
    pub session_id: Option<String>,
    pub kind: String,
    pub priority: i64,
    pub title: String,
    pub summary: String,
    pub action_label: Option<String>,
    pub action_ref: Option<String>,
}

/// An item as plain values.
pub struct AttentionItemView {
    pub id: Seq<char>,
    pub workspace_id: Seq<char>,
    pub session_id: Option<Seq<char>>,
    pub kind: Seq<char>,
    pub priority: i64,
    pub title: Seq<char>,
    pub summary: Seq<char>,
    pub action_label: Option<Seq<char>>,
    pub action_ref: Option<Seq<char>>,
    pub created_at: Seq<char>,
    pub resolved_at: Option<Seq<char>>,
}

/// A creation request as plain values.
pub struct CreateAttentionItemView {
    pub workspace_id: Seq<char>,
    pub session_id: Option<Seq<char>>,
    pub kind: Seq<char>,
    pub priority: i64,
    pub title: Seq<char>,
    pub summary: Seq<char>,
    pub action_label: Option<Seq<char>>,
    pub action_ref: Option<Seq<char>>,
}

impl View for AttentionItem {
    type V = AttentionItemView;

    open spec fn view(&self) -> AttentionItemView {
        AttentionItemView {
            id: self.id@,
            workspace_id: self.workspace_id@,
            session_id: self.session_id.deep_view(),
            kind: self.kind@,
            priority: self.priority,
            title: self.title@,
            summary: self.summary@,
            action_label: self.action_label.deep_view(),
            action_ref: self.action_ref.deep_view(),
            created_at: self.created_at@,
            resolved_at: self.resolved_at.deep_view(),
        }
    }
}

impl View for CreateAttentionItem {
    type V = CreateAttentionItemView;

    open spec fn view(&self) -> CreateAttentionItemView {
        CreateAttentionItemView {
            workspace_id: self.workspace_id@,
            session_id: self.session_id.deep_view(),
            kind: self.kind@,
            priority: self.priority,
            title: self.title@,
            summary: self.summary@,
            action_label: self.action_label.deep_view(),
            action_ref: self.action_ref.deep_view(),
        }
    }
}

/// The kinds that an item may have.
pub open spec fn allowed_kind(kind: Seq<char>) -> bool {
    ||| kind == "approval"@
    ||| kind == "blocked"@
    ||| kind == "failed"@
    ||| kind == "done"@
    ||| kind == "unread"@
    ||| kind == "info"@
}

/// Why a creation request is refused, checked in this order; nothing when it
/// is accepted.
pub open spec fn create_input_error(input: CreateAttentionItemView) -> Option<Seq<char>> {
    if blank(input.workspace_id) {
        Some("workspace id cannot be empty"@)
    } else if !allowed_kind(input.kind) {
        Some("unsupported attention kind: "@ + input.kind)
    } else if !(0 <= input.priority <= 3) {
        Some("attention priority must be between 0 and 3"@)
    } else if blank(input.title) {
        Some("attention title cannot be empty"@)
    } else if blank(input.summary) {
        Some("attention summary cannot be empty"@)
    } else {
        None
    }
}

/// An optional text, trimmed, and dropped when nothing is left of it.
pub open spec fn clean_opt(value: Option<Seq<char>>) -> Option<Seq<char>> {
    match value {
        Some(s) => if blank(s) {
            None
        } else {
            Some(trim_seq(s))
        },
        None => None,
    }
}

/// The item that an accepted request makes, with the identifier and the
/// creation time that it was given.
pub open spec fn item_from_input(
    input: CreateAttentionItemView,
    id: Seq<char>,
    now: Seq<char>,
) -> AttentionItemView {
    AttentionItemView {
        id: id,
        workspace_id: trim_seq(input.workspace_id),
        session_id: clean_opt(input.session_id),
        kind: input.kind,
        priority: input.priority,
        title: trim_seq(input.title),
        summary: trim_seq(input.summary),
        action_label: clean_opt(input.action_label),
        action_ref: clean_opt(input.action_ref),
        created_at: now,
        resolved_at: None,
    }
}

/// `a` may stand before `b` in the queue: higher priority first, and among
/// equal priorities the earlier creation time first.
pub open spec fn queue_le(a: AttentionItemView, b: AttentionItemView) -> bool {
    a.priority > b.priority || (a.priority == b.priority && text_le(a.created_at, b.created_at))
}

/// `s` is in queue order.
pub open spec fn queue_sorted(s: Seq<AttentionItemView>) -> bool {
    forall|i: int, j: int| 0 <= i < j < s.len() ==> queue_le(#[trigger] s[i], #[trigger] s[j])
}

/// An item that is unresolved and, when a workspace is named, belongs to it.
pub open spec fn in_active_queue(item: AttentionItemView, workspace_id: Option<Seq<char>>) -> bool {
    item.resolved_at is None && match workspace_id {
        Some(w) => item.workspace_id == w,
        None => true,
    }
}

/// The rows that the queue for `workspace_id` shows, in table order.
pub open spec fn active_rows(
    rows: Seq<AttentionItemView>,
    workspace_id: Option<Seq<char>>,
) -> Seq<AttentionItemView> {
    rows.filter(|item: AttentionItemView| in_active_queue(item, workspace_id))
}

/// Some row of `rows` has the identifier `id`.
pub open spec fn has_id(rows: Seq<AttentionItemView>, id: Seq<char>) -> bool {
    exists|i: int| 0 <= i < rows.len() && rows[i].id == id
}

/// A row after resolving `id` at time `now`: an unresolved row with that
/// identifier gets the time, every other row stays as it was.
pub open spec fn resolve_row(row: AttentionItemView, id: Seq<char>, now: Seq<char>) -> AttentionItemView {
    if row.id == id && row.resolved_at is None {
        AttentionItemView { resolved_at: Some(now), ..row }
    } else {
        row
    }
}

/// The rows after resolving `id` at time `now`.
pub open spec fn resolve_rows(rows: Seq<AttentionItemView>, id: Seq<char>, now: Seq<char>) -> Seq<
    AttentionItemView,
> {
    rows.map_values(|row: AttentionItemView| resolve_row(row, id, now))
}

/// The result of a creation as plain values: the item, or the error with
/// the message of an input error.
pub open spec fn create_result_view(r: Result<AttentionItem, AppError>) -> Result<
    AttentionItemView,
    Option<Seq<char>>,
> {
    match r {
        Ok(item) => Ok(item@),
        Err(AppError::InvalidInput(m)) => Err(Some(m@)),
        Err(_) => Err(None),
    }
}

/// What creating an item from `input` does to the rows `before`: a refused
/// request changes nothing and says why; an accepted one gets a fresh
/// identifier and a UTC creation time and is stored unresolved at the end,
/// unless the identifier is already taken, which the table refuses (an error
/// that is not an input error) without a change.
pub open spec fn create_outcome(
    before: Seq<AttentionItemView>,
    after: Seq<AttentionItemView>,
    input: CreateAttentionItemView,
    r: Result<AttentionItemView, Option<Seq<char>>>,
) -> bool {
    match create_input_error(input) {
        Some(msg) => r == Err::<AttentionItemView, Option<Seq<char>>>(Some(msg)) && after == before,
        None => match r {
            Ok(item) => {
                &&& item == item_from_input(input, item.id, item.created_at)
                &&& uuid_v4_text(item.id)
                &&& utc_stamp(item.created_at)
                &&& !has_id(before, item.id)
                &&& after == before.push(item)
            },
            Err(e) => e is None && after == before && exists|id: Seq<char>|
                uuid_v4_text(id) && #[trigger] has_id(before, id),
        },
    }
}

/// The views of a sequence of items.
pub open spec fn item_views(rows: Seq<AttentionItem>) -> Seq<AttentionItemView> {
    rows.map_values(|x: AttentionItem| x@)
}

/// No two rows share an identifier.
pub open spec fn ids_unique(rows: Seq<AttentionItemView>) -> bool {
    forall|i: int, j: int| 0 <= i < j < rows.len() ==> (#[trigger] rows[i]).id != (#[trigger] rows[j]).id
}

/// The table of items, in the order in which they were stored. An identifier
/// names at most one row (the table's invariant): storing a second row with
/// it is refused.
pub struct AttentionTable {
    rows: Vec<AttentionItem>,
}

impl View for AttentionTable {
    type V = Seq<AttentionItemView>;

    closed spec fn view(&self) -> Seq<AttentionItemView> {
        self.rows@.map_values(|r: AttentionItem| r@)
    }
}

impl AttentionItem {
    /// A copy of the item.
    pub fn duplicate(&self) -> (r: AttentionItem)
        ensures
            r@ == self@,
    {
        AttentionItem {
            id: self.id.clone(),
            workspace_id: self.workspace_id.clone(),
            session_id: copy_opt(&self.session_id),
            kind: self.kind.clone(),
            priority: self.priority,
            title: self.title.clone(),
            summary: self.summary.clone(),
            action_label: copy_opt(&self.action_label),
            action_ref: copy_opt(&self.action_ref),
            created_at: self.created_at.clone(),
            resolved_at: copy_opt(&self.resolved_at),
        }
    }
}

/// A copy of an optional text.
pub fn copy_opt(v: &Option<String>) -> (r: Option<String>)
    ensures
        r.deep_view() == v.deep_view(),
{
    match v {
        Some(s) => Some(s.clone()),
        None => None,
    }
}

impl AttentionTable {
    /// The identifiers of the rows are unique.
    #[verifier::type_invariant]
    spec fn keeps_ids_unique(self) -> bool {
        ids_unique(self.rows@.map_values(|r: AttentionItem| r@))
    }

    /// An empty table.
    pub fn new() -> (r: AttentionTable)
        ensures
            r@ == Seq::<AttentionItemView>::empty(),
            ids_unique(r@),
    {
        let r = AttentionTable { rows: Vec::new() };
        assert(r@ =~= Seq::<AttentionItemView>::empty());
        r
    }

    /// A table that holds `rows`, in that order; nothing when two of them
    /// share an identifier.
    pub fn from_rows(rows: Vec<AttentionItem>) -> (r: Option<AttentionTable>)
        ensures
            r is Some <==> ids_unique(rows@.map_values(|x: AttentionItem| x@)),
            r matches Some(t) ==> t@ == rows@.map_values(|x: AttentionItem| x@),
    {
        let ghost v = rows@.map_values(|x: AttentionItem| x@);
        let mut i: usize = 0;
        assert(v.take(0) =~= Seq::<AttentionItemView>::empty());
        while i < rows.len()
            invariant
                i <= rows.len(),
                v == rows@.map_values(|x: AttentionItem| x@),
                ids_unique(v.take(i as int)),
            decreases rows.len() - i,
        {
            let mut j: usize = 0;
            while j < i
                invariant
                    j <= i,
                    i < rows.len(),
                    v == rows@.map_values(|x: AttentionItem| x@),
                    forall|k: int| 0 <= k < j ==> (#[trigger] v[k]).id != v[i as int].id,
                decreases i - j,
            {
                assert(v[j as int] == rows@[j as int]@ && v[i as int] == rows@[i as int]@);
                if str_eq(rows[j].id.as_str(), rows[i].id.as_str()) {
                    assert(!ids_unique(v)) by {
                        assert(v[j as int].id == v[i as int].id);
                    }
                    return None;
                }
                j = j + 1;
            }
            let ghost t = v.take(i + 1);
            assert forall|a: int, b: int| 0 <= a < b < t.len() implies (#[trigger] t[a]).id != (
            #[trigger] t[b]).id by {
                if b < i {
                    assert(t[a] == v.take(i as int)[a] && t[b] == v.take(i as int)[b]);
                } else {
                    assert(t[a] == v[a] && t[b] == v[i as int]);
                }
            }
            i = i + 1;
        }
        assert(v.take(rows.len() as int) =~= v);
        Some(AttentionTable { rows })
    }

    /// The rows, in the order in which they were stored.
    pub fn rows(&self) -> (r: &Vec<AttentionItem>)
        ensures
            r@.map_values(|x: AttentionItem| x@) == self@,
    {
        &self.rows
    }

    /// Whether an active item of the workspace `workspace_id` has the kind
    /// `kind` and the title `title`.
    pub fn has_active_item(&self, workspace_id: &str, kind: &str, title: &str) -> (r: bool)
        ensures
            r == exists|i: int|
                0 <= i < self@.len() && in_active_queue(#[trigger] self@[i], Some(workspace_id@))
                    && self@[i].kind == kind@ && self@[i].title == title@,
    {
        let mut i: usize = 0;
        while i < self.rows.len()
            invariant
                i <= self.rows.len(),
                forall|k: int|
                    0 <= k < i ==> !(in_active_queue(#[trigger] self@[k], Some(workspace_id@))
                        && self@[k].kind == kind@ && self@[k].title == title@),
            decreases self.rows.len() - i,
        {
            let row = &self.rows[i];
            assert(self@[i as int] == row@);
            if row.resolved_at.is_none() && str_eq(row.workspace_id.as_str(), workspace_id)
                && str_eq(row.kind.as_str(), kind) && str_eq(row.title.as_str(), title) {
                return true;
            }
            i = i + 1;
        }
        false
    }

    /// Whether some row has the identifier `id`.
    pub fn contains_id(&self, id: &str) -> (r: bool)
        ensures
            r == has_id(self@, id@),
    {
        let mut i: usize = 0;
        while i < self.rows.len()
            invariant
                i <= self.rows.len(),
                forall|k: int| 0 <= k < i ==> (#[trigger] self@[k]).id != id@,
            decreases self.rows.len() - i,
        {
            assert(self@[i as int] == self.rows@[i as int]@);
            if str_eq(self.rows[i].id.as_str(), id) {
                return true;
            }
            i = i + 1;
        }
        false
    }
}

/// The kind is one that an item may have.
fn is_allowed_kind(kind: &str) -> (r: bool)
    ensures
        r == allowed_kind(kind@),
{
    str_eq(kind, "approval") || str_eq(kind, "blocked") || str_eq(kind, "failed") || str_eq(
        kind,
        "done",
    ) || str_eq(kind, "unread") || str_eq(kind, "info")
}

/// Checks a creation request: a workspace, a known kind, a priority from 0 to
/// 3, a title and a summary.
pub fn validate_create_input(input: &CreateAttentionItem) -> (r: Result<(), AppError>)
    ensures
        match create_input_error(input@) {
            Some(msg) => r matches Err(AppError::InvalidInput(m)) && m@ == msg,
            None => r is Ok,
        },
{
    if is_blank(input.workspace_id.as_str()) {
        return Err(AppError::InvalidInput("workspace id cannot be empty".to_owned()));
    }
    if !is_allowed_kind(input.kind.as_str()) {
        let mut msg = "unsupported attention kind: ".to_owned();
        msg.append(input.kind.as_str());
        return Err(AppError::InvalidInput(msg));
    }
    if !(0 <= input.priority && input.priority <= 3) {
        return Err(
            AppError::InvalidInput("attention priority must be between 0 and 3".to_owned()),
        );
    }
    if is_blank(input.title.as_str()) {
        return Err(AppError::InvalidInput("attention title cannot be empty".to_owned()));
    }
    if is_blank(input.summary.as_str()) {
        return Err(AppError::InvalidInput("attention summary cannot be empty".to_owned()));
    }
    Ok(())
}

/// An optional text, trimmed, and dropped when nothing is left of it.
pub fn clean_optional(value: Option<String>) -> (r: Option<String>)
    ensures
        r.deep_view() == clean_opt(value.deep_view()),
{
    match value {
        Some(v) => {
            let t = trimmed(v.as_str());
            if t.as_str().is_empty() {
                None
            } else {
                Some(t)
            }
        },
        None => None,
    }
}

/// Creates an item from `input` and stores it. A refused request changes
/// nothing and says why; an accepted one gets a fresh identifier and the
/// current time, and is stored unresolved, unless its identifier is already
/// taken, which the table refuses.
pub fn create_attention_item(table: &mut AttentionTable, input: CreateAttentionItem) -> (r: Result<
    AttentionItem,
    AppError,
>)
    ensures
        create_outcome(old(table)@, final(table)@, input@, create_result_view(r)),
        ids_unique(final(table)@),
{
    proof {
        use_type_invariant(&*table);
    }
    if let Err(e) = validate_create_input(&input) {
        return Err(e);
    }
    let now = now_rfc3339();
    let id = new_id();
    let item = AttentionItem {
        id,
        workspace_id: trimmed(input.workspace_id.as_str()),
        session_id: clean_optional(input.session_id),
        kind: input.kind,
        priority: input.priority,
        title: trimmed(input.title.as_str()),
        summary: trimmed(input.summary.as_str()),
        action_label: clean_optional(input.action_label),
        action_ref: clean_optional(input.action_ref),
        created_at: now,
        resolved_at: None,
    };
    if table.contains_id(item.id.as_str()) {
        assert(uuid_v4_text(item@.id) && has_id(table@, item@.id));
        return Err(AppError::Database("UNIQUE constraint failed: attention_items.id".to_owned()));
    }
    let copy = item.duplicate();
    let ghost before = table@;
    proof {
        use_type_invariant(&*table);
    }
    let mut rows: Vec<AttentionItem> = Vec::new();
    std::mem::swap(&mut rows, &mut table.rows);
    rows.push(copy);
    assert(rows@.map_values(|x: AttentionItem| x@) =~= before.push(item@));
    assert(ids_unique(before.push(item@))) by {
        let after = before.push(item@);
        assert forall|i: int, j: int| 0 <= i < j < after.len() implies (#[trigger] after[i]).id != (
        #[trigger] after[j]).id by {
            if j == before.len() {
                assert(after[i] == before[i]);
                if before[i].id == item@.id {
                    assert(has_id(before, item@.id));
                }
            } else {
                assert(after[i] == before[i] && after[j] == before[j]);
            }
        }
    }
    table.rows = rows;
    Ok(item)
}

/// Resolves the unresolved item with the identifier `id` (trimmed), at the
/// current time. An empty identifier is refused; an identifier that names no
/// unresolved item changes nothing.
pub fn resolve_attention_item(table: &mut AttentionTable, id: String) -> (r: Result<(), AppError>)
    ensures
        blank(id@) ==> {
            &&& r matches Err(AppError::InvalidInput(m)) && m@ == "attention item id cannot be empty"@
            &&& final(table)@ == old(table)@
        },
        !blank(id@) ==> {
            &&& r is Ok
            &&& exists|now: Seq<char>|
                utc_stamp(now) && final(table)@ == resolve_rows(old(table)@, trim_seq(id@), now)
        },
        ids_unique(final(table)@),
{
    proof {
        use_type_invariant(&*table);
    }
    let trimmed_id = trimmed(id.as_str());
    if trimmed_id.as_str().is_empty() {
        return Err(AppError::InvalidInput("attention item id cannot be empty".to_owned()));
    }
    let now = now_rfc3339();
    let ghost old_rows = table@;
    proof {
        use_type_invariant(&*table);
    }
    let mut rows: Vec<AttentionItem> = Vec::new();
    std::mem::swap(&mut rows, &mut table.rows);
    assert(item_views(rows@) == old_rows);
    let mut i: usize = 0;
    while i < rows.len()
        invariant
            i <= rows.len(),
            item_views(rows@).len() == old_rows.len(),
            forall|k: int|
                0 <= k < i ==> #[trigger] item_views(rows@)[k] == resolve_row(
                    old_rows[k],
                    trimmed_id@,
                    now@,
                ),
            forall|k: int|
                i <= k < item_views(rows@).len() ==> #[trigger] item_views(rows@)[k] == old_rows[k],
        decreases rows.len() - i,
    {
        let ghost prev = item_views(rows@);
        let hit = str_eq(rows[i].id.as_str(), trimmed_id.as_str()) && rows[i].resolved_at.is_none();
        assert(prev[i as int] == rows@[i as int]@);
        if hit {
            let mut row = rows.remove(i);
            row.resolved_at = Some(now.clone());
            let ghost rv = row@;
            rows.insert(i, row);
            assert(item_views(rows@) =~= prev.update(i as int, rv));
        }
        assert(item_views(rows@)[i as int] == resolve_row(
            old_rows[i as int],
            trimmed_id@,
            now@,
        ));
        i = i + 1;
    }
    let ghost nv = item_views(rows@);
    assert(nv =~= resolve_rows(old_rows, trim_seq(id@), now@));
    assert(ids_unique(nv)) by {
        assert forall|a: int, b: int| 0 <= a < b < nv.len() implies (#[trigger] nv[a]).id != (
        #[trigger] nv[b]).id by {
            assert(nv[a].id == old_rows[a].id && nv[b].id == old_rows[b].id);
        }
    }
    table.rows = rows;
    Ok(())
}

/// Whether `a` may stand before `b` in the queue.
fn queue_le_exec(a: &AttentionItem, b: &AttentionItem) -> (r: bool)
    ensures
        r == queue_le(a@, b@),
{
    a.priority > b.priority || (a.priority == b.priority && text_le_exec(
        a.created_at.as_str(),
        b.created_at.as_str(),
    ))
}

/// Queue order is total.
pub proof fn lemma_queue_le_total(a: AttentionItemView, b: AttentionItemView)
    ensures
        queue_le(a, b) || queue_le(b, a),
{
    lemma_text_le_total(a.created_at, b.created_at);
}

/// Queue order is transitive.
pub proof fn lemma_queue_le_trans(a: AttentionItemView, b: AttentionItemView, c: AttentionItemView)
    requires
        queue_le(a, b),
        queue_le(b, c),
    ensures
        queue_le(a, c),
{
    if a.priority == b.priority && b.priority == c.priority {
        lemma_text_le_trans(a.created_at, b.created_at, c.created_at);
    }
}

/// Puts `items` in queue order.
fn sort_queue(items: Vec<AttentionItem>) -> (r: Vec<AttentionItem>)
    ensures
        r@.map_values(|x: AttentionItem| x@).to_multiset() == items@.map_values(
            |x: AttentionItem| x@,
        ).to_multiset(),
        queue_sorted(r@.map_values(|x: AttentionItem| x@)),
{
    let ghost src = items@.map_values(|x: AttentionItem| x@);
    let mut sorted: Vec<AttentionItem> = Vec::new();
    let mut rest = items;
    let mut k: usize = 0;
    let n = rest.len();
    assert(src.take(0) =~= Seq::<AttentionItemView>::empty());
    assert(sorted@.map_values(|x: AttentionItem| x@) =~= Seq::<AttentionItemView>::empty());
    while k < n
        invariant
            k <= n,
            n == rest.len(),
            src == rest@.map_values(|x: AttentionItem| x@),
            sorted@.map_values(|x: AttentionItem| x@).to_multiset() == src.take(
                k as int,
            ).to_multiset(),
            queue_sorted(sorted@.map_values(|x: AttentionItem| x@)),
        decreases n - k,
    {
        let ghost sv = sorted@.map_values(|x: AttentionItem| x@);
        let x = rest[k].duplicate();
        let mut p: usize = 0;
        while p < sorted.len() && queue_le_exec(&sorted[p], &x)
            invariant
                p <= sorted.len(),
                sv == sorted@.map_values(|x: AttentionItem| x@),
                forall|i: int| 0 <= i < p ==> queue_le(#[trigger] sv[i], x@),
            decreases sorted.len() - p,
        {
            p = p + 1;
        }
        proof {
            if p < sorted.len() {
                lemma_queue_le_total(sv[p as int], x@);
                assert(queue_le(x@, sv[p as int]));
                assert forall|i: int| p <= i < sv.len() implies queue_le(x@, #[trigger] sv[i]) by {
                    if i > p {
                        lemma_queue_le_trans(x@, sv[p as int], sv[i]);
                    }
                }
            }
        }
        sorted.insert(p, x);
        let ghost nv = sorted@.map_values(|x: AttentionItem| x@);
        assert(nv =~= sv.insert(p as int, src[k as int]));
        proof {
            to_multiset_insert(sv, p as int, src[k as int]);
            assert(src.take(k + 1) =~= src.take(k as int).push(src[k as int]));
            vstd::seq_lib::to_multiset_build(src.take(k as int), src[k as int]);
            assert forall|i: int, j: int| 0 <= i < j < nv.len() implies queue_le(
                #[trigger] nv[i],
                #[trigger] nv[j],
            ) by {
                if i < p && j < p {
                    assert(nv[i] == sv[i] && nv[j] == sv[j]);
                } else if i < p && j == p {
                } else if i < p && j > p {
                    assert(nv[i] == sv[i] && nv[j] == sv[j - 1]);
                    assert(queue_le(sv[i], x@));
                    if p < sv.len() {
                        assert(queue_le(x@, sv[j - 1]));
                        lemma_queue_le_trans(sv[i], x@, sv[j - 1]);
                    }
                } else if i == p {
                    assert(nv[j] == sv[j - 1]);
                } else {
                    assert(nv[i] == sv[i - 1] && nv[j] == sv[j - 1]);
                }
            }
        }
        k = k + 1;
    }
    assert(src.take(n as int) =~= src);
    sorted
}

/// The active items for `workspace_id` (every workspace when it is `None`),
/// in queue order: higher priority first, then earlier creation time.
pub fn list_attention_items(table: &AttentionTable, workspace_id: Option<String>) -> (r: Result<
    Vec<AttentionItem>,
    AppError,
>)
    ensures
        r matches Ok(items) && {
            let v = items@.map_values(|x: AttentionItem| x@);
            &&& v.to_multiset() == active_rows(table@, workspace_id.deep_view()).to_multiset()
            &&& queue_sorted(v)
        },
{
    let ghost ws = workspace_id.deep_view();
    let ghost pred = |item: AttentionItemView| in_active_queue(item, ws);
    let mut picked: Vec<AttentionItem> = Vec::new();
    let mut i: usize = 0;
    assert(table@.take(0) =~= Seq::<AttentionItemView>::empty());
    assert(picked@.map_values(|x: AttentionItem| x@) =~= table@.take(0).filter(pred));
    while i < table.rows.len()
        invariant
            i <= table.rows.len(),
            ws == workspace_id.deep_view(),
            pred == (|item: AttentionItemView| in_active_queue(item, ws)),
            picked@.map_values(|x: AttentionItem| x@) == table@.take(i as int).filter(pred),
        decreases table.rows.len() - i,
    {
        let row = &table.rows[i];
        let keep = row.resolved_at.is_none() && match &workspace_id {
            Some(w) => str_eq(row.workspace_id.as_str(), w.as_str()),
            None => true,
        };
        let ghost before = picked@.map_values(|x: AttentionItem| x@);
        assert(table@[i as int] == row@);
        assert(keep == pred(row@));
        assert(table@.take(i + 1) =~= table@.take(i as int).push(row@));
        proof {
            table@.take(i as int).lemma_filter_push(row@, pred);
        }
        if keep {
            picked.push(row.duplicate());
            assert(picked@.map_values(|x: AttentionItem| x@) =~= before.push(row@));
        } else {
            assert(picked@.map_values(|x: AttentionItem| x@) =~= before);
        }
        i = i + 1;
    }
    assert(table@.take(table.rows.len() as int) =~= table@);
    Ok(sort_queue(picked))
}

/// The Attention Queue of the caller's choice: the optional workspace is
/// cleaned first (trimmed, and dropped when blank), so a blank choice shows
/// every workspace.
pub fn attention_list(table: &AttentionTable, workspace_id: Option<String>) -> (r: Result<
    Vec<AttentionItem>,
    AppError,
>)
    ensures
        r matches Ok(items) && {
            let v = items@.map_values(|x: AttentionItem| x@);
            &&& v.to_multiset() == active_rows(table@, clean_opt(workspace_id.deep_view())).to_multiset()
            &&& queue_sorted(v)
        },
{
    list_attention_items(table, clean_optional(workspace_id))
}

/// A resolved item leaves the Attention Queue: after resolving `id`, no item
/// with that identifier is in the queue of any workspace, nor in the queue
/// of all of them.
pub proof fn law_resolved_item_leaves_queue(
    rows: Seq<AttentionItemView>,
    id: Seq<char>,
    now: Seq<char>,
    workspace_id: Option<Seq<char>>,
)
    ensures
        forall|k: int|
            0 <= k < active_rows(resolve_rows(rows, id, now), workspace_id).len() ==> (#[trigger] active_rows(
                resolve_rows(rows, id, now),
                workspace_id,
            )[k]).id != id,
{
    let after = resolve_rows(rows, id, now);
    let pred = |item: AttentionItemView| in_active_queue(item, workspace_id);
    assert forall|k: int| 0 <= k < after.filter(pred).len() implies (#[trigger] after.filter(
        pred,
    )[k]).id != id by {
        after.lemma_filter_contains_rev(pred, after.filter(pred)[k]);
        after.filter_lemma(pred);
        let x = after.filter(pred)[k];
        assert(after.contains(x));
        let j = choose|j: int| 0 <= j < after.len() && after[j] == x;
        assert(after[j] == resolve_row(rows[j], id, now));
    }
}

/// Resolving an item leaves every other item as it was.
pub proof fn law_resolve_keeps_other_items(rows: Seq<AttentionItemView>, id: Seq<char>, now: Seq<char>)
    ensures
        resolve_rows(rows, id, now).len() == rows.len(),
        forall|k: int|
            0 <= k < rows.len() && rows[k].id != id ==> #[trigger] resolve_rows(rows, id, now)[k]
                == rows[k],
{
}

/// The queue of a workspace holds only unresolved items of that workspace.
pub proof fn law_queue_holds_only_active_items_of_workspace(
    rows: Seq<AttentionItemView>,
    workspace_id: Seq<char>,
)
    ensures
        forall|k: int|
            0 <= k < active_rows(rows, Some(workspace_id)).len() ==> {
                &&& (#[trigger] active_rows(rows, Some(workspace_id))[k]).resolved_at is None
                &&& active_rows(rows, Some(workspace_id))[k].workspace_id == workspace_id
            },
{
    let pred = |item: AttentionItemView| in_active_queue(item, Some(workspace_id));
    rows.filter_lemma(pred);
}

/// A created item is in the queue of its workspace, with an allowed kind, a
/// priority from 0 to 3, a title and a summary.
pub proof fn law_created_item_is_queued(
    before: Seq<AttentionItemView>,
    after: Seq<AttentionItemView>,
    input: CreateAttentionItemView,
    item: AttentionItemView,
)
    requires
        create_outcome(before, after, input, Ok(item)),
    ensures
        active_rows(after, Some(item.workspace_id)).contains(item),
        allowed_kind(item.kind),
        0 <= item.priority <= 3,
        item.title.len() > 0,
        item.summary.len() > 0,
{
    let pred = |x: AttentionItemView| in_active_queue(x, Some(item.workspace_id));
    assert(after[before.len() as int] == item);
    after.filter_lemma(pred);
    assert(pred(item));
    after.lemma_filter_contains(pred, before.len() as int);
}

/// A created item stands exactly once in the queue of its workspace and
/// exactly once in the queue of all workspaces.
pub proof fn law_created_item_is_queued_once(
    before: Seq<AttentionItemView>,
    after: Seq<AttentionItemView>,
    input: CreateAttentionItemView,
    item: AttentionItemView,
)
    requires
        create_outcome(before, after, input, Ok(item)),
    ensures
        active_rows(after, Some(item.workspace_id)).to_multiset().count(item) == 1,
        active_rows(after, None).to_multiset().count(item) == 1,
{
    assert(!before.contains(item)) by {
        if before.contains(item) {
            let j = choose|j: int| 0 <= j < before.len() && before[j] == item;
            assert(has_id(before, item.id));
        }
    }
    lemma_queued_once(before, item, Some(item.workspace_id));
    lemma_queued_once(before, item, None);
}

/// An unresolved item that `rows` does not hold, pushed onto them, stands
/// once in a queue that shows it.
proof fn lemma_queued_once(
    rows: Seq<AttentionItemView>,
    item: AttentionItemView,
    workspace_id: Option<Seq<char>>,
)
    requires
        !rows.contains(item),
        in_active_queue(item, workspace_id),
    ensures
        active_rows(rows.push(item), workspace_id).to_multiset().count(item) == 1,
{
    let pred = |x: AttentionItemView| in_active_queue(x, workspace_id);
    rows.lemma_filter_push(item, pred);
    let f = rows.filter(pred);
    assert(!f.contains(item)) by {
        if f.contains(item) {
            rows.lemma_filter_contains_rev(pred, item);
        }
    }
    vstd::seq_lib::to_multiset_contains(f, item);
    vstd::seq_lib::to_multiset_build(f, item);
    assert(rows.push(item).filter(pred) == f.push(item));
}

/// In rows with unique identifiers, an item stands in the queue of
/// `workspace_id` once when the rows hold it and the queue shows it, and
/// never otherwise.
proof fn lemma_queue_count(
    rows: Seq<AttentionItemView>,
    item: AttentionItemView,
    workspace_id: Option<Seq<char>>,
)
    requires
        ids_unique(rows),
    ensures
        active_rows(rows, workspace_id).to_multiset().count(item) == (if rows.contains(item)
            && in_active_queue(item, workspace_id) {
            1nat
        } else {
            0nat
        }),
    decreases rows.len(),
{
    let pred = |x: AttentionItemView| in_active_queue(x, workspace_id);
    if rows.len() == 0 {
        assert(rows.filter(pred) =~= Seq::<AttentionItemView>::empty()) by {
            rows.lemma_filter_len(pred);
        }
        vstd::seq_lib::to_multiset_contains(rows.filter(pred), item);
    } else {
        let init = rows.drop_last();
        let x = rows.last();
        assert(rows =~= init.push(x));
        assert(ids_unique(init)) by {
            assert forall|i: int, j: int| 0 <= i < j < init.len() implies (#[trigger] init[i]).id != (
            #[trigger] init[j]).id by {
                assert(init[i] == rows[i] && init[j] == rows[j]);
            }
        }
        lemma_queue_count(init, item, workspace_id);
        init.lemma_filter_push(x, pred);
        if pred(x) {
            vstd::seq_lib::to_multiset_build(init.filter(pred), x);
        }
        if x == item {
            assert(!init.contains(item)) by {
                if init.contains(item) {
                    let j = choose|j: int| 0 <= j < init.len() && init[j] == item;
                    assert(rows[j] == item && rows[rows.len() - 1] == item);
                }
            }
        }
        assert(rows.contains(item) <==> (init.contains(item) || x == item)) by {
            if rows.contains(item) && x != item {
                let j = choose|j: int| 0 <= j < rows.len() && rows[j] == item;
                assert(j < init.len() && init[j] == item);
            }
            if init.contains(item) {
                let j = choose|j: int| 0 <= j < init.len() && init[j] == item;
                assert(rows[j] == item);
            }
            if x == item {
                assert(rows[rows.len() - 1] == item);
            }
        }
    }
}

/// In rows with unique identifiers, every item of a queue that has the
/// identifier of a row `item` is that row.
proof fn lemma_queue_same_id(
    rows: Seq<AttentionItemView>,
    item: AttentionItemView,
    workspace_id: Option<Seq<char>>,
)
    requires
        ids_unique(rows),
        rows.contains(item),
    ensures
        forall|k: int|
            0 <= k < active_rows(rows, workspace_id).len() && (#[trigger] active_rows(
                rows,
                workspace_id,
            )[k]).id == item.id ==> active_rows(rows, workspace_id)[k] == item,
{
    let pred = |x: AttentionItemView| in_active_queue(x, workspace_id);
    let f = rows.filter(pred);
    let p = choose|p: int| 0 <= p < rows.len() && rows[p] == item;
    assert forall|k: int| 0 <= k < f.len() && (#[trigger] f[k]).id == item.id implies f[k] == item by {
        assert(f.contains(f[k]));
        rows.lemma_filter_contains_rev(pred, f[k]);
        let j = choose|j: int| 0 <= j < rows.len() && rows[j] == f[k];
        if j < p {
            assert(rows[j].id != rows[p].id);
        } else if j > p {
            assert(rows[p].id != rows[j].id);
        }
    }
}

/// An item that a table holds unresolved stands exactly once in the queue of
/// its workspace and exactly once in the queue of all workspaces, and no
/// other item of either queue has its identifier. Every table's identifiers
/// are unique, so this holds in every state that creating and resolving
/// items reach.
pub proof fn law_item_listed_once(rows: Seq<AttentionItemView>, item: AttentionItemView)
    requires
        ids_unique(rows),
        rows.contains(item),
        item.resolved_at is None,
    ensures
        active_rows(rows, Some(item.workspace_id)).to_multiset().count(item) == 1,
        active_rows(rows, None).to_multiset().count(item) == 1,
        forall|k: int|
            0 <= k < active_rows(rows, Some(item.workspace_id)).len() && (#[trigger] active_rows(
                rows,
                Some(item.workspace_id),
            )[k]).id == item.id ==> active_rows(rows, Some(item.workspace_id))[k] == item,
        forall|k: int|
            0 <= k < active_rows(rows, None).len() && (#[trigger] active_rows(rows, None)[k]).id
                == item.id ==> active_rows(rows, None)[k] == item,
{
    lemma_queue_count(rows, item, Some(item.workspace_id));
    lemma_queue_count(rows, item, None);
    lemma_queue_same_id(rows, item, Some(item.workspace_id));
    lemma_queue_same_id(rows, item, None);
}

/// Creating an item never takes away or changes what the table held.
pub proof fn law_create_keeps_rows(
    before: Seq<AttentionItemView>,
    after: Seq<AttentionItemView>,
    input: CreateAttentionItemView,
    r: Result<AttentionItemView, Option<Seq<char>>>,
)
    requires
        create_outcome(before, after, input, r),
    ensures
        after.len() >= before.len(),
        forall|k: int| 0 <= k < before.len() ==> #[trigger] after[k] == before[k],
{
}

} // verus!
