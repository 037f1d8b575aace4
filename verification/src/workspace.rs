//! Workspaces: local project roots, the table that keeps them, and the rules
//! for adding one.
use vstd::prelude::*;
use vstd::seq_lib::{to_multiset_build, to_multiset_insert};
use crate::attention::clean_optional;
use crate::attention::clean_opt;
use crate::error::AppError;
use crate::stamps::{new_id, now_rfc3339, utc_stamp, uuid_v4_text};
use crate::text::{
    blank, is_blank, lemma_text_le_antisym, lemma_text_le_total, lemma_text_le_trans,
    starts_with_seq, str_eq, strip_prefix, text_le, text_le_exec, trim_seq, trimmed,
};

verus! {

/// A local project root that the cockpit watches.
#[derive(Debug, Clone, PartialEq, Eq)]
pub struct Workspace {
    pub id: String,
    pub name: String,
    pub path: String,
    pub git_root: Option<String>,
    pub default_ai_engine: String,
    pub created_at: String,
    pub updated_at: String,
}

/// A workspace as plain values.
pub struct WorkspaceView {
    pub id: Seq<char>,
    pub name: Seq<char>,
    pub path: Seq<char>,
    pub git_root: Option<Seq<char>>,
    pub default_ai_engine: Seq<char>,
    pub created_at: Seq<char>,
    pub updated_at: Seq<char>,
}

impl View for Workspace {
    type V = WorkspaceView;

    open spec fn view(&self) -> WorkspaceView {
        WorkspaceView {
            id: self.id@,
            name: self.name@,
            path: self.path@,
            git_root: self.git_root.deep_view(),
            default_ai_engine: self.default_ai_engine@,
            created_at: self.created_at@,
            updated_at: self.updated_at@,
        }
    }
}

/// What the file system says of a directory that is being added: whether it
/// is one, its canonical path, the last component of that path, and the root
/// of the Git repository that holds it, if any (canonical where it could be
/// made so).
#[derive(Debug, Clone)]
pub struct DirectoryFacts {
    pub is_dir: bool,
    pub canonical_path: String,
    pub file_name: Option<String>,
    pub git_root: Option<String>,
}

/// The views of a sequence of workspaces.
pub open spec fn workspace_views(rows: Seq<Workspace>) -> Seq<WorkspaceView> {
    rows.map_values(|x: Workspace| x@)
}

/// No two rows share an identifier.
pub open spec fn workspace_ids_unique(rows: Seq<WorkspaceView>) -> bool {
    forall|i: int, j: int|
        0 <= i < rows.len() && 0 <= j < rows.len() && i != j ==> (#[trigger] rows[i]).id
            != (#[trigger] rows[j]).id
}

/// No two rows share a path or an identifier.
pub open spec fn keys_unique(rows: Seq<WorkspaceView>) -> bool {
    paths_unique(rows) && workspace_ids_unique(rows)
}

/// The table of workspaces, in the order in which they were stored. A path
/// names at most one workspace, and so does an identifier (the table's
/// invariant): adding a path again updates that workspace.
pub struct WorkspaceTable {
    rows: Vec<Workspace>,
}

impl View for WorkspaceTable {
    type V = Seq<WorkspaceView>;

    closed spec fn view(&self) -> Seq<WorkspaceView> {
        self.rows@.map_values(|r: Workspace| r@)
    }
}

/// The prefix that Windows puts before an extended-length path.
pub open spec fn extended_prefix() -> Seq<char> {
    seq!['\\', '\\', '?', '\\']
}

/// A path as the user reads it: without the extended-length prefix.
pub open spec fn display_path(path: Seq<char>) -> Seq<char> {
    if starts_with_seq(path, extended_prefix()) {
        path.subrange(4, path.len() as int)
    } else {
        path
    }
}

/// The name for a new workspace: the given name, trimmed, unless nothing is
/// left of it; else the directory's own name, unless it is blank.
pub open spec fn chosen_name(name: Option<Seq<char>>, file_name: Option<Seq<char>>) -> Option<
    Seq<char>,
> {
    match clean_opt(name) {
        Some(n) => Some(n),
        None => match file_name {
            Some(f) => if blank(f) {
                None
            } else {
                Some(f)
            },
            None => None,
        },
    }
}

/// The path of a row, or its identifier.
pub open spec fn key_of(w: WorkspaceView, by_path: bool) -> Seq<char> {
    if by_path {
        w.path
    } else {
        w.id
    }
}

/// The first index at or after `i` of a row whose path (or identifier) is `k`.
pub open spec fn index_from(rows: Seq<WorkspaceView>, k: Seq<char>, by_path: bool, i: int) -> Option<
    int,
>
    decreases rows.len() - i,
{
    if i < 0 || i >= rows.len() {
        None
    } else if key_of(rows[i], by_path) == k {
        Some(i)
    } else {
        index_from(rows, k, by_path, i + 1)
    }
}

/// The first row with the identifier `id`.
pub open spec fn row_with_id(rows: Seq<WorkspaceView>, id: Seq<char>) -> Option<WorkspaceView> {
    match index_from(rows, id, false, 0) {
        Some(i) => Some(rows[i]),
        None => None,
    }
}

/// The first row with the path `path`.
pub open spec fn row_with_path(rows: Seq<WorkspaceView>, path: Seq<char>) -> Option<WorkspaceView> {
    match index_from(rows, path, true, 0) {
        Some(i) => Some(rows[i]),
        None => None,
    }
}

/// The rows after storing `w`: a row with its path takes its name, Git root,
/// engine and update time and keeps its identifier and creation time; with no
/// such row, `w` is added at the end.
pub open spec fn upsert_rows(rows: Seq<WorkspaceView>, w: WorkspaceView) -> Seq<WorkspaceView> {
    match index_from(rows, w.path, true, 0) {
        Some(i) => rows.update(
            i,
            WorkspaceView {
                name: w.name,
                git_root: w.git_root,
                default_ai_engine: w.default_ai_engine,
                updated_at: w.updated_at,
                ..rows[i]
            },
        ),
        None => rows.push(w),
    }
}

/// The rows after removing every row with the identifier `id`.
pub open spec fn remove_rows(rows: Seq<WorkspaceView>, id: Seq<char>) -> Seq<WorkspaceView> {
    rows.filter(|w: WorkspaceView| w.id != id)
}

/// `a` may stand before `b` in the list: the later update first, and among
/// equal update times the name first in code point order.
pub open spec fn list_le(a: WorkspaceView, b: WorkspaceView) -> bool {
    if a.updated_at == b.updated_at {
        text_le(a.name, b.name)
    } else {
        text_le(b.updated_at, a.updated_at)
    }
}

/// `s` is in list order.
pub open spec fn list_sorted(s: Seq<WorkspaceView>) -> bool {
    forall|i: int, j: int| 0 <= i < j < s.len() ==> list_le(#[trigger] s[i], #[trigger] s[j])
}

/// The workspace that adding a directory makes, before it is stored.
pub open spec fn new_workspace(
    id: Seq<char>,
    name: Seq<char>,
    facts_path: Seq<char>,
    facts_git_root: Option<Seq<char>>,
    now: Seq<char>,
) -> WorkspaceView {
    WorkspaceView {
        id: id,
        name: name,
        path: display_path(facts_path),
        git_root: match facts_git_root {
            Some(g) => Some(display_path(g)),
            None => None,
        },
        default_ai_engine: "codex"@,
        created_at: now,
        updated_at: now,
    }
}

/// What adding a directory that passed the path and name checks does: with
/// some fresh identifier and the current time, the workspace is stored; the
/// result is the stored row for its path, unless the identifier is taken.
pub open spec fn stored_outcome(
    before: Seq<WorkspaceView>,
    after: Seq<WorkspaceView>,
    r: Result<WorkspaceView, ()>,
    name: Seq<char>,
    facts: DirectoryFacts,
) -> bool {
    exists|id: Seq<char>, now: Seq<char>|
        #![trigger new_workspace(id, name, facts.canonical_path@, facts.git_root.deep_view(), now)]
        {
            let w = new_workspace(id, name, facts.canonical_path@, facts.git_root.deep_view(), now);
            &&& uuid_v4_text(id)
            &&& utc_stamp(now)
            &&& if index_from(before, w.path, true, 0) is None && index_from(
                before,
                id,
                false,
                0,
            ) is Some {
                r is Err && after == before
            } else {
                &&& after == upsert_rows(before, w)
                &&& r == Ok::<WorkspaceView, ()>(row_with_path(after, w.path)->0)
            }
        }
}

/// The result of adding, as plain values: the stored workspace, or the
/// message of an input error (`None` for any other error).
pub open spec fn add_result_view(r: Result<Workspace, AppError>) -> Result<
    WorkspaceView,
    Option<Seq<char>>,
> {
    match r {
        Ok(w) => Ok(w@),
        Err(AppError::InvalidInput(m)) => Err(Some(m@)),
        Err(_) => Err(None),
    }
}

/// What adding the directory `path` (trimmed) with the optional `name` does,
/// once the file system has answered with `facts`.
pub open spec fn add_outcome(
    before: Seq<WorkspaceView>,
    after: Seq<WorkspaceView>,
    r: Result<WorkspaceView, Option<Seq<char>>>,
    path: Seq<char>,
    name: Option<Seq<char>>,
    facts: Result<DirectoryFacts, AppError>,
) -> bool {
    match facts {
        Err(e) => r == add_result_view(Err::<Workspace, AppError>(e)) && after == before,
        Ok(f) => if !f.is_dir {
            r == Err::<WorkspaceView, Option<Seq<char>>>(
                Some("workspace path is not a directory: "@ + path),
            ) && after == before
        } else {
            match chosen_name(name, f.file_name.deep_view()) {
                None => r == Err::<WorkspaceView, Option<Seq<char>>>(
                    Some("workspace directory has no name"@),
                ) && after == before,
                Some(n) => stored_outcome(
                    before,
                    after,
                    match r {
                        Ok(w) => Ok(w),
                        Err(_) => Err(()),
                    },
                    n,
                    f,
                ),
            }
        },
    }
}

impl Workspace {
    /// A copy of the workspace.
    pub fn duplicate(&self) -> (r: Workspace)
        ensures
            r@ == self@,
    {
        Workspace {
            id: self.id.clone(),
            name: self.name.clone(),
            path: self.path.clone(),
            git_root: crate::attention::copy_opt(&self.git_root),
            default_ai_engine: self.default_ai_engine.clone(),
            created_at: self.created_at.clone(),
            updated_at: self.updated_at.clone(),
        }
    }
}

impl WorkspaceTable {
    /// The paths and the identifiers of the rows are unique.
    #[verifier::type_invariant]
    spec fn keeps_keys_unique(self) -> bool {
        keys_unique(workspace_views(self.rows@))
    }

    /// An empty table.
    pub fn new() -> (r: WorkspaceTable)
        ensures
            r@ == Seq::<WorkspaceView>::empty(),
            keys_unique(r@),
    {
        let r = WorkspaceTable { rows: Vec::new() };
        assert(r@ =~= Seq::<WorkspaceView>::empty());
        r
    }

    /// A table that holds `rows`, in that order; nothing when two of them
    /// share a path or an identifier.
    pub fn from_rows(rows: Vec<Workspace>) -> (r: Option<WorkspaceTable>)
        ensures
            r is Some <==> keys_unique(workspace_views(rows@)),
            r matches Some(t) ==> t@ == workspace_views(rows@),
    {
        let ghost v = workspace_views(rows@);
        let mut i: usize = 0;
        assert(v.take(0) =~= Seq::<WorkspaceView>::empty());
        while i < rows.len()
            invariant
                i <= rows.len(),
                v == workspace_views(rows@),
                keys_unique(v.take(i as int)),
            decreases rows.len() - i,
        {
            let mut j: usize = 0;
            while j < i
                invariant
                    j <= i,
                    i < rows.len(),
                    v == workspace_views(rows@),
                    forall|k: int|
                        0 <= k < j ==> (#[trigger] v[k]).id != v[i as int].id && v[k].path
                            != v[i as int].path,
                decreases i - j,
            {
                assert(v[j as int] == rows@[j as int]@ && v[i as int] == rows@[i as int]@);
                if str_eq(rows[j].id.as_str(), rows[i].id.as_str()) || str_eq(
                    rows[j].path.as_str(),
                    rows[i].path.as_str(),
                ) {
                    assert(!keys_unique(v)) by {
                        assert(v[j as int].id == v[i as int].id || v[j as int].path
                            == v[i as int].path);
                    }
                    return None;
                }
                j = j + 1;
            }
            let ghost t = v.take(i + 1);
            assert forall|a: int, b: int|
                0 <= a < t.len() && 0 <= b < t.len() && a != b implies (#[trigger] t[a]).id != (
                #[trigger] t[b]).id && t[a].path != t[b].path by {
                if a < i && b < i {
                    assert(t[a] == v.take(i as int)[a] && t[b] == v.take(i as int)[b]);
                } else if a == i {
                    assert(t[a] == v[i as int] && t[b] == v[b]);
                } else {
                    assert(t[b] == v[i as int] && t[a] == v[a]);
                }
            }
            i = i + 1;
        }
        assert(v.take(rows.len() as int) =~= v);
        Some(WorkspaceTable { rows })
    }

    /// The rows, in the order in which they were stored.
    pub fn rows(&self) -> (r: &Vec<Workspace>)
        ensures
            r@.map_values(|x: Workspace| x@) == self@,
    {
        &self.rows
    }

    /// The index of the first row whose identifier (or path) is `key`.
    fn index_of(&self, key: &str, by_path: bool) -> (r: Option<usize>)
        ensures
            r is None <==> index_from(self@, key@, by_path, 0) is None,
            r matches Some(i) ==> index_from(self@, key@, by_path, 0) == Some(i as int) && i
                < self.rows.len(),
    {
        let mut i: usize = 0;
        while i < self.rows.len()
            invariant
                i <= self.rows.len(),
                index_from(self@, key@, by_path, 0) == index_from(self@, key@, by_path, i as int),
            decreases self.rows.len() - i,
        {
            assert(self@[i as int] == self.rows@[i as int]@);
            let hit = if by_path {
                str_eq(self.rows[i].path.as_str(), key)
            } else {
                str_eq(self.rows[i].id.as_str(), key)
            };
            if hit {
                return Some(i);
            }
            i = i + 1;
        }
        None
    }
}

/// The workspace with the identifier `id`, if there is one.
pub fn find_workspace_by_id(table: &WorkspaceTable, id: &str) -> (r: Result<
    Option<Workspace>,
    AppError,
>)
    ensures
        r matches Ok(found) && match found {
            Some(w) => row_with_id(table@, id@) == Some(w@),
            None => row_with_id(table@, id@) is None,
        },
{
    match table.index_of(id, false) {
        Some(i) => {
            assert(table@[i as int] == table.rows@[i as int]@);
            Ok(Some(table.rows[i].duplicate()))
        },
        None => Ok(None),
    }
}

/// The workspace with the path `path`, if there is one.
fn find_workspace_by_path(table: &WorkspaceTable, path: &str) -> (r: Result<
    Option<Workspace>,
    AppError,
>)
    ensures
        r matches Ok(found) && match found {
            Some(w) => row_with_path(table@, path@) == Some(w@),
            None => row_with_path(table@, path@) is None,
        },
{
    match table.index_of(path, true) {
        Some(i) => {
            assert(table@[i as int] == table.rows@[i as int]@);
            Ok(Some(table.rows[i].duplicate()))
        },
        None => Ok(None),
    }
}

/// Keeping some of the rows keeps their paths and identifiers unique.
proof fn lemma_filter_keys_unique(rows: Seq<WorkspaceView>, pred: spec_fn(WorkspaceView) -> bool)
    requires
        keys_unique(rows),
    ensures
        keys_unique(rows.filter(pred)),
    decreases rows.len(),
{
    if rows.len() == 0 {
        rows.lemma_filter_len(pred);
        assert(rows.filter(pred).len() == 0);
    } else {
        let init = rows.drop_last();
        let x = rows.last();
        assert(rows =~= init.push(x));
        assert(keys_unique(init)) by {
            assert forall|a: int, b: int|
                0 <= a < init.len() && 0 <= b < init.len() && a != b implies (
                #[trigger] init[a]).id != (#[trigger] init[b]).id && init[a].path != init[b].path by {
                assert(init[a] == rows[a] && init[b] == rows[b]);
            }
        }
        lemma_filter_keys_unique(init, pred);
        init.lemma_filter_push(x, pred);
        if pred(x) {
            let f = init.filter(pred);
            let g = f.push(x);
            assert forall|a: int, b: int|
                0 <= a < g.len() && 0 <= b < g.len() && a != b implies (#[trigger] g[a]).id != (
                #[trigger] g[b]).id && g[a].path != g[b].path by {
                if a == f.len() || b == f.len() {
                    let o = if a == f.len() {
                        b
                    } else {
                        a
                    };
                    assert(f.contains(f[o]));
                    init.lemma_filter_contains_rev(pred, f[o]);
                    let j = choose|j: int| 0 <= j < init.len() && init[j] == f[o];
                    assert(rows[j] == f[o] && rows[rows.len() - 1] == x);
                    assert(j != rows.len() - 1);
                } else {
                    assert(g[a] == f[a] && g[b] == f[b]);
                }
            }
        }
    }
}

/// Removes the workspace with the identifier `id`; an unknown identifier
/// changes nothing.
pub fn remove_workspace(table: &mut WorkspaceTable, id: String) -> (r: Result<(), AppError>)
    ensures
        r is Ok,
        final(table)@ == remove_rows(old(table)@, id@),
        keys_unique(final(table)@),
{
    proof {
        use_type_invariant(&*table);
        lemma_filter_keys_unique(table@, |w: WorkspaceView| w.id != id@);
    }
    let ghost pred = |w: WorkspaceView| w.id != id@;
    let ghost before = table@;
    let mut kept: Vec<Workspace> = Vec::new();
    let mut i: usize = 0;
    assert(before.take(0) =~= Seq::<WorkspaceView>::empty());
    assert(kept@.map_values(|x: Workspace| x@) =~= before.take(0).filter(pred));
    while i < table.rows.len()
        invariant
            i <= table.rows.len(),
            before == table@,
            pred == (|w: WorkspaceView| w.id != id@),
            kept@.map_values(|x: Workspace| x@) == before.take(i as int).filter(pred),
        decreases table.rows.len() - i,
    {
        let row = &table.rows[i];
        let ghost prev = kept@.map_values(|x: Workspace| x@);
        assert(before[i as int] == row@);
        assert(before.take(i + 1) =~= before.take(i as int).push(row@));
        proof {
            before.take(i as int).lemma_filter_push(row@, pred);
        }
        if !str_eq(row.id.as_str(), id.as_str()) {
            kept.push(row.duplicate());
            assert(kept@.map_values(|x: Workspace| x@) =~= prev.push(row@));
        } else {
            assert(kept@.map_values(|x: Workspace| x@) =~= prev);
        }
        i = i + 1;
    }
    assert(before.take(before.len() as int) =~= before);
    assert(workspace_views(kept@) == remove_rows(before, id@));
    table.rows = kept;
    Ok(())
}

/// Whether `a` may stand before `b` in the list.
fn list_le_exec(a: &Workspace, b: &Workspace) -> (r: bool)
    ensures
        r == list_le(a@, b@),
{
    if str_eq(a.updated_at.as_str(), b.updated_at.as_str()) {
        text_le_exec(a.name.as_str(), b.name.as_str())
    } else {
        text_le_exec(b.updated_at.as_str(), a.updated_at.as_str())
    }
}

/// List order is total.
pub proof fn lemma_list_le_total(a: WorkspaceView, b: WorkspaceView)
    ensures
        list_le(a, b) || list_le(b, a),
{
    lemma_text_le_total(a.name, b.name);
    lemma_text_le_total(a.updated_at, b.updated_at);
}

/// List order is transitive.
pub proof fn lemma_list_le_trans(a: WorkspaceView, b: WorkspaceView, c: WorkspaceView)
    requires
        list_le(a, b),
        list_le(b, c),
    ensures
        list_le(a, c),
{
    let (x, y, z) = (a.updated_at, b.updated_at, c.updated_at);
    if x == y && y == z {
        lemma_text_le_trans(a.name, b.name, c.name);
    } else if x == y {
        assert(text_le(z, y));
    } else if y == z {
        assert(text_le(y, x));
    } else {
        lemma_text_le_trans(z, y, x);
        if x == z {
            lemma_text_le_antisym(x, y);
        }
    }
}

/// Puts `items` in list order.
fn sort_list(items: Vec<Workspace>) -> (r: Vec<Workspace>)
    ensures
        r@.map_values(|x: Workspace| x@).to_multiset() == items@.map_values(
            |x: Workspace| x@,
        ).to_multiset(),
        list_sorted(r@.map_values(|x: Workspace| x@)),
{
    let ghost src = items@.map_values(|x: Workspace| x@);
    let mut sorted: Vec<Workspace> = Vec::new();
    let rest = items;
    let mut k: usize = 0;
    let n = rest.len();
    assert(src.take(0) =~= Seq::<WorkspaceView>::empty());
    assert(sorted@.map_values(|x: Workspace| x@) =~= Seq::<WorkspaceView>::empty());
    while k < n
        invariant
            k <= n,
            n == rest.len(),
            src == rest@.map_values(|x: Workspace| x@),
            sorted@.map_values(|x: Workspace| x@).to_multiset() == src.take(
                k as int,
            ).to_multiset(),
            list_sorted(sorted@.map_values(|x: Workspace| x@)),
        decreases n - k,
    {
        let ghost sv = sorted@.map_values(|x: Workspace| x@);
        let x = rest[k].duplicate();
        let mut p: usize = 0;
        while p < sorted.len() && list_le_exec(&sorted[p], &x)
            invariant
                p <= sorted.len(),
                sv == sorted@.map_values(|x: Workspace| x@),
                forall|i: int| 0 <= i < p ==> list_le(#[trigger] sv[i], x@),
            decreases sorted.len() - p,
        {
            p = p + 1;
        }
        proof {
            if p < sorted.len() {
                lemma_list_le_total(sv[p as int], x@);
                assert forall|i: int| p <= i < sv.len() implies list_le(x@, #[trigger] sv[i]) by {
                    if i > p {
                        lemma_list_le_trans(x@, sv[p as int], sv[i]);
                    }
                }
            }
        }
        sorted.insert(p, x);
        let ghost nv = sorted@.map_values(|x: Workspace| x@);
        assert(nv =~= sv.insert(p as int, src[k as int]));
        proof {
            to_multiset_insert(sv, p as int, src[k as int]);
            assert(src.take(k + 1) =~= src.take(k as int).push(src[k as int]));
            to_multiset_build(src.take(k as int), src[k as int]);
            assert forall|i: int, j: int| 0 <= i < j < nv.len() implies list_le(
                #[trigger] nv[i],
                #[trigger] nv[j],
            ) by {
                if i < p && j < p {
                    assert(nv[i] == sv[i] && nv[j] == sv[j]);
                } else if i < p && j == p {
                } else if i < p && j > p {
                    assert(nv[i] == sv[i] && nv[j] == sv[j - 1]);
                    assert(list_le(sv[i], x@));
                    assert(list_le(x@, sv[j - 1]));
                    lemma_list_le_trans(sv[i], x@, sv[j - 1]);
                } else if i == p {
                    assert(nv[j] == sv[j - 1]);
                } else {
                    assert(nv[i] == sv[i - 1] && nv[j] == sv[j - 1]);
                }
            }
        }
        k = k + 1;
    }
    assert(src.take(n as int) =~= src);
    sorted
}

/// Every workspace, the most recently updated first, and among equal update
/// times by name.
pub fn list_workspaces(table: &WorkspaceTable) -> (r: Result<Vec<Workspace>, AppError>)
    ensures
        r matches Ok(items) && {
            let v = items@.map_values(|x: Workspace| x@);
            &&& v.to_multiset() == table@.to_multiset()
            &&& list_sorted(v)
        },
{
    let mut all: Vec<Workspace> = Vec::new();
    let mut i: usize = 0;
    while i < table.rows.len()
        invariant
            i <= table.rows.len(),
            all@.map_values(|x: Workspace| x@) == table@.take(i as int),
        decreases table.rows.len() - i,
    {
        let ghost prev = all@.map_values(|x: Workspace| x@);
        all.push(table.rows[i].duplicate());
        assert(table@[i as int] == table.rows@[i as int]@);
        assert(table@.take(i + 1) =~= table@.take(i as int).push(table@[i as int]));
        assert(all@.map_values(|x: Workspace| x@) =~= table@.take(i + 1));
        i = i + 1;
    }
    assert(table@.take(table.rows.len() as int) =~= table@);
    Ok(sort_list(all))
}

/// A path as the user reads it: without the extended-length prefix `\\?\`
/// that Windows puts before a canonical path.
pub fn path_to_display_string(path: &str) -> (r: String)
    ensures
        r@ == display_path(path@),
{
    let prefix = "\\\\?\\";
    proof {
        reveal_strlit("\\\\?\\");
    }
    assert(prefix@ =~= extended_prefix());
    match strip_prefix(path, prefix) {
        Some(rest) => rest.to_owned(),
        None => path.to_owned(),
    }
}

/// The directory's own name, unless it has none or it is blank.
pub fn directory_name(file_name: Option<String>) -> (r: Result<String, AppError>)
    ensures
        match file_name.deep_view() {
            Some(f) => if blank(f) {
                r matches Err(AppError::InvalidInput(m)) && m@ == "workspace directory has no name"@
            } else {
                r matches Ok(n) && n@ == f
            },
            None => r matches Err(AppError::InvalidInput(m)) && m@
                == "workspace directory has no name"@,
        },
{
    match file_name {
        Some(f) => if is_blank(f.as_str()) {
            Err(AppError::InvalidInput("workspace directory has no name".to_owned()))
        } else {
            Ok(f)
        },
        None => Err(AppError::InvalidInput("workspace directory has no name".to_owned())),
    }
}

/// The path of a workspace to add, trimmed; a blank path is refused.
pub fn validate_workspace_path(path: &str) -> (r: Result<String, AppError>)
    ensures
        blank(path@) ==> (r matches Err(AppError::InvalidInput(m)) && m@
            == "workspace path cannot be empty"@),
        !blank(path@) ==> (r matches Ok(p) && p@ == trim_seq(path@)),
{
    let t = trimmed(path);
    if t.as_str().is_empty() {
        return Err(AppError::InvalidInput("workspace path cannot be empty".to_owned()));
    }
    Ok(t)
}

/// The root that `git rev-parse --show-toplevel` reports: its output, trimmed,
/// when the command succeeded and printed something.
pub fn git_root_candidate(success: bool, stdout: &str) -> (r: Option<String>)
    ensures
        r.deep_view() == (if success && !blank(stdout@) {
            Some(trim_seq(stdout@))
        } else {
            None
        }),
{
    if !success {
        return None;
    }
    let t = trimmed(stdout);
    if t.as_str().is_empty() {
        None
    } else {
        Some(t)
    }
}

/// Where `index_from` lands: the first matching row at or after `j`, or
/// nothing when no row from `j` on matches.
pub proof fn lemma_index_from(rows: Seq<WorkspaceView>, k: Seq<char>, by_path: bool, j: int)
    requires
        0 <= j,
    ensures
        match index_from(rows, k, by_path, j) {
            Some(i) => j <= i < rows.len() && key_of(rows[i], by_path) == k && forall|m: int|
                j <= m < i ==> key_of(#[trigger] rows[m], by_path) != k,
            None => forall|m: int| j <= m < rows.len() ==> key_of(#[trigger] rows[m], by_path) != k,
        },
    decreases rows.len() - j,
{
    if j < rows.len() && key_of(rows[j], by_path) != k {
        lemma_index_from(rows, k, by_path, j + 1);
    }
}

/// Stores a workspace for a directory that the file system has described.
fn add_checked(table: &mut WorkspaceTable, path: &str, name: Option<String>, facts: Result<
    DirectoryFacts,
    AppError,
>) -> (r: Result<Workspace, AppError>)
    ensures
        add_outcome(old(table)@, final(table)@, add_result_view(r), path@, name.deep_view(), facts),
        keys_unique(final(table)@),
{
    proof {
        use_type_invariant(&*table);
    }
    let ghost nm = name.deep_view();
    let facts = match facts {
        Ok(f) => f,
        Err(e) => {
            return Err(e);
        },
    };
    if !facts.is_dir {
        let mut msg = "workspace path is not a directory: ".to_owned();
        msg.append(path);
        return Err(AppError::InvalidInput(msg));
    }
    let display = path_to_display_string(facts.canonical_path.as_str());
    let workspace_name = match clean_optional(name) {
        Some(value) => value,
        None => directory_name(crate::attention::copy_opt(&facts.file_name))?,
    };
    let ghost n = workspace_name@;
    assert(chosen_name(nm, facts.file_name.deep_view()) == Some(n));
    let now = now_rfc3339();
    let id = new_id();
    let git_root = match &facts.git_root {
        Some(g) => Some(path_to_display_string(g.as_str())),
        None => None,
    };
    let workspace = Workspace {
        id,
        name: workspace_name,
        path: display,
        git_root,
        default_ai_engine: "codex".to_owned(),
        created_at: now.clone(),
        updated_at: now,
    };
    let ghost w = workspace@;
    assert(w == new_workspace(w.id, n, facts.canonical_path@, facts.git_root.deep_view(), w.created_at));
    let ghost before = table@;
    let saved_path = workspace.path.clone();
    proof {
        lemma_index_from(before, w.path, true, 0);
        lemma_index_from(before, w.id, false, 0);
    }
    match table.index_of(workspace.path.as_str(), true) {
        Some(i) => {
            let mut rows: Vec<Workspace> = Vec::new();
            std::mem::swap(&mut rows, &mut table.rows);
            let mut row = rows.remove(i);
            row.name = workspace.name;
            row.git_root = workspace.git_root;
            row.default_ai_engine = workspace.default_ai_engine;
            row.updated_at = workspace.updated_at;
            let ghost rv = row@;
            rows.insert(i, row);
            let ghost after = before.update(i as int, rv);
            assert(workspace_views(rows@) =~= after);
            assert(keys_unique(after)) by {
                assert forall|a: int, b: int|
                    0 <= a < after.len() && 0 <= b < after.len() && a != b implies (
                    #[trigger] after[a]).id != (#[trigger] after[b]).id && after[a].path
                    != after[b].path by {
                    assert(after[a].id == before[a].id && after[a].path == before[a].path);
                    assert(after[b].id == before[b].id && after[b].path == before[b].path);
                }
            }
            table.rows = rows;
            assert(table@ == upsert_rows(before, w));
            proof {
                lemma_index_from(table@, w.path, true, 0);
                assert(key_of(table@[i as int], true) == w.path);
            }
        },
        None => {
            if table.index_of(workspace.id.as_str(), false).is_some() {
                return Err(
                    AppError::Database("UNIQUE constraint failed: workspaces.id".to_owned()),
                );
            }
            let mut rows: Vec<Workspace> = Vec::new();
            std::mem::swap(&mut rows, &mut table.rows);
            rows.push(workspace);
            let ghost after = before.push(w);
            assert(workspace_views(rows@) =~= after);
            assert(keys_unique(after)) by {
                assert forall|a: int, b: int|
                    0 <= a < after.len() && 0 <= b < after.len() && a != b implies (
                    #[trigger] after[a]).id != (#[trigger] after[b]).id && after[a].path
                    != after[b].path by {
                    if a == before.len() {
                        assert(after[b] == before[b]);
                        assert(key_of(before[b], true) != w.path);
                        assert(key_of(before[b], false) != w.id);
                    } else if b == before.len() {
                        assert(after[a] == before[a]);
                        assert(key_of(before[a], true) != w.path);
                        assert(key_of(before[a], false) != w.id);
                    } else {
                        assert(after[a] == before[a] && after[b] == before[b]);
                    }
                }
            }
            table.rows = rows;
            assert(table@ == after);
            proof {
                lemma_index_from(table@, w.path, true, 0);
                assert(key_of(table@[before.len() as int], true) == w.path);
            }
        },
    }
    match find_workspace_by_path(table, saved_path.as_str()) {
        Ok(Some(saved)) => Ok(saved),
        _ => Err(AppError::Database("workspace was not saved".to_owned())),
    }
}

/// Adds the directory `path` as a workspace, or updates the workspace that
/// already has its canonical path. `inspect` answers for the file system,
/// given the trimmed path. The name is the given one (trimmed) or else the
/// directory's own; the engine is `codex`; the identifier is fresh and both
/// times are now (an update keeps the stored identifier and creation time).
pub fn add_workspace<F>(table: &mut WorkspaceTable, path: String, name: Option<String>, inspect: F) -> (r:
    Result<Workspace, AppError>)
    where
        F: FnOnce(String) -> Result<DirectoryFacts, AppError>,
    requires
        forall|p: String| inspect.requires((p,)),
    ensures
        blank(path@) ==> {
            &&& r matches Err(AppError::InvalidInput(m)) && m@ == "workspace path cannot be empty"@
            &&& final(table)@ == old(table)@
        },
        !blank(path@) ==> exists|p: String, facts: Result<DirectoryFacts, AppError>|
            {
                &&& p@ == trim_seq(path@)
                &&& #[trigger] inspect.ensures((p,), facts)
                &&& add_outcome(
                    old(table)@,
                    final(table)@,
                    add_result_view(r),
                    p@,
                    name.deep_view(),
                    facts,
                )
            },
        keys_unique(final(table)@),
{
    proof {
        use_type_invariant(&*table);
    }
    let workspace_path = validate_workspace_path(path.as_str())?;
    let shown = workspace_path.clone();
    let ghost p = workspace_path;
    let facts = inspect(workspace_path);
    let ghost fr = facts;
    let r = add_checked(table, shown.as_str(), name, facts);
    assert(inspect.ensures((p,), fr));
    r
}

/// No two rows share a path.
pub open spec fn paths_unique(rows: Seq<WorkspaceView>) -> bool {
    forall|i: int, j: int|
        0 <= i < rows.len() && 0 <= j < rows.len() && i != j ==> (#[trigger] rows[i]).path
            != (#[trigger] rows[j]).path
}

/// Storing a workspace keeps paths unique: adding a directory that is
/// already a workspace updates that workspace instead of adding a second.
pub proof fn law_upsert_keeps_paths_unique(rows: Seq<WorkspaceView>, w: WorkspaceView)
    requires
        paths_unique(rows),
    ensures
        paths_unique(upsert_rows(rows, w)),
        index_from(rows, w.path, true, 0) is Some ==> upsert_rows(rows, w).len() == rows.len(),
        index_from(rows, w.path, true, 0) is None ==> upsert_rows(rows, w).len() == rows.len() + 1,
{
    lemma_index_from(rows, w.path, true, 0);
    let after = upsert_rows(rows, w);
    assert forall|i: int, j: int|
        0 <= i < after.len() && 0 <= j < after.len() && i != j implies (#[trigger] after[i]).path
        != (#[trigger] after[j]).path by {
        match index_from(rows, w.path, true, 0) {
            Some(p) => {
                assert(after[i].path == rows[i].path);
                assert(after[j].path == rows[j].path);
            },
            None => {
                if i < rows.len() && j < rows.len() {
                } else if i < rows.len() {
                    assert(key_of(rows[i], true) != w.path);
                } else {
                    assert(key_of(rows[j], true) != w.path);
                }
            },
        }
    }
}

/// The stored row for a path is the one that storing a workspace at that
/// path made or updated: its name, Git root, engine and update time are the
/// new workspace's.
pub proof fn law_upsert_then_find(rows: Seq<WorkspaceView>, w: WorkspaceView)
    ensures
        row_with_path(upsert_rows(rows, w), w.path) matches Some(s) && s.name == w.name
            && s.git_root == w.git_root && s.default_ai_engine == w.default_ai_engine
            && s.updated_at == w.updated_at && s.path == w.path,
{
    lemma_index_from(rows, w.path, true, 0);
    let after = upsert_rows(rows, w);
    lemma_index_from(after, w.path, true, 0);
    match index_from(rows, w.path, true, 0) {
        Some(p) => {
            assert(key_of(after[p], true) == w.path);
        },
        None => {
            assert(key_of(after[rows.len() as int], true) == w.path);
        },
    }
}

/// Adding a directory that is already a workspace keeps that workspace:
/// the stored row for the path keeps its identifier and creation time.
pub proof fn law_readd_keeps_identity(rows: Seq<WorkspaceView>, w: WorkspaceView)
    requires
        row_with_path(rows, w.path) is Some,
    ensures
        row_with_path(upsert_rows(rows, w), w.path) matches Some(s) && s.id == row_with_path(
            rows,
            w.path,
        )->0.id && s.created_at == row_with_path(rows, w.path)->0.created_at,
{
    lemma_index_from(rows, w.path, true, 0);
    let after = upsert_rows(rows, w);
    lemma_index_from(after, w.path, true, 0);
    let p = index_from(rows, w.path, true, 0)->0;
    assert(key_of(after[p], true) == w.path);
    assert forall|m: int| 0 <= m < p implies key_of(#[trigger] after[m], true) != w.path by {
        assert(after[m] == rows[m]);
    }
    assert(index_from(after, w.path, true, 0) == Some(p)) by {
        match index_from(after, w.path, true, 0) {
            Some(q) => {
                if q < p {
                    assert(key_of(after[q], true) != w.path);
                } else if q > p {
                    assert(key_of(after[p], true) != w.path);
                }
            },
            None => {
                assert(key_of(after[p], true) != w.path);
            },
        }
    }
}

/// Adding a directory that is already a workspace updates that workspace:
/// the result keeps its identifier and creation time, the table keeps its
/// length and its unique paths and identifiers, and the result is the one
/// workspace with that path.
pub proof fn law_readd_updates_the_workspace(
    before: Seq<WorkspaceView>,
    after: Seq<WorkspaceView>,
    w2: WorkspaceView,
    path: Seq<char>,
    name: Option<Seq<char>>,
    facts: Result<DirectoryFacts, AppError>,
)
    requires
        keys_unique(before),
        add_outcome(before, after, Ok(w2), path, name, facts),
        row_with_path(before, w2.path) is Some,
    ensures
        w2.id == row_with_path(before, w2.path)->0.id,
        w2.created_at == row_with_path(before, w2.path)->0.created_at,
        w2.name == chosen_name(name, facts->Ok_0.file_name.deep_view())->0,
        after.len() == before.len(),
        keys_unique(after),
        forall|k: int| 0 <= k < after.len() && (#[trigger] after[k]).path == w2.path ==> after[k] == w2,
{
    let f = facts->Ok_0;
    let n = chosen_name(name, f.file_name.deep_view())->0;
    let (id, now) = choose|id: Seq<char>, now: Seq<char>|
        {
            let w = #[trigger] new_workspace(id, n, f.canonical_path@, f.git_root.deep_view(), now);
            &&& uuid_v4_text(id)
            &&& utc_stamp(now)
            &&& if index_from(before, w.path, true, 0) is None && index_from(
                before,
                id,
                false,
                0,
            ) is Some {
                Ok::<WorkspaceView, ()>(w2) is Err && after == before
            } else {
                &&& after == upsert_rows(before, w)
                &&& Ok::<WorkspaceView, ()>(w2) == Ok::<WorkspaceView, ()>(
                    row_with_path(after, w.path)->0,
                )
            }
        };
    let w = new_workspace(id, n, f.canonical_path@, f.git_root.deep_view(), now);
    assert(after == upsert_rows(before, w));
    law_upsert_then_find(before, w);
    lemma_index_from(after, w.path, true, 0);
    let p = index_from(after, w.path, true, 0)->0;
    assert(w2 == after[p]);
    assert(w2.path == w.path);
    law_readd_keeps_identity(before, w);
    law_upsert_keeps_paths_unique(before, w);
    lemma_index_from(before, w.path, true, 0);
    let q = index_from(before, w.path, true, 0)->0;
    assert(after == before.update(q, WorkspaceView {
        name: w.name,
        git_root: w.git_root,
        default_ai_engine: w.default_ai_engine,
        updated_at: w.updated_at,
        ..before[q]
    }));
    assert(workspace_ids_unique(after)) by {
        assert forall|a: int, b: int|
            0 <= a < after.len() && 0 <= b < after.len() && a != b implies (#[trigger] after[a]).id
            != (#[trigger] after[b]).id by {
            assert(after[a].id == before[a].id && after[b].id == before[b].id);
        }
    }
    assert forall|k: int| 0 <= k < after.len() && (#[trigger] after[k]).path == w2.path implies after[k]
        == w2 by {
        if k != p {
            assert(after[k].path != after[p].path);
        }
    }
    assert(after[q].path == w2.path);
    assert(after[q].name == n);
}

/// What a successful add gives back is the stored row for its path, and the
/// add keeps the table's paths and identifiers unique.
proof fn lemma_add_result_is_stored(
    before: Seq<WorkspaceView>,
    after: Seq<WorkspaceView>,
    w1: WorkspaceView,
    path: Seq<char>,
    name: Option<Seq<char>>,
    facts: Result<DirectoryFacts, AppError>,
)
    requires
        keys_unique(before),
        add_outcome(before, after, Ok(w1), path, name, facts),
    ensures
        row_with_path(after, w1.path) == Some(w1),
        keys_unique(after),
{
    let f = facts->Ok_0;
    let n = chosen_name(name, f.file_name.deep_view())->0;
    let (id, now) = choose|id: Seq<char>, now: Seq<char>|
        {
            let w = #[trigger] new_workspace(id, n, f.canonical_path@, f.git_root.deep_view(), now);
            &&& uuid_v4_text(id)
            &&& utc_stamp(now)
            &&& if index_from(before, w.path, true, 0) is None && index_from(
                before,
                id,
                false,
                0,
            ) is Some {
                Ok::<WorkspaceView, ()>(w1) is Err && after == before
            } else {
                &&& after == upsert_rows(before, w)
                &&& Ok::<WorkspaceView, ()>(w1) == Ok::<WorkspaceView, ()>(
                    row_with_path(after, w.path)->0,
                )
            }
        };
    let w = new_workspace(id, n, f.canonical_path@, f.git_root.deep_view(), now);
    law_upsert_then_find(before, w);
    lemma_index_from(after, w.path, true, 0);
    let p = index_from(after, w.path, true, 0)->0;
    assert(w1 == after[p] && w1.path == w.path);
    law_upsert_keeps_paths_unique(before, w);
    lemma_index_from(before, w.path, true, 0);
    lemma_index_from(before, w.id, false, 0);
    assert(workspace_ids_unique(after)) by {
        match index_from(before, w.path, true, 0) {
            Some(q) => {
                assert forall|a: int, b: int|
                    0 <= a < after.len() && 0 <= b < after.len() && a != b implies (
                    #[trigger] after[a]).id != (#[trigger] after[b]).id by {
                    assert(after[a].id == before[a].id && after[b].id == before[b].id);
                }
            },
            None => {
                assert forall|a: int, b: int|
                    0 <= a < after.len() && 0 <= b < after.len() && a != b implies (
                    #[trigger] after[a]).id != (#[trigger] after[b]).id by {
                    if a == before.len() {
                        assert(key_of(before[b], false) != w.id);
                    } else if b == before.len() {
                        assert(key_of(before[a], false) != w.id);
                    } else {
                        assert(after[a] == before[a] && after[b] == before[b]);
                    }
                }
            },
        }
    }
}

/// Adding the same directory twice keeps one workspace: when a second add
/// gives back a workspace with the path of the first, it has the first's
/// identifier and creation time and the name of the second request, and the
/// table still holds exactly one workspace with that path.
pub proof fn law_add_same_directory_twice(
    t0: Seq<WorkspaceView>,
    t1: Seq<WorkspaceView>,
    t2: Seq<WorkspaceView>,
    w1: WorkspaceView,
    w2: WorkspaceView,
    path1: Seq<char>,
    name1: Option<Seq<char>>,
    facts1: Result<DirectoryFacts, AppError>,
    path2: Seq<char>,
    name2: Option<Seq<char>>,
    facts2: Result<DirectoryFacts, AppError>,
)
    requires
        keys_unique(t0),
        add_outcome(t0, t1, Ok(w1), path1, name1, facts1),
        add_outcome(t1, t2, Ok(w2), path2, name2, facts2),
        w2.path == w1.path,
    ensures
        w2.id == w1.id,
        w2.created_at == w1.created_at,
        w2.name == chosen_name(name2, facts2->Ok_0.file_name.deep_view())->0,
        t2.len() == t1.len(),
        keys_unique(t2),
        forall|k: int| 0 <= k < t2.len() && (#[trigger] t2[k]).path == w2.path ==> t2[k] == w2,
{
    lemma_add_result_is_stored(t0, t1, w1, path1, name1, facts1);
    law_readd_updates_the_workspace(t1, t2, w2, path2, name2, facts2);
}

/// A removed workspace is gone: no row with its identifier is left.
pub proof fn law_removed_workspace_is_gone(rows: Seq<WorkspaceView>, id: Seq<char>)
    ensures
        row_with_id(remove_rows(rows, id), id) is None,
{
    let after = remove_rows(rows, id);
    let pred = |w: WorkspaceView| w.id != id;
    rows.filter_lemma(pred);
    lemma_index_from(after, id, false, 0);
    assert forall|m: int| 0 <= m < after.len() implies key_of(#[trigger] after[m], false) != id by {
        assert(pred(after[m]));
    }
}

} // verus!
