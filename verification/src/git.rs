//! Git status: reading the porcelain output of `git status`, and telling
//! unmerged files apart.
use vstd::prelude::*;
use crate::attention::{
    create_attention_item, create_outcome, create_result_view, in_active_queue, AttentionItemView,
    AttentionTable, CreateAttentionItem, CreateAttentionItemView,
};
use crate::error::AppError;
use crate::workspace::{find_workspace_by_id, row_with_id, WorkspaceTable, WorkspaceView};
use crate::text::{
    chars_of, find_first, find_last, is_ascii_char, lines, lines_seq, parse_i64, parse_i64_seq,
    rsplit_once, single_char, split_char, split_on, split_once, starts_with_seq, strip_prefix, trim,
    trim_seq, utf8_len, blank, contains_char, trimmed, is_ws, occurs_at, find_from,
    trim_start_seq, trim_end_seq, nat_decimal, lemma_split_char_without, lemma_split_char_once,
    lemma_lines_single, lemma_nat_decimal_digits, lemma_parse_nat_decimal, lemma_find_from_first,
};

verus! {

/// One changed file, with the two status letters that Git gives it.
#[derive(Debug, Clone, PartialEq, Eq)]
pub struct GitFileStatus {
    pub path: String,
    pub index_status: String,
    pub worktree_status: String,
}

/// The state of a Git working tree.
#[derive(Debug, Clone, PartialEq, Eq)]
pub struct GitStatus {
    pub available: bool,
    pub branch: Option<String>,
    pub ahead: i64,
    pub behind: i64,
    pub files: Vec<GitFileStatus>,
    pub error: Option<String>,
}

/// The text of a diff, for one path or for the whole tree.
#[derive(Debug, Clone, PartialEq, Eq)]
pub struct GitDiff {
    pub path: Option<String>,
    pub text: String,
}

/// A changed file as plain values.
pub struct GitFileStatusView {
    pub path: Seq<char>,
    pub index_status: Seq<char>,
    pub worktree_status: Seq<char>,
}

/// The state of a working tree as plain values.
pub struct GitStatusView {
    pub available: bool,
    pub branch: Option<Seq<char>>,
    pub ahead: i64,
    pub behind: i64,
    pub files: Seq<GitFileStatusView>,
    pub error: Option<Seq<char>>,
}

impl View for GitFileStatus {
    type V = GitFileStatusView;

    open spec fn view(&self) -> GitFileStatusView {
        GitFileStatusView {
            path: self.path@,
            index_status: self.index_status@,
            worktree_status: self.worktree_status@,
        }
    }
}

impl View for GitStatus {
    type V = GitStatusView;

    open spec fn view(&self) -> GitStatusView {
        GitStatusView {
            available: self.available,
            branch: self.branch.deep_view(),
            ahead: self.ahead,
            behind: self.behind,
            files: self.files@.map_values(|f: GitFileStatus| f@),
            error: self.error.deep_view(),
        }
    }
}

/// The status that a parse starts from: available, on no branch, in step
/// with its upstream, and with no changed files.
pub open spec fn empty_status() -> GitStatusView {
    GitStatusView {
        available: true,
        branch: None,
        ahead: 0,
        behind: 0,
        files: Seq::empty(),
        error: None,
    }
}

/// A pair of status letters that marks an unmerged file.
pub open spec fn unmerged_pair(x: Seq<char>, y: Seq<char>) -> bool {
    x.len() == 1 && y.len() == 1 && {
        let (a, b) = (x[0], y[0]);
        ||| (a == 'D' && b == 'D')
        ||| (a == 'A' && b == 'U')
        ||| (a == 'U' && b == 'D')
        ||| (a == 'U' && b == 'A')
        ||| (a == 'D' && b == 'U')
        ||| (a == 'A' && b == 'A')
        ||| (a == 'U' && b == 'U')
    }
}

/// Some file of `files` is unmerged.
pub open spec fn has_unmerged(files: Seq<GitFileStatusView>) -> bool {
    exists|i: int| 0 <= i < files.len() && unmerged_pair(files[i].index_status, files[i].worktree_status)
}

/// `s` without every trailing `c`.
pub open spec fn trim_end_char(s: Seq<char>, c: char) -> Seq<char>
    decreases s.len(),
{
    if s.len() > 0 && s.last() == c {
        trim_end_char(s.drop_last(), c)
    } else {
        s
    }
}

/// The branch that the branch part of a header names: what comes before
/// `...`, trimmed, without the note that the branch has no commits yet.
pub open spec fn branch_name_of(part: Seq<char>) -> Option<Seq<char>> {
    let b0 = match find_first(part, "..."@) {
        Some(i) => part.subrange(0, i),
        None => part,
    };
    let b1 = trim_seq(b0);
    let b2 = if starts_with_seq(b1, "No commits yet on "@) {
        b1.subrange("No commits yet on "@.len() as int, b1.len() as int)
    } else {
        b1
    };
    let b3 = trim_seq(b2);
    if b3.len() == 0 {
        None
    } else {
        Some(b3)
    }
}

/// The effect of one comma-separated part of the header's bracket.
pub open spec fn apply_tracking_part(st: GitStatusView, part: Seq<char>) -> GitStatusView {
    let p = trim_seq(part);
    let st1 = if starts_with_seq(p, "ahead "@) {
        GitStatusView {
            ahead: match parse_i64_seq(p.subrange("ahead "@.len() as int, p.len() as int)) {
                Some(n) => n,
                None => 0,
            },
            ..st
        }
    } else {
        st
    };
    if starts_with_seq(p, "behind "@) {
        GitStatusView {
            behind: match parse_i64_seq(p.subrange("behind "@.len() as int, p.len() as int)) {
                Some(n) => n,
                None => 0,
            },
            ..st1
        }
    } else {
        st1
    }
}

/// `apply_tracking_part` as a function value.
pub open spec fn tracking_step() -> spec_fn(GitStatusView, Seq<char>) -> GitStatusView {
    |acc: GitStatusView, part: Seq<char>| apply_tracking_part(acc, part)
}

/// The effect of a branch header (the text after `## `).
pub open spec fn apply_branch_header(st: GitStatusView, header: Seq<char>) -> GitStatusView {
    match find_first(header, " ["@) {
        Some(i) => {
            let st1 = GitStatusView {
                branch: branch_name_of(header.subrange(0, i)),
                ..st
            };
            let tracking = trim_end_char(
                header.subrange(i + " ["@.len(), header.len() as int),
                ']',
            );
            split_char(tracking, ',').fold_left(st1, tracking_step())
        },
        None => GitStatusView { branch: branch_name_of(header), ..st },
    }
}

/// The first three characters of `line` are ASCII.
pub open spec fn ascii_lead(line: Seq<char>) -> bool {
    line.len() >= 3 && is_ascii_char(line[0]) && is_ascii_char(line[1]) && is_ascii_char(line[2])
}

/// The path of a file line: what follows the status letters, trimmed, and
/// for a rename the name after the last ` -> `.
pub open spec fn file_line_path(line: Seq<char>) -> Seq<char> {
    let p0 = trim_seq(line.subrange(3, line.len() as int));
    match find_last(p0, " -> "@) {
        Some(i) => p0.subrange(i + " -> "@.len(), p0.len() as int),
        None => p0,
    }
}

/// The effect of one line of porcelain output.
pub open spec fn apply_status_line(st: GitStatusView, line: Seq<char>) -> GitStatusView {
    if starts_with_seq(line, "## "@) {
        apply_branch_header(st, line.subrange("## "@.len() as int, line.len() as int))
    } else if utf8_len(line) < 4 {
        st
    } else if file_line_path(line).len() == 0 {
        st
    } else {
        GitStatusView {
            files: st.files.push(
                GitFileStatusView {
                    path: file_line_path(line),
                    index_status: line.subrange(0, 1),
                    worktree_status: line.subrange(1, 2),
                },
            ),
            ..st
        }
    }
}

/// `apply_status_line` as a function value.
pub open spec fn line_step() -> spec_fn(GitStatusView, Seq<char>) -> GitStatusView {
    |st: GitStatusView, line: Seq<char>| apply_status_line(st, line)
}

/// The status that `git status --porcelain=v1 --branch` output describes.
pub open spec fn status_of_output(output: Seq<char>) -> GitStatusView {
    lines_seq(output).fold_left(empty_status(), line_step())
}

/// A line that the reader can take: a branch header, a line too short to
/// name a file, or a file line whose status letters and separator are ASCII
/// (the reader cuts a file line at byte offsets 1, 2 and 3).
pub open spec fn readable_status_line(line: Seq<char>) -> bool {
    starts_with_seq(line, "## "@) || utf8_len(line) < 4 || ascii_lead(line)
}

/// Every line of `output` can be read.
pub open spec fn readable_status_output(output: Seq<char>) -> bool {
    forall|k: int|
        0 <= k < lines_seq(output).len() ==> readable_status_line(#[trigger] lines_seq(output)[k])
}

/// The status of a tree that cannot be read, with the reason.
pub open spec fn unavailable_status(error: Seq<char>) -> GitStatusView {
    GitStatusView {
        available: false,
        branch: None,
        ahead: 0,
        behind: 0,
        files: Seq::empty(),
        error: Some(error),
    }
}

proof fn lemma_utf8_len_at_least_len(s: Seq<char>)
    ensures
        utf8_len(s) >= s.len(),
    decreases s.len(),
{
    if s.len() > 0 {
        lemma_utf8_len_at_least_len(s.drop_last());
    }
}

proof fn lemma_utf8_len_ascii3(s: Seq<char>)
    requires
        s.len() == 3,
        ascii_lead(s),
    ensures
        utf8_len(s) == 3,
{
    let s2 = s.drop_last();
    let s1 = s2.drop_last();
    let s0 = s1.drop_last();
    assert(s0.len() == 0);
    assert(utf8_len(s0) == 0);
    assert(s1.last() == s[0]);
    assert(utf8_len(s1) == 1);
    assert(s2.last() == s[1]);
    assert(utf8_len(s2) == 2);
    assert(s.last() == s[2]);
}

impl GitStatus {
    /// The status of a tree that cannot be read, with the reason.
    pub fn unavailable(error: &str) -> (r: GitStatus)
        ensures
            r@ == unavailable_status(error@),
    {
        let r = GitStatus {
            available: false,
            branch: None,
            ahead: 0,
            behind: 0,
            files: Vec::new(),
            error: Some(error.to_owned()),
        };
        assert(r@.files =~= Seq::<GitFileStatusView>::empty());
        r
    }

    /// Whether some file is unmerged (a conflict that stops normal work).
    pub fn has_unmerged_files(&self) -> (r: bool)
        ensures
            r == has_unmerged(self@.files),
    {
        let mut i: usize = 0;
        while i < self.files.len()
            invariant
                i <= self.files.len(),
                forall|k: int|
                    0 <= k < i ==> !unmerged_pair(
                        #[trigger] self@.files[k].index_status,
                        self@.files[k].worktree_status,
                    ),
            decreases self.files.len() - i,
        {
            let f = &self.files[i];
            let pair = (single_char(f.index_status.as_str()), single_char(f.worktree_status.as_str()));
            let hit = match pair {
                (Some('D'), Some('D')) => true,
                (Some('A'), Some('U')) => true,
                (Some('U'), Some('D')) => true,
                (Some('U'), Some('A')) => true,
                (Some('D'), Some('U')) => true,
                (Some('A'), Some('A')) => true,
                (Some('U'), Some('U')) => true,
                _ => false,
            };
            assert(self@.files[i as int] == f@);
            if hit {
                return true;
            }
            i = i + 1;
        }
        false
    }
}

/// `s` without every trailing `c`, as `str::trim_end_matches` gives it.
fn trim_end_matches_char<'a>(s: &'a str, c: char) -> (r: &'a str)
    ensures
        r@ == trim_end_char(s@, c),
{
    let v = chars_of(s);
    let mut j: usize = v.len();
    assert(v@.subrange(0, j as int) =~= v@);
    while j > 0 && v[j - 1] == c
        invariant
            j <= v.len(),
            v@ == s@,
            trim_end_char(s@, c) == trim_end_char(v@.subrange(0, j as int), c),
        decreases j,
    {
        assert(v@.subrange(0, j as int).drop_last() =~= v@.subrange(0, j - 1));
        j = j - 1;
    }
    proof {
        if j > 0 {
            assert(v@.subrange(0, j as int).last() == v@[j - 1]);
        }
    }
    s.substring_char(0, j)
}

/// The branch that the branch part of a header names.
fn parse_branch_name(branch_part: &str) -> (r: Option<String>)
    ensures
        r.deep_view() == branch_name_of(branch_part@),
{
    let branch = match split_once(branch_part, "...") {
        Some((b, _)) => b,
        None => branch_part,
    };
    let branch = trim(branch);
    let branch = match strip_prefix(branch, "No commits yet on ") {
        Some(rest) => rest,
        None => branch,
    };
    let branch = trim(branch);
    if branch.is_empty() {
        None
    } else {
        Some(branch.to_owned())
    }
}

/// Applies one part of the header's bracket (`ahead N` or `behind N`).
fn apply_tracking(part: &str, status: &mut GitStatus)
    ensures
        final(status)@ == apply_tracking_part(old(status)@, part@),
{
    let p = trim(part);
    if let Some(value) = strip_prefix(p, "ahead ") {
        status.ahead = match parse_i64(value) {
            Some(n) => n,
            None => 0,
        };
    }
    if let Some(value) = strip_prefix(p, "behind ") {
        status.behind = match parse_i64(value) {
            Some(n) => n,
            None => 0,
        };
    }
}

/// Applies a branch header (the text after `## `) to `status`.
fn parse_branch_header(header: &str, status: &mut GitStatus)
    ensures
        final(status)@ == apply_branch_header(old(status)@, header@),
{
    match split_once(header, " [") {
        Some((branch_part, rest)) => {
            let tracking = trim_end_matches_char(rest, ']');
            status.branch = parse_branch_name(branch_part);
            let ghost st1 = status@;
            let parts = split_on(tracking, ',');
            let ghost f = tracking_step();
            let ghost ps = split_char(tracking@, ',');
            let mut k: usize = 0;
            assert(ps.take(0) =~= Seq::<Seq<char>>::empty());
            while k < parts.len()
                invariant
                    k <= parts.len(),
                    parts.len() == ps.len(),
                    forall|m: int| 0 <= m < parts.len() ==> (#[trigger] parts@[m])@ == ps[m],
                    f == tracking_step(),
                    status@ == ps.take(k as int).fold_left(st1, f),
                decreases parts.len() - k,
            {
                let ghost before = status@;
                assert(parts@[k as int]@ == ps[k as int]);
                apply_tracking(parts[k], status);
                assert(status@ == apply_tracking_part(before, ps[k as int]));
                assert(status@ == f(before, ps[k as int]));
                assert(ps.take(k + 1).drop_last() =~= ps.take(k as int));
                assert(ps.take(k + 1).last() == ps[k as int]);
                assert(ps.take(k + 1).fold_left(st1, f) == f(ps.take(k as int).fold_left(st1, f), ps[k as int]));
                k = k + 1;
            }
            assert(ps.take(ps.len() as int) =~= ps);
        },
        None => {
            status.branch = parse_branch_name(header);
        },
    }
}

/// Applies one line of porcelain output to `status`.
fn apply_line(line: &str, status: &mut GitStatus)
    requires
        readable_status_line(line@),
    ensures
        final(status)@ == apply_status_line(old(status)@, line@),
{
    if let Some(header) = strip_prefix(line, "## ") {
        parse_branch_header(header, status);
        return;
    }
    let v = chars_of(line);
    if v.len() < 4 || !((v[0] as u32) < 128 && (v[1] as u32) < 128 && (v[2] as u32) < 128) {
        proof {
            if v.len() >= 3 && ascii_lead(line@) {
                assert(v.len() == 3);
                lemma_utf8_len_ascii3(line@);
            }
        }
        return;
    }
    proof {
        lemma_utf8_len_at_least_len(line@);
    }
    let index_status = line.substring_char(0, 1).to_owned();
    let worktree_status = line.substring_char(1, 2).to_owned();
    let rest = trim(line.substring_char(3, v.len()));
    let path = match rsplit_once(rest, " -> ") {
        Some((_, renamed)) => renamed,
        None => rest,
    };
    if !path.is_empty() {
        let ghost before = status@;
        status.files.push(
            GitFileStatus {
                path: path.to_owned(),
                index_status,
                worktree_status,
            },
        );
        assert(status@.files =~= before.files.push(
            GitFileStatusView {
                path: file_line_path(line@),
                index_status: line@.subrange(0, 1),
                worktree_status: line@.subrange(1, 2),
            },
        ));
    }
}

/// Whether every line of `output` can be read (see `readable_status_line`).
pub fn status_output_is_readable(output: &str) -> (r: bool)
    ensures
        r == readable_status_output(output@),
{
    let all = lines(output);
    let mut k: usize = 0;
    while k < all.len()
        invariant
            k <= all.len(),
            all.len() == lines_seq(output@).len(),
            forall|m: int| 0 <= m < all.len() ==> (#[trigger] all@[m])@ == lines_seq(output@)[m],
            forall|m: int| 0 <= m < k ==> readable_status_line(#[trigger] lines_seq(output@)[m]),
        decreases all.len() - k,
    {
        let line = all[k];
        assert(line@ == lines_seq(output@)[k as int]);
        if strip_prefix(line, "## ").is_none() {
            let v = chars_of(line);
            let lead = v.len() >= 3 && (v[0] as u32) < 128 && (v[1] as u32) < 128 && (v[2] as u32)
                < 128;
            if !lead && utf8_len_at_least_4(&v) {
                return false;
            }
        }
        k = k + 1;
    }
    true
}

/// Whether `v` takes four or more bytes in UTF-8.
fn utf8_len_at_least_4(v: &Vec<char>) -> (r: bool)
    ensures
        r == (utf8_len(v@) >= 4),
{
    let mut total: usize = 0;
    let mut i: usize = 0;
    assert(v@.take(0) =~= Seq::<char>::empty());
    while i < v.len()
        invariant
            i <= v.len(),
            total == utf8_len(v@.take(i as int)),
            total < 4,
        decreases v.len() - i,
    {
        let c = v[i] as u32;
        let w: usize = if c < 0x80 {
            1
        } else if c < 0x800 {
            2
        } else if c < 0x10000 {
            3
        } else {
            4
        };
        assert(v@.take(i + 1).drop_last() =~= v@.take(i as int));
        total = total + w;
        i = i + 1;
        if total >= 4 {
            proof {
                lemma_utf8_len_grows(v@, i as int, v@.len() as int);
                assert(v@.take(v@.len() as int) =~= v@);
            }
            return true;
        }
    }
    assert(v@.take(v@.len() as int) =~= v@);
    false
}

proof fn lemma_utf8_len_grows(s: Seq<char>, i: int, j: int)
    requires
        0 <= i <= j <= s.len(),
    ensures
        utf8_len(s.take(i)) <= utf8_len(s.take(j)),
    decreases j - i,
{
    if i < j {
        lemma_utf8_len_grows(s, i, j - 1);
        assert(s.take(j).drop_last() =~= s.take(j - 1));
    }
}

/// Reads the output of `git status --porcelain=v1 --branch`: the branch
/// header sets the branch and the counts ahead and behind, and each file
/// line adds a changed file.
pub fn parse_status_output(output: &str) -> (r: Result<GitStatus, AppError>)
    requires
        readable_status_output(output@),
    ensures
        r matches Ok(st) && st@ == status_of_output(output@),
{
    let mut status = GitStatus {
        available: true,
        branch: None,
        ahead: 0,
        behind: 0,
        files: Vec::new(),
        error: None,
    };
    let ghost ls = lines_seq(output@);
    let ghost f = line_step();
    assert(status@ == empty_status()) by {
        assert(status@.files =~= Seq::<GitFileStatusView>::empty());
    }
    let all = lines(output);
    let mut k: usize = 0;
    assert(ls.take(0) =~= Seq::<Seq<char>>::empty());
    while k < all.len()
        invariant
            k <= all.len(),
            all.len() == ls.len(),
            ls == lines_seq(output@),
            readable_status_output(output@),
            forall|m: int| 0 <= m < all.len() ==> (#[trigger] all@[m])@ == ls[m],
            f == line_step(),
            status@ == ls.take(k as int).fold_left(empty_status(), f),
        decreases all.len() - k,
    {
        assert(readable_status_line(ls[k as int]));
        let ghost before = status@;
        assert(all@[k as int]@ == ls[k as int]);
        apply_line(all[k], &mut status);
        assert(status@ == f(before, ls[k as int]));
        assert(ls.take(k + 1).drop_last() =~= ls.take(k as int));
        assert(ls.take(k + 1).last() == ls[k as int]);
        assert(ls.take(k + 1).fold_left(empty_status(), f) == f(ls.take(k as int).fold_left(empty_status(), f), ls[k as int]));
        k = k + 1;
    }
    assert(ls.take(ls.len() as int) =~= ls);
    Ok(status)
}

/// What a finished command reported: whether it succeeded, its exit status as
/// text, and what it wrote to standard output and standard error.
#[derive(Debug, Clone)]
pub struct CommandOutput {
    pub success: bool,
    pub status: String,
    pub stdout: String,
    pub stderr: String,
}

/// The message that a failed command leaves: its standard error, trimmed,
/// else its standard output, trimmed, else its exit status.
pub open spec fn output_message(o: CommandOutput) -> Seq<char> {
    if !blank(o.stderr@) {
        trim_seq(o.stderr@)
    } else if !blank(o.stdout@) {
        trim_seq(o.stdout@)
    } else {
        "git exited with status "@ + o.status@
    }
}

/// Why a path is refused for a Git command; nothing when it is accepted.
pub open spec fn path_error(path: Seq<char>) -> Option<Seq<char>> {
    if blank(path) {
        Some("git path cannot be empty"@)
    } else if trim_seq(path).contains('\0') {
        Some("git path cannot contain NUL bytes"@)
    } else {
        None
    }
}

/// The views of a list of command arguments.
pub open spec fn args_view(args: Vec<String>) -> Seq<Seq<char>> {
    args@.map_values(|a: String| a@)
}

/// The arguments of `git status` for the porcelain reader.
pub open spec fn status_args() -> Seq<Seq<char>> {
    seq!["status"@, "--porcelain=v1"@, "--branch"@]
}

/// The title of the item that a Git conflict raises.
pub open spec fn conflict_title() -> Seq<char> {
    "Git conflict requires attention"@
}

/// The request that raises the item for a Git conflict in `workspace_id`.
pub open spec fn conflict_input(workspace_id: Seq<char>) -> CreateAttentionItemView {
    CreateAttentionItemView {
        workspace_id: workspace_id,
        session_id: None,
        kind: "blocked"@,
        priority: 3,
        title: conflict_title(),
        summary: "Resolve unmerged files before continuing normal development work."@,
        action_label: Some("Open Git"@),
        action_ref: Some("git://conflicts"@),
    }
}

/// An active item of `workspace_id` already reports a Git conflict.
pub open spec fn conflict_reported(rows: Seq<AttentionItemView>, workspace_id: Seq<char>) -> bool {
    exists|i: int|
        0 <= i < rows.len() && in_active_queue(#[trigger] rows[i], Some(workspace_id))
            && rows[i].kind == "blocked"@ && rows[i].title == conflict_title()
}

/// What reporting a Git conflict does: nothing when no file is unmerged or
/// an active conflict item is already there; else it creates one.
pub open spec fn conflict_outcome(
    before: Seq<AttentionItemView>,
    after: Seq<AttentionItemView>,
    workspace_id: Seq<char>,
    status: GitStatusView,
    r: Result<(), Option<Seq<char>>>,
) -> bool {
    if !has_unmerged(status.files) || conflict_reported(before, workspace_id) {
        r is Ok && after == before
    } else {
        exists|c: Result<AttentionItemView, Option<Seq<char>>>|
            #[trigger] create_outcome(before, after, conflict_input(workspace_id), c) && r == match c {
                Ok(_) => Ok::<(), Option<Seq<char>>>(()),
                Err(e) => Err(e),
            }
    }
}

/// An error as plain values: the message of an input error, nothing for any
/// other error.
pub open spec fn error_view(e: AppError) -> Option<Seq<char>> {
    match e {
        AppError::InvalidInput(m) => Some(m@),
        _ => None,
    }
}

/// A unit result as plain values.
pub open spec fn unit_view(r: Result<(), AppError>) -> Result<(), Option<Seq<char>>> {
    match r {
        Ok(_) => Ok(()),
        Err(e) => Err(error_view(e)),
    }
}

/// The Git root of the workspace `workspace_id` (trimmed), or why there is
/// none.
pub open spec fn git_root_of(workspaces: Seq<WorkspaceView>, workspace_id: Seq<char>) -> Result<
    Seq<char>,
    Seq<char>,
> {
    match row_with_id(workspaces, trim_seq(workspace_id)) {
        None => Err("workspace not found"@),
        Some(w) => match w.git_root {
            None => Err("workspace is not a Git repository"@),
            Some(root) => Ok(root),
        },
    }
}

/// The result of a checked command: its own error, nothing on success, or
/// the message that a failure left.
pub open spec fn checked_result(out: Result<CommandOutput, AppError>, r: Result<(), AppError>) -> bool {
    match out {
        Err(e) => unit_view(r) == Err::<(), Option<Seq<char>>>(error_view(e)),
        Ok(o) => if o.success {
            r is Ok
        } else {
            r matches Err(AppError::CommandFailed(m)) && m@ == output_message(o)
        },
    }
}

/// The command that changes the index for `path` in the workspace
/// `workspace_id`: the Git root and the arguments (the fixed leading ones,
/// then the trimmed path), or why the request is refused.
pub open spec fn index_plan(
    workspaces: Seq<WorkspaceView>,
    workspace_id: Seq<char>,
    path: Seq<char>,
    lead: Seq<Seq<char>>,
) -> Result<(Seq<char>, Seq<Seq<char>>), Seq<char>> {
    match git_root_of(workspaces, workspace_id) {
        Err(m) => Err(m),
        Ok(root) => match path_error(path) {
            Some(m) => Err(m),
            None => Ok((root, lead.push(trim_seq(path)))),
        },
    }
}

/// What a command that changes the index does, given the workspace, the
/// path and the fixed leading arguments.
pub open spec fn index_command_outcome<F: FnOnce(String, Vec<String>) -> Result<CommandOutput, AppError>>(
    workspaces: Seq<WorkspaceView>,
    workspace_id: Seq<char>,
    path: Seq<char>,
    lead: Seq<Seq<char>>,
    run_git: F,
    r: Result<(), AppError>,
) -> bool {
    match git_root_of(workspaces, workspace_id) {
        Err(m) => r matches Err(AppError::InvalidInput(x)) && x@ == m,
        Ok(root) => match path_error(path) {
            Some(m) => r matches Err(AppError::InvalidInput(x)) && x@ == m,
            None => exists|root_s: String, args: Vec<String>, out: Result<CommandOutput, AppError>|
                {
                    &&& root_s@ == root
                    &&& args_view(args) == lead.push(trim_seq(path))
                    &&& #[trigger] run_git.ensures((root_s, args), out)
                    &&& checked_result(out, r)
                },
        },
    }
}

/// The message that a failed command leaves.
fn command_output_message(output: &CommandOutput) -> (r: String)
    ensures
        r@ == output_message(*output),
{
    let stderr = trimmed(output.stderr.as_str());
    if !stderr.as_str().is_empty() {
        return stderr;
    }
    let stdout = trimmed(output.stdout.as_str());
    if !stdout.as_str().is_empty() {
        return stdout;
    }
    let mut msg = "git exited with status ".to_owned();
    msg.append(output.status.as_str());
    msg
}

/// A path for a Git command, trimmed; a blank path, or one with a NUL
/// character, is refused.
fn validate_path(path: String) -> (r: Result<String, AppError>)
    ensures
        match path_error(path@) {
            Some(m) => r matches Err(AppError::InvalidInput(x)) && x@ == m,
            None => r matches Ok(p) && p@ == trim_seq(path@),
        },
{
    let path = trimmed(path.as_str());
    if path.as_str().is_empty() {
        return Err(AppError::InvalidInput("git path cannot be empty".to_owned()));
    }
    if contains_char(path.as_str(), '\0') {
        return Err(AppError::InvalidInput("git path cannot contain NUL bytes".to_owned()));
    }
    Ok(path)
}

/// An optional path for a Git command, checked when it is there.
fn clean_optional_path(path: Option<String>) -> (r: Result<Option<String>, AppError>)
    ensures
        match path.deep_view() {
            None => r matches Ok(p) && p is None,
            Some(raw) => match path_error(raw) {
                Some(m) => r matches Err(AppError::InvalidInput(x)) && x@ == m,
                None => r matches Ok(Some(p)) && p@ == trim_seq(raw),
            },
        },
{
    match path {
        Some(p) => match validate_path(p) {
            Ok(v) => Ok(Some(v)),
            Err(e) => Err(e),
        },
        None => Ok(None),
    }
}

/// The Git root of the workspace `workspace_id` (trimmed): refused when
/// there is no such workspace or it is not a Git repository.
fn git_root_for_workspace(workspaces: &WorkspaceTable, workspace_id: &str) -> (r: Result<
    String,
    AppError,
>)
    ensures
        match row_with_id(workspaces@, trim_seq(workspace_id@)) {
            None => r matches Err(AppError::InvalidInput(m)) && m@ == "workspace not found"@,
            Some(w) => match w.git_root {
                None => r matches Err(AppError::InvalidInput(m)) && m@
                    == "workspace is not a Git repository"@,
                Some(root) => r matches Ok(x) && x@ == root,
            },
        },
{
    let found = match find_workspace_by_id(workspaces, trim(workspace_id)) {
        Ok(f) => f,
        Err(e) => return Err(e),
    };
    match found {
        None => Err(AppError::InvalidInput("workspace not found".to_owned())),
        Some(w) => match w.git_root {
            None => Err(AppError::InvalidInput("workspace is not a Git repository".to_owned())),
            Some(root) => Ok(root),
        },
    }
}

/// Runs `git -C git_root args` through `run_git` and refuses a failure with
/// the message that it left.
fn run_git_checked<F>(git_root: String, args: Vec<String>, run_git: F) -> (r: Result<(), AppError>)
    where
        F: FnOnce(String, Vec<String>) -> Result<CommandOutput, AppError>,
    requires
        run_git.requires((git_root, args)),
    ensures
        exists|out: Result<CommandOutput, AppError>|
            #[trigger] run_git.ensures((git_root, args), out) && checked_result(out, r),
{
    let out = run_git(git_root, args);
    let ghost o = out;
    let output = match out {
        Ok(o) => o,
        Err(e) => return Err(e),
    };
    if output.success {
        Ok(())
    } else {
        Err(AppError::CommandFailed(command_output_message(&output)))
    }
}

/// Raises a `blocked` item of priority 3 for `workspace_id` when `status`
/// has unmerged files, unless an active one is already there.
pub fn create_conflict_attention_item(
    attention: &mut AttentionTable,
    workspace_id: &str,
    status: &GitStatus,
) -> (r: Result<(), AppError>)
    ensures
        conflict_outcome(old(attention)@, final(attention)@, workspace_id@, status@, unit_view(r)),
{
    if !status.has_unmerged_files() {
        return Ok(());
    }
    if attention.has_active_item(workspace_id, "blocked", "Git conflict requires attention") {
        return Ok(());
    }
    let input = CreateAttentionItem {
        workspace_id: workspace_id.to_owned(),
        session_id: None,
        kind: "blocked".to_owned(),
        priority: 3,
        title: "Git conflict requires attention".to_owned(),
        summary: "Resolve unmerged files before continuing normal development work.".to_owned(),
        action_label: Some("Open Git".to_owned()),
        action_ref: Some("git://conflicts".to_owned()),
    };
    assert(input@ == conflict_input(workspace_id@));
    let created = create_attention_item(attention, input);
    let ghost c = create_result_view(created);
    assert(create_outcome(old(attention)@, attention@, conflict_input(workspace_id@), c));
    match created {
        Ok(_) => Ok(()),
        Err(e) => Err(e),
    }
}

/// Runs a command that changes the index for `path` in the workspace
/// `workspace_id`.
fn index_command<F>(
    workspaces: &WorkspaceTable,
    workspace_id: String,
    path: String,
    lead: Vec<String>,
    run_git: F,
) -> (r: Result<(), AppError>)
    where
        F: FnOnce(String, Vec<String>) -> Result<CommandOutput, AppError>,
    requires
        forall|a: String, b: Vec<String>|
            index_plan(workspaces@, workspace_id@, path@, args_view(lead)) == Ok::<
                (Seq<char>, Seq<Seq<char>>),
                Seq<char>,
            >((a@, args_view(b))) ==> #[trigger] run_git.requires((a, b)),
    ensures
        index_command_outcome(workspaces@, workspace_id@, path@, args_view(lead), run_git, r),
{
    let ghost raw = path@;
    let git_root = match git_root_for_workspace(workspaces, workspace_id.as_str()) {
        Ok(g) => g,
        Err(e) => return Err(e),
    };
    let path = match validate_path(path) {
        Ok(p) => p,
        Err(e) => return Err(e),
    };
    let mut args = lead;
    let ghost lv = args_view(args);
    let ghost pv = path@;
    args.push(path);
    assert(args_view(args) =~= lv.push(pv));
    let ghost rs = git_root;
    let ghost av = args;
    assert(index_plan(workspaces@, workspace_id@, raw, lv) == Ok::<
        (Seq<char>, Seq<Seq<char>>),
        Seq<char>,
    >((rs@, args_view(av))));
    let r = run_git_checked(git_root, args, run_git);
    assert(exists|out: Result<CommandOutput, AppError>|
        #[trigger] run_git.ensures((rs, av), out) && checked_result(out, r));
    r
}

/// Stages `path` in the workspace `workspace_id`: `git add -- path`.
/// `run_git` need accept only that command, so a refused request runs
/// nothing.
pub fn stage<F>(workspaces: &WorkspaceTable, workspace_id: String, path: String, run_git: F) -> (r:
    Result<(), AppError>)
    where
        F: FnOnce(String, Vec<String>) -> Result<CommandOutput, AppError>,
    requires
        forall|a: String, b: Vec<String>|
            index_plan(workspaces@, workspace_id@, path@, seq!["add"@, "--"@]) == Ok::<
                (Seq<char>, Seq<Seq<char>>),
                Seq<char>,
            >((a@, args_view(b))) ==> #[trigger] run_git.requires((a, b)),
    ensures
        index_command_outcome(
            workspaces@,
            workspace_id@,
            path@,
            seq!["add"@, "--"@],
            run_git,
            r,
        ),
{
    let lead = vec!["add".to_owned(), "--".to_owned()];
    assert(args_view(lead) =~= seq!["add"@, "--"@]);
    index_command(workspaces, workspace_id, path, lead, run_git)
}

/// Unstages `path` in the workspace `workspace_id`:
/// `git restore --staged -- path`. `run_git` need accept only that
/// command, so a refused request runs nothing.
pub fn unstage<F>(workspaces: &WorkspaceTable, workspace_id: String, path: String, run_git: F) -> (r:
    Result<(), AppError>)
    where
        F: FnOnce(String, Vec<String>) -> Result<CommandOutput, AppError>,
    requires
        forall|a: String, b: Vec<String>|
            index_plan(workspaces@, workspace_id@, path@, seq!["restore"@, "--staged"@, "--"@])
                == Ok::<(Seq<char>, Seq<Seq<char>>), Seq<char>>((a@, args_view(b)))
                ==> #[trigger] run_git.requires((a, b)),
    ensures
        index_command_outcome(
            workspaces@,
            workspace_id@,
            path@,
            seq!["restore"@, "--staged"@, "--"@],
            run_git,
            r,
        ),
{
    let lead = vec!["restore".to_owned(), "--staged".to_owned(), "--".to_owned()];
    assert(args_view(lead) =~= seq!["restore"@, "--staged"@, "--"@]);
    index_command(workspaces, workspace_id, path, lead, run_git)
}

/// The `git diff` command for the workspace `workspace_id` and the optional
/// `path`: the Git root and the arguments, or why the request is refused.
pub open spec fn diff_plan(
    workspaces: Seq<WorkspaceView>,
    workspace_id: Seq<char>,
    path: Option<Seq<char>>,
) -> Result<(Seq<char>, Seq<Seq<char>>), Seq<char>> {
    match git_root_of(workspaces, workspace_id) {
        Err(m) => Err(m),
        Ok(root) => match path {
            Some(raw) => match path_error(raw) {
                Some(m) => Err(m),
                None => Ok((root, seq!["diff"@, "--"@, trim_seq(raw)])),
            },
            None => Ok((root, seq!["diff"@])),
        },
    }
}

/// The `git status` command for the workspace `workspace_id`: its Git root
/// and the porcelain arguments, when the workspace is known and in Git.
pub open spec fn status_plan(workspaces: Seq<WorkspaceView>, workspace_id: Seq<char>) -> Option<
    (Seq<char>, Seq<Seq<char>>),
> {
    match row_with_id(workspaces, trim_seq(workspace_id)) {
        Some(w) => match w.git_root {
            Some(root) => Some((root, status_args())),
            None => None,
        },
        None => None,
    }
}

/// The diff that a successful `git diff` gave.
pub open spec fn diff_outcome(
    out: Result<CommandOutput, AppError>,
    path: Option<Seq<char>>,
    r: Result<GitDiff, AppError>,
) -> bool {
    match out {
        Err(e) => r matches Err(x) && error_view(x) == error_view(e),
        Ok(o) => if o.success {
            r matches Ok(d) && d.path.deep_view() == path && d.text@ == o.stdout@
        } else {
            r matches Err(AppError::CommandFailed(m)) && m@ == output_message(o)
        },
    }
}

/// The unstaged diff of the workspace `workspace_id`, for `path` (trimmed)
/// when it is given: `git diff [-- path]`. `run_git` need accept only that
/// command, so a refused request runs nothing.
pub fn diff<F>(workspaces: &WorkspaceTable, workspace_id: String, path: Option<String>, run_git: F) -> (r:
    Result<GitDiff, AppError>)
    where
        F: FnOnce(String, Vec<String>) -> Result<CommandOutput, AppError>,
    requires
        forall|a: String, b: Vec<String>|
            diff_plan(workspaces@, workspace_id@, path.deep_view()) == Ok::<
                (Seq<char>, Seq<Seq<char>>),
                Seq<char>,
            >((a@, args_view(b))) ==> #[trigger] run_git.requires((a, b)),
    ensures
        match git_root_of(workspaces@, workspace_id@) {
            Err(m) => r matches Err(AppError::InvalidInput(x)) && x@ == m,
            Ok(root) => match path.deep_view() {
                Some(raw) if path_error(raw) is Some => r matches Err(AppError::InvalidInput(x))
                    && x@ == path_error(raw)->0,
                _ => exists|root_s: String, args: Vec<String>, out: Result<CommandOutput, AppError>|
                    {
                        &&& root_s@ == root
                        &&& args_view(args) == match path.deep_view() {
                            Some(raw) => seq!["diff"@, "--"@, trim_seq(raw)],
                            None => seq!["diff"@],
                        }
                        &&& #[trigger] run_git.ensures((root_s, args), out)
                        &&& diff_outcome(
                            out,
                            match path.deep_view() {
                                Some(raw) => Some(trim_seq(raw)),
                                None => None,
                            },
                            r,
                        )
                    },
            },
        },
{
    let ghost raw = path.deep_view();
    let git_root = match git_root_for_workspace(workspaces, workspace_id.as_str()) {
        Ok(g) => g,
        Err(e) => return Err(e),
    };
    let clean_path = match clean_optional_path(path) {
        Ok(p) => p,
        Err(e) => return Err(e),
    };
    let mut args = vec!["diff".to_owned()];
    match &clean_path {
        Some(p) => {
            args.push("--".to_owned());
            args.push(p.clone());
        },
        None => {},
    }
    let ghost rs = git_root;
    let ghost av = args;
    assert(args_view(av) =~= match raw {
        Some(x) => seq!["diff"@, "--"@, trim_seq(x)],
        None => seq!["diff"@],
    });
    assert(diff_plan(workspaces@, workspace_id@, raw) == Ok::<
        (Seq<char>, Seq<Seq<char>>),
        Seq<char>,
    >((rs@, args_view(av))));
    let out = run_git(git_root, args);
    let ghost o = out;
    let r = match out {
        Err(e) => Err(e),
        Ok(output) => if output.success {
            Ok(GitDiff { path: clean_path, text: output.stdout })
        } else {
            Err(AppError::CommandFailed(command_output_message(&output)))
        },
    };
    assert(run_git.ensures((rs, av), o));
    r
}

/// What `git status` did for a workspace with a Git root: the command's own
/// error; an unavailable status when it failed; else the status that its
/// output describes, after a conflict in it has been reported.
pub open spec fn status_outcome(
    before: Seq<AttentionItemView>,
    after: Seq<AttentionItemView>,
    workspace_id: Seq<char>,
    out: Result<CommandOutput, AppError>,
    r: Result<GitStatus, AppError>,
) -> bool {
    match out {
        Err(e) => r matches Err(x) && error_view(x) == error_view(e) && after == before,
        Ok(o) => if !o.success {
            r matches Ok(st) && st@ == unavailable_status(output_message(o)) && after == before
        } else {
            let st = status_of_output(o.stdout@);
            exists|c: Result<(), Option<Seq<char>>>|
                #[trigger] conflict_outcome(before, after, workspace_id, st, c) && match c {
                    Ok(_) => r matches Ok(s) && s@ == st,
                    Err(e) => r matches Err(x) && error_view(x) == e,
                }
        },
    }
}

/// The status of the workspace `workspace_id`: unknown workspaces are
/// refused, a workspace outside Git is unavailable, and otherwise the
/// output of `git status --porcelain=v1 --branch` is read. Unmerged files
/// raise a conflict item in the Attention Queue. `run_git` need accept only
/// the status command of a workspace in Git, so no other case runs it.
pub fn status<F>(
    workspaces: &WorkspaceTable,
    attention: &mut AttentionTable,
    workspace_id: String,
    run_git: F,
) -> (r: Result<GitStatus, AppError>)
    where
        F: FnOnce(String, Vec<String>) -> Result<CommandOutput, AppError>,
    requires
        forall|a: String, b: Vec<String>|
            status_plan(workspaces@, workspace_id@) == Some((a@, args_view(b)))
                ==> #[trigger] run_git.requires((a, b)),
        forall|a: String, b: Vec<String>, out: Result<CommandOutput, AppError>|
            #[trigger] run_git.ensures((a, b), out) ==> (out matches Ok(o) ==> (o.success
                ==> readable_status_output(o.stdout@))),
    ensures
        match row_with_id(workspaces@, trim_seq(workspace_id@)) {
            None => (r matches Err(AppError::InvalidInput(m)) && m@ == "workspace not found"@)
                && final(attention)@ == old(attention)@,
            Some(w) => match w.git_root {
                None => (r matches Ok(st) && st@ == unavailable_status(
                    "workspace is not a Git repository"@,
                )) && final(attention)@ == old(attention)@,
                Some(root) => exists|
                    root_s: String,
                    args: Vec<String>,
                    out: Result<CommandOutput, AppError>,
                |
                    {
                        &&& root_s@ == root
                        &&& args_view(args) == status_args()
                        &&& #[trigger] run_git.ensures((root_s, args), out)
                        &&& status_outcome(old(attention)@, final(attention)@, w.id, out, r)
                    },
            },
        },
{
    let found = match find_workspace_by_id(workspaces, trim(workspace_id.as_str())) {
        Ok(f) => f,
        Err(e) => return Err(e),
    };
    let workspace = match found {
        None => return Err(AppError::InvalidInput("workspace not found".to_owned())),
        Some(w) => w,
    };
    let git_root = match workspace.git_root {
        None => return Ok(GitStatus::unavailable("workspace is not a Git repository")),
        Some(g) => g,
    };
    let args = vec!["status".to_owned(), "--porcelain=v1".to_owned(), "--branch".to_owned()];
    assert(args_view(args) =~= status_args());
    let ghost rs = git_root;
    let ghost av = args;
    let out = run_git(git_root, args);
    let ghost o = out;
    assert(run_git.ensures((rs, av), o));
    let output = match out {
        Ok(x) => x,
        Err(e) => return Err(e),
    };
    if !output.success {
        return Ok(GitStatus::unavailable(command_output_message(&output).as_str()));
    }
    let status = match parse_status_output(output.stdout.as_str()) {
        Ok(s) => s,
        Err(e) => return Err(e),
    };
    let c = create_conflict_attention_item(attention, workspace.id.as_str(), &status);
    let ghost cv = unit_view(c);
    assert(conflict_outcome(old(attention)@, attention@, workspace.id@, status@, cv));
    match c {
        Ok(_) => Ok(status),
        Err(e) => Err(e),
    }
}

/// A pair of status letters is unmerged exactly when both letters are among
/// `A`, `D` and `U` and the file is not added on one side and deleted on the
/// other: the seven codes DD, AU, UD, UA, DU, AA and UU. In particular a file
/// whose index letter is a space, `M`, `R`, `C`, `T`, `?` or `!` is never
/// unmerged.
pub proof fn law_unmerged_codes(x: Seq<char>, y: Seq<char>)
    ensures
        unmerged_pair(x, y) <==> (x.len() == 1 && y.len() == 1 && (x[0] == 'A' || x[0] == 'D'
            || x[0] == 'U') && (y[0] == 'A' || y[0] == 'D' || y[0] == 'U') && !(x[0] == 'A'
            && y[0] == 'D') && !(x[0] == 'D' && y[0] == 'A')),
        x.len() == 1 && (x[0] == ' ' || x[0] == 'M' || x[0] == 'R' || x[0] == 'C' || x[0] == 'T'
            || x[0] == '?' || x[0] == '!') ==> !unmerged_pair(x, y),
{
}

/// Files changed only in the working tree (index letter a space) are never
/// a conflict.
pub proof fn law_worktree_changes_are_no_conflict(files: Seq<GitFileStatusView>)
    requires
        forall|i: int| 0 <= i < files.len() ==> (#[trigger] files[i]).index_status == seq![' '],
    ensures
        !has_unmerged(files),
{
    assert forall|i: int| 0 <= i < files.len() implies !unmerged_pair(
        #[trigger] files[i].index_status,
        files[i].worktree_status,
    ) by {
        law_unmerged_codes(files[i].index_status, files[i].worktree_status);
    }
}

/// No character of `s` is white space.
pub open spec fn no_white_space(s: Seq<char>) -> bool {
    forall|i: int| 0 <= i < s.len() ==> !is_ws(#[trigger] s[i])
}

/// A branch name as these laws take it: not empty, without white space and
/// without a dot.
pub open spec fn plain_branch_name(s: Seq<char>) -> bool {
    s.len() > 0 && no_white_space(s) && forall|i: int| 0 <= i < s.len() ==> #[trigger] s[i] != '.'
}

/// The branch part of a header: the branch, and `...` and its upstream when
/// it has one.
pub open spec fn branch_part(name: Seq<char>, upstream: Option<Seq<char>>) -> Seq<char> {
    match upstream {
        Some(u) => name + "..."@ + u,
        None => name,
    }
}

/// A pattern that does not occur anywhere from `i` on is not found.
proof fn lemma_find_from_none(s: Seq<char>, p: Seq<char>, i: int)
    requires
        0 <= i,
        forall|j: int| i <= j ==> !occurs_at(s, p, j),
    ensures
        find_from(s, p, i) is None,
    decreases s.len() + 1 - i,
{
    if i + p.len() <= s.len() {
        lemma_find_from_none(s, p, i + 1);
    }
}

/// A text without white space at its ends is its own trim.
proof fn lemma_trim_fixed(s: Seq<char>)
    requires
        s.len() > 0,
        !is_ws(s[0]),
        !is_ws(s.last()),
    ensures
        trim_seq(s) == s,
{
    assert(trim_start_seq(s) == s);
    assert(trim_end_seq(s) == s);
}

/// A one-element sequence folds to one step.
proof fn lemma_fold_one<A, B>(x: A, b: B, f: spec_fn(B, A) -> B)
    ensures
        seq![x].fold_left(b, f) == f(b, x),
{
    let s = seq![x];
    assert(s.drop_last() =~= Seq::<A>::empty());
    assert(s.drop_last().fold_left(b, f) == b);
    assert(s.last() == x);
    assert(s.fold_left(b, f) == f(s.drop_last().fold_left(b, f), s.last()));
}

/// A two-element sequence folds to two steps.
proof fn lemma_fold_two<A, B>(x: A, y: A, b: B, f: spec_fn(B, A) -> B)
    ensures
        seq![x, y].fold_left(b, f) == f(f(b, x), y),
{
    assert(seq![x, y].drop_last() =~= seq![x]);
    lemma_fold_one(x, b, f);
}

/// The branch part of a header names its branch.
proof fn lemma_branch_part_name(name: Seq<char>, upstream: Option<Seq<char>>)
    requires
        plain_branch_name(name),
    ensures
        branch_name_of(branch_part(name, upstream)) == Some(name),
{
    reveal_strlit("...");
    reveal_strlit("No commits yet on ");
    let b = branch_part(name, upstream);
    assert forall|j: int| 0 <= j < name.len() implies !occurs_at(b, "..."@, j) by {
        if occurs_at(b, "..."@, j) {
            assert(b.subrange(j, j + 3)[0] == '.');
            assert(b[j] == name[j]);
        }
    }
    match upstream {
        Some(u) => {
            assert(occurs_at(b, "..."@, name.len() as int)) by {
                assert(b.subrange(name.len() as int, name.len() + 3int) =~= "..."@);
            }
            lemma_find_from_first(b, "..."@, 0, name.len() as int);
            assert(b.subrange(0, name.len() as int) =~= name);
        },
        None => {
            lemma_find_from_none(b, "..."@, 0);
        },
    }
    assert(!is_ws(name[0]) && !is_ws(name[name.len() - 1]));
    lemma_trim_fixed(name);
    if starts_with_seq(name, "No commits yet on "@) {
        assert(name[2] == "No commits yet on "@[2]);
    }
}

/// A branch header `## B [T]`, alone on its line and ended by a line feed,
/// sets the branch that `B` names and reads each comma-separated part of
/// `T`.
proof fn lemma_tracking_header(b: Seq<char>, t: Seq<char>)
    requires
        b.len() > 0,
        no_white_space(b),
        t.len() > 0,
        t.last() != ']',
        !t.contains('\n'),
    ensures
        status_of_output("## "@ + b + " ["@ + t + "]\n"@) == split_char(t, ',').fold_left(
            GitStatusView { branch: branch_name_of(b), ..empty_status() },
            tracking_step(),
        ),
{
    reveal_strlit("## ");
    reveal_strlit(" [");
    reveal_strlit("]\n");
    let h = b + " ["@ + t + seq![']'];
    let line = "## "@ + h;
    let output = "## "@ + b + " ["@ + t + "]\n"@;
    assert(output =~= line.push('\n'));
    assert(!line.contains('\n')) by {
        if line.contains('\n') {
            let j = choose|j: int| 0 <= j < line.len() && line[j] == '\n';
            if 3 <= j < 3 + b.len() {
                assert(line[j] == b[j - 3]);
            } else if 5 + b.len() <= j < 5 + b.len() + t.len() {
                assert(line[j] == t[j - 5 - b.len()]);
            }
        }
    }
    assert(line.last() == ']');
    lemma_lines_single(line);
    lemma_fold_one(line, empty_status(), line_step());
    assert(starts_with_seq(line, "## "@)) by {
        assert(line.subrange(0, 3) =~= "## "@);
    }
    assert(line.subrange(3, line.len() as int) =~= h);
    assert forall|j: int| 0 <= j < b.len() implies !occurs_at(h, " ["@, j) by {
        if occurs_at(h, " ["@, j) {
            assert(h.subrange(j, j + 2)[0] == ' ');
            assert(h[j] == b[j]);
        }
    }
    assert(occurs_at(h, " ["@, b.len() as int)) by {
        assert(h.subrange(b.len() as int, b.len() + 2int) =~= " ["@);
    }
    lemma_find_from_first(h, " ["@, 0, b.len() as int);
    assert(h.subrange(0, b.len() as int) =~= b);
    let rest = h.subrange(b.len() + 2int, h.len() as int);
    assert(rest =~= t.push(']'));
    assert(rest.drop_last() =~= t);
    assert(trim_end_char(t, ']') == t);
    assert(trim_end_char(rest, ']') == t);
}

/// The digits of a non-negative count hold no comma, line feed or white
/// space, and end with a digit.
proof fn lemma_count_text(n: i64)
    requires
        n >= 0,
    ensures
        ({
            let d = nat_decimal(n as nat);
            &&& d.len() > 0
            &&& !d.contains(',')
            &&& !d.contains('\n')
            &&& no_white_space(d)
            &&& d.last() != ']'
            &&& parse_i64_seq(d) == Some(n)
        }),
{
    let d = nat_decimal(n as nat);
    lemma_nat_decimal_digits(n as nat);
    lemma_parse_nat_decimal(n);
    assert forall|j: int| 0 <= j < d.len() implies #[trigger] d[j] != ',' && d[j] != '\n' && !is_ws(
        d[j],
    ) by {
        assert(crate::text::is_digit(d[j]));
    }
    assert(crate::text::is_digit(d[d.len() - 1]));
}

/// The part `ahead N` sets the count ahead to `N`.
proof fn lemma_ahead_part(st: GitStatusView, n: i64)
    requires
        n >= 0,
    ensures
        apply_tracking_part(st, "ahead "@ + nat_decimal(n as nat)) == (GitStatusView {
            ahead: n,
            ..st
        }),
{
    reveal_strlit("ahead ");
    reveal_strlit("behind ");
    let d = nat_decimal(n as nat);
    lemma_count_text(n);
    let p = "ahead "@ + d;
    assert(p.last() == d.last());
    assert(!is_ws(d[d.len() - 1]));
    lemma_trim_fixed(p);
    assert(starts_with_seq(p, "ahead "@)) by {
        assert(p.subrange(0, 6) =~= "ahead "@);
    }
    assert(!starts_with_seq(p, "behind "@)) by {
        if starts_with_seq(p, "behind "@) {
            assert(p.subrange(0, 7)[0] == p[0]);
        }
    }
    assert(p.subrange(6, p.len() as int) =~= d);
}

/// The part `behind N`, with or without one leading space, sets the count
/// behind to `N`.
proof fn lemma_behind_part(st: GitStatusView, n: i64, lead: bool)
    requires
        n >= 0,
    ensures
        apply_tracking_part(
            st,
            (if lead {
                " behind "@
            } else {
                "behind "@
            }) + nat_decimal(n as nat),
        ) == (GitStatusView { behind: n, ..st }),
{
    reveal_strlit("ahead ");
    reveal_strlit("behind ");
    reveal_strlit(" behind ");
    let d = nat_decimal(n as nat);
    lemma_count_text(n);
    let q = "behind "@ + d;
    assert(q.last() == d.last());
    assert(!is_ws(d[d.len() - 1]));
    lemma_trim_fixed(q);
    if lead {
        let p = " behind "@ + d;
        assert(p.drop_first() =~= q);
        assert(trim_start_seq(p) == trim_start_seq(q));
        assert(trim_seq(p) == q);
    } else {
        assert(("behind "@ + d) =~= q);
    }
    assert(!starts_with_seq(q, "ahead "@)) by {
        if starts_with_seq(q, "ahead "@) {
            assert(q.subrange(0, 6)[0] == q[0]);
        }
    }
    assert(starts_with_seq(q, "behind "@)) by {
        assert(q.subrange(0, 7) =~= "behind "@);
    }
    assert(q.subrange(7, q.len() as int) =~= d);
}

/// The branch part of a header has no white space.
proof fn lemma_branch_part_plain(name: Seq<char>, upstream: Option<Seq<char>>)
    requires
        plain_branch_name(name),
        upstream matches Some(u) ==> no_white_space(u),
    ensures
        branch_part(name, upstream).len() > 0,
        no_white_space(branch_part(name, upstream)),
{
    reveal_strlit("...");
    let b = branch_part(name, upstream);
    if let Some(u) = upstream {
        assert forall|i: int| 0 <= i < b.len() implies !is_ws(#[trigger] b[i]) by {
            if i < name.len() {
                assert(b[i] == name[i]);
            } else if i >= name.len() + 3 {
                assert(b[i] == u[i - name.len() - 3]);
            }
        }
    }
}

/// A branch that is only behind its upstream: `## B [behind N]` gives the
/// branch of `B`, `N` commits behind and none ahead, and no file.
pub proof fn law_header_behind(name: Seq<char>, upstream: Option<Seq<char>>, n: i64)
    requires
        plain_branch_name(name),
        upstream matches Some(u) ==> no_white_space(u),
        n >= 0,
    ensures
        ({
            let st = status_of_output(
                "## "@ + branch_part(name, upstream) + " [behind "@ + nat_decimal(n as nat) + "]\n"@,
            );
            &&& st.available
            &&& st.branch == Some(name)
            &&& st.behind == n
            &&& st.ahead == 0
            &&& st.files.len() == 0
        }),
{
    reveal_strlit(" [behind ");
    reveal_strlit(" [");
    reveal_strlit("behind ");
    let b = branch_part(name, upstream);
    lemma_branch_part_plain(name, upstream);
    let d = nat_decimal(n as nat);
    lemma_count_text(n);
    let t = "behind "@ + d;
    assert(t.last() == d.last());
    assert(!t.contains('\n') && !t.contains(',')) by {
        assert forall|j: int| 0 <= j < t.len() implies #[trigger] t[j] != '\n' && t[j] != ',' by {
            if j >= 7 {
                assert(t[j] == d[j - 7]);
            }
        }
    }
    assert("## "@ + b + " [behind "@ + d + "]\n"@ =~= "## "@ + b + " ["@ + t + "]\n"@);
    lemma_tracking_header(b, t);
    lemma_split_char_without(t, ',');
    let st1 = GitStatusView { branch: branch_name_of(b), ..empty_status() };
    lemma_fold_one(t, st1, tracking_step());
    lemma_behind_part(st1, n, false);
    lemma_branch_part_name(name, upstream);
}

/// A branch ahead of and behind its upstream: `## B [ahead A, behind N]`
/// gives the branch of `B`, `A` commits ahead and `N` behind, and no file.
pub proof fn law_header_ahead_behind(name: Seq<char>, upstream: Option<Seq<char>>, a: i64, n: i64)
    requires
        plain_branch_name(name),
        upstream matches Some(u) ==> no_white_space(u),
        a >= 0,
        n >= 0,
    ensures
        ({
            let st = status_of_output(
                "## "@ + branch_part(name, upstream) + " [ahead "@ + nat_decimal(a as nat)
                    + ", behind "@ + nat_decimal(n as nat) + "]\n"@,
            );
            &&& st.available
            &&& st.branch == Some(name)
            &&& st.ahead == a
            &&& st.behind == n
            &&& st.files.len() == 0
        }),
{
    reveal_strlit(" [ahead ");
    reveal_strlit(", behind ");
    reveal_strlit(" behind ");
    reveal_strlit(" [");
    reveal_strlit("ahead ");
    let b = branch_part(name, upstream);
    lemma_branch_part_plain(name, upstream);
    let da = nat_decimal(a as nat);
    let dn = nat_decimal(n as nat);
    lemma_count_text(a);
    lemma_count_text(n);
    let p1 = "ahead "@ + da;
    let p2 = " behind "@ + dn;
    let t = p1 + seq![','] + p2;
    assert(!p1.contains(',') && !p1.contains('\n')) by {
        assert forall|j: int| 0 <= j < p1.len() implies #[trigger] p1[j] != ',' && p1[j] != '\n' by {
            if j >= 6 {
                assert(p1[j] == da[j - 6]);
            }
        }
    }
    assert(!p2.contains(',') && !p2.contains('\n')) by {
        assert forall|j: int| 0 <= j < p2.len() implies #[trigger] p2[j] != ',' && p2[j] != '\n' by {
            if j >= 8 {
                assert(p2[j] == dn[j - 8]);
            }
        }
    }
    assert(!t.contains('\n')) by {
        if t.contains('\n') {
            let j = choose|j: int| 0 <= j < t.len() && t[j] == '\n';
            if j < p1.len() {
                assert(t[j] == p1[j]);
            } else if j > p1.len() {
                assert(t[j] == p2[j - p1.len() - 1]);
            }
        }
    }
    assert(t.last() == dn.last());
    assert("## "@ + b + " [ahead "@ + da + ", behind "@ + dn + "]\n"@ =~= "## "@ + b + " ["@ + t
        + "]\n"@);
    lemma_tracking_header(b, t);
    lemma_split_char_once(p1, p2, ',');
    let st1 = GitStatusView { branch: branch_name_of(b), ..empty_status() };
    lemma_fold_two(p1, p2, st1, tracking_step());
    lemma_ahead_part(st1, a);
    lemma_behind_part(GitStatusView { ahead: a, ..st1 }, n, true);
    lemma_branch_part_name(name, upstream);
}

/// Reading the parts of a branch header changes no file.
proof fn lemma_tracking_keeps_files(parts: Seq<Seq<char>>, st: GitStatusView)
    ensures
        parts.fold_left(st, tracking_step()).files == st.files,
    decreases parts.len(),
{
    if parts.len() > 0 {
        lemma_tracking_keeps_files(parts.drop_last(), st);
    }
}

/// Every file of `files` has an unchanged index (a space for its index
/// letter).
pub open spec fn index_unchanged(files: Seq<GitFileStatusView>) -> bool {
    forall|i: int| 0 <= i < files.len() ==> (#[trigger] files[i]).index_status == seq![' ']
}

/// A line that is a branch header or starts with a space.
pub open spec fn header_or_worktree_line(line: Seq<char>) -> bool {
    starts_with_seq(line, "## "@) || (line.len() > 0 && line[0] == ' ')
}

/// Reading headers and lines that start with a space only adds files with
/// an unchanged index.
proof fn lemma_worktree_lines_keep_index(lines: Seq<Seq<char>>, st: GitStatusView)
    requires
        index_unchanged(st.files),
        forall|k: int| 0 <= k < lines.len() ==> header_or_worktree_line(#[trigger] lines[k]),
    ensures
        index_unchanged(lines.fold_left(st, line_step()).files),
    decreases lines.len(),
{
    if lines.len() > 0 {
        let init = lines.drop_last();
        let line = lines.last();
        assert(header_or_worktree_line(lines[lines.len() - 1]));
        lemma_worktree_lines_keep_index(init, st);
        let prev = init.fold_left(st, line_step());
        if starts_with_seq(line, "## "@) {
            let h = line.subrange("## "@.len() as int, line.len() as int);
            match find_first(h, " ["@) {
                Some(i) => {
                    let st1 = GitStatusView { branch: branch_name_of(h.subrange(0, i)), ..prev };
                    lemma_tracking_keeps_files(
                        split_char(
                            trim_end_char(h.subrange(i + " ["@.len(), h.len() as int), ']'),
                            ',',
                        ),
                        st1,
                    );
                },
                None => {},
            }
        } else {
            let next = apply_status_line(prev, line);
            assert forall|i: int| 0 <= i < next.files.len() implies (
            #[trigger] next.files[i]).index_status == seq![' '] by {
                if i == prev.files.len() {
                    assert(line.subrange(0, 1) =~= seq![' ']);
                }
            }
        }
    }
}

/// Changes only in the working tree are never a conflict: when every line
/// of `git status` output is a branch header or starts with a space (an
/// unchanged index), the status has no unmerged file, and reporting a
/// conflict for it raises nothing.
pub proof fn law_worktree_only_output_raises_nothing(
    output: Seq<char>,
    workspace_id: Seq<char>,
    before: Seq<AttentionItemView>,
    after: Seq<AttentionItemView>,
    r: Result<(), Option<Seq<char>>>,
)
    requires
        forall|k: int|
            0 <= k < lines_seq(output).len() ==> header_or_worktree_line(
                #[trigger] lines_seq(output)[k],
            ),
        conflict_outcome(before, after, workspace_id, status_of_output(output), r),
    ensures
        !has_unmerged(status_of_output(output).files),
        after == before,
        r is Ok,
{
    assert(empty_status().files =~= Seq::<GitFileStatusView>::empty());
    lemma_worktree_lines_keep_index(lines_seq(output), empty_status());
    law_worktree_changes_are_no_conflict(status_of_output(output).files);
}

/// The conflict title has no white space at its ends.
proof fn lemma_conflict_title_trimmed()
    ensures
        trim_seq(conflict_title()) == conflict_title(),
{
    reveal_strlit("Git conflict requires attention");
    let t = conflict_title();
    assert(!crate::text::is_ws(t[0]));
    assert(crate::text::trim_start_seq(t) == t);
    assert(!crate::text::is_ws(t.last()));
}

/// A Git conflict is reported once: after a report for a workspace whose
/// identifier carries no surrounding white space has gone through, a second
/// report for the same status changes nothing.
pub proof fn law_conflict_reported_once(
    before: Seq<AttentionItemView>,
    middle: Seq<AttentionItemView>,
    after: Seq<AttentionItemView>,
    workspace_id: Seq<char>,
    status: GitStatusView,
    r2: Result<(), Option<Seq<char>>>,
)
    requires
        trim_seq(workspace_id) == workspace_id,
        conflict_outcome(before, middle, workspace_id, status, Ok(())),
        conflict_outcome(middle, after, workspace_id, status, r2),
    ensures
        after == middle,
        r2 is Ok,
{
    if has_unmerged(status.files) {
        if !conflict_reported(before, workspace_id) {
            let c = choose|c: Result<AttentionItemView, Option<Seq<char>>>|
                #[trigger] create_outcome(before, middle, conflict_input(workspace_id), c) && Ok::<
                    (),
                    Option<Seq<char>>,
                >(()) == match c {
                    Ok(_) => Ok::<(), Option<Seq<char>>>(()),
                    Err(e) => Err(e),
                };
            let item = c->Ok_0;
            lemma_conflict_title_trimmed();
            assert(middle[before.len() as int] == item);
            assert(in_active_queue(middle[before.len() as int], Some(workspace_id)));
            assert(conflict_reported(middle, workspace_id));
        } else {
            assert(conflict_reported(middle, workspace_id));
        }
    }
}

/// A status with unmerged files raises a conflict item when none is active
/// for the workspace yet: the report adds exactly that one item (or, if the
/// identifier it drew is taken, nothing).
pub proof fn law_conflict_raises_blocked_item(
    before: Seq<AttentionItemView>,
    after: Seq<AttentionItemView>,
    workspace_id: Seq<char>,
    status: GitStatusView,
    r: Result<(), Option<Seq<char>>>,
)
    requires
        !blank(workspace_id),
        has_unmerged(status.files),
        !conflict_reported(before, workspace_id),
        conflict_outcome(before, after, workspace_id, status, r),
    ensures
        r is Ok ==> after.len() == before.len() + 1 && after.last().kind == "blocked"@
            && after.last().priority == 3 && after.last().title == conflict_title(),
        r is Err ==> after == before,
{
    lemma_conflict_title_trimmed();
    if r is Ok {
        let c = choose|c: Result<AttentionItemView, Option<Seq<char>>>|
            #[trigger] create_outcome(before, after, conflict_input(workspace_id), c) && r == match c {
                Ok(_) => Ok::<(), Option<Seq<char>>>(()),
                Err(e) => Err(e),
            };
        assert(c is Ok);
    }
}

} // verus!
