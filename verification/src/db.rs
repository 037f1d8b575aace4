//! Where the application keeps its database.
use vstd::prelude::*;
use crate::text::starts_with_seq;

verus! {

/// The name of the database file under the application's data directory.
pub const DB_FILE_NAME: &'static str = "vibe-monitor.db";

/// A file name that is one plain path component: not empty, not `.` or `..`,
/// and without a separator or a drive colon.
pub open spec fn plain_file_name(name: Seq<char>) -> bool {
    &&& name.len() > 0
    &&& name != seq!['.']
    &&& name != seq!['.', '.']
    &&& !name.contains('/')
    &&& !name.contains('\\')
    &&& !name.contains(':')
}

/// `p` stands at the end of `s`.
pub open spec fn ends_with_seq(s: Seq<char>, p: Seq<char>) -> bool {
    p.len() <= s.len() && s.subrange(s.len() - p.len(), s.len() as int) == p
}

/// `dir` begins with the verbatim prefix `\\?\`, after which a joined path
/// has its `.` and `..` components removed.
pub open spec fn verbatim_prefixed(dir: Seq<char>) -> bool {
    starts_with_seq(dir, seq!['\\', '\\', '?', '\\'])
}

/// `dir` ends with neither a separator (`/` or `\`) nor a colon, so that
/// joining a name to it puts one separator between them.
pub open spec fn needs_separator(dir: Seq<char>) -> bool {
    dir.len() > 0 && dir.last() != '/' && dir.last() != '\\' && dir.last() != ':'
}

/// `r` is `dir`, one separator of the platform (`/` or `\`), and `name`.
pub open spec fn joined_with_separator(r: Seq<char>, dir: Seq<char>, name: Seq<char>) -> bool {
    &&& r.len() == dir.len() + 1 + name.len()
    &&& r.subrange(0, dir.len() as int) == dir
    &&& (r[dir.len() as int] == '/' || r[dir.len() as int] == '\\')
    &&& r.subrange(dir.len() + 1int, r.len() as int) == name
}

/// `std::path::Path::join` of `dir` and the file name `name`, as text. The
/// contract claims what the documentation of `Path::join` and `PathBuf::push`
/// says of a relative path of one plain component: the path `dir` is
/// extended with it, so the result ends with `name` and, unless `dir` has a
/// verbatim prefix, begins with `dir`; where `dir` does not already end with
/// a separator (or a drive colon), the platform's separator goes between
/// them, as in the documented `/tmp` and `file.bk` giving `/tmp/file.bk`.
#[verifier::external_body]
fn join_path(dir: &str, name: &str) -> (r: String)
    requires
        plain_file_name(name@),
    ensures
        ends_with_seq(r@, name@),
        !verbatim_prefixed(dir@) ==> starts_with_seq(r@, dir@),
        !verbatim_prefixed(dir@) && needs_separator(dir@) ==> joined_with_separator(r@, dir@, name@),
{
    std::path::Path::new(dir).join(name).to_string_lossy().into_owned()
}

/// The database file under the application's data directory
/// `app_data_dir`.
pub fn db_path(app_data_dir: &str) -> (r: String)
    ensures
        ends_with_seq(r@, DB_FILE_NAME@),
        !verbatim_prefixed(app_data_dir@) ==> starts_with_seq(r@, app_data_dir@),
        !verbatim_prefixed(app_data_dir@) && needs_separator(app_data_dir@) ==> joined_with_separator(
            r@,
            app_data_dir@,
            DB_FILE_NAME@,
        ),
{
    proof {
        reveal_strlit("vibe-monitor.db");
    }
    join_path(app_data_dir, DB_FILE_NAME)
}

} // verus!
