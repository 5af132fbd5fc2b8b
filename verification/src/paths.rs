//! Recognising the app's SQLite database file by its path.
use vstd::prelude::*;
use crate::text::str_eq;

verus! {

/// File name of the app's SQLite database.
pub const DATABASE_FILE_NAME: &'static str = "evolve-calc.sqlite3";

/// What `std::path::Path::file_name` gives for a path text: its final
/// component, if it has one.
pub uninterp spec fn path_file_name(path: Seq<char>) -> Option<Seq<char>>;

/// `std::path::Path::new(path).file_name()`, as text. The name is taken
/// from a `&str`, so it is valid UTF-8 and converts back without loss; the
/// result is claimed to be the named final component of the path.
#[verifier::external_body]
fn file_name_of(path: &str) -> (r: Option<String>)
    ensures
        match (r, path_file_name(path@)) {
            (Some(n), Some(m)) => n@ == m,
            (None, None) => true,
            _ => false,
        },
{
    std::path::Path::new(path).file_name().and_then(|n| n.to_str()).map(|n| n.to_owned())
}

/// Whether `path` names the app's database file: its final component is
/// `evolve-calc.sqlite3`.
pub fn is_database_path(path: &str) -> (b: bool)
    ensures
        b <==> path_file_name(path@) == Some(DATABASE_FILE_NAME@),
{
    match file_name_of(path) {
        Some(name) => str_eq(name.as_str(), DATABASE_FILE_NAME),
        None => false,
    }
}

} // verus!
