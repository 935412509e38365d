use vstd::prelude::*;

verus! {

/// The path that `relative_path` gives for a relative path laid over a base
/// directory, with `.` and `..` resolved logically.
pub uninterp spec fn logical_path_of(rel: Seq<char>, base: Seq<char>) -> Seq<char>;

/// The last normal component of a relative path, as `relative_path` reads it.
pub uninterp spec fn file_name_of(rel: Seq<char>) -> Option<Seq<char>>;

/// The MIME type that `mime_guess` gives for a path by its extension,
/// `application/octet-stream` where it knows none.
pub uninterp spec fn guessed_mime(path: Seq<char>) -> Seq<char>;

/// Whether `fast_glob` matches a path against a glob pattern.
pub uninterp spec fn glob_matches(pattern: Seq<char>, path: Seq<char>) -> bool;

/// The final component of a filesystem path, as `std::path::Path` reads it.
pub uninterp spec fn os_file_name_of(path: Seq<char>) -> Option<Seq<char>>;

/// Relies on `relative_path::RelativePath::to_logical_path`: the result
/// depends on the two paths alone.
#[verifier::external_body]
pub(crate) fn logical_path(rel: &str, base: &str) -> (r: String)
    ensures
        r@ == logical_path_of(rel@, base@),
{
    relative_path::RelativePath::new(rel).to_logical_path(base).to_string_lossy().into_owned()
}

/// Relies on `relative_path::RelativePath::file_name`.
#[verifier::external_body]
pub(crate) fn file_name(rel: &str) -> (r: Option<String>)
    ensures
        match r {
            Some(n) => file_name_of(rel@) == Some(n@),
            None => file_name_of(rel@) is None,
        },
{
    relative_path::RelativePath::new(rel).file_name().map(|n| n.to_string())
}

/// Relies on `mime_guess::from_path(..).first_or_octet_stream()`: the guess
/// depends on the path's extension alone.
#[verifier::external_body]
pub(crate) fn guess_mime(path: &str) -> (r: String)
    ensures
        r@ == guessed_mime(path@),
{
    mime_guess::from_path(path).first_or_octet_stream().to_string()
}

/// Relies on `fast_glob::glob_match`.
#[verifier::external_body]
pub(crate) fn glob_match(pattern: &str, path: &str) -> (r: bool)
    ensures
        r == glob_matches(pattern@, path@),
{
    fast_glob::glob_match(pattern, path)
}

/// Relies on `std::path::Path::file_name`.
#[verifier::external_body]
pub(crate) fn os_file_name(path: &str) -> (r: Option<String>)
    ensures
        match r {
            Some(n) => os_file_name_of(path@) == Some(n@),
            None => os_file_name_of(path@) is None,
        },
{
    std::path::Path::new(path).file_name().map(|n| n.to_string_lossy().into_owned())
}

} // verus!
