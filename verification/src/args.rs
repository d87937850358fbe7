use vstd::prelude::*;

verus! {

/// Why a scan root is rejected before any traversal starts.
#[derive(Clone, Copy, Debug, PartialEq, Eq, Structural)]
pub enum RootError {
    /// The path exists but is not a directory.
    NotADirectory,
    /// The path's metadata could not be read (it does not exist, or is not
    /// accessible).
    Unreadable,
}

/// Validates the scan root from what the filesystem reported about it:
/// `meta` is `Some(d)` if the path's metadata could be read and `d` says
/// whether it is a directory, `None` if the metadata query failed.
///
/// The root is accepted exactly when it is a readable directory; then the
/// argument text itself is the accepted root path.
pub fn parse_dir(arg: &str, meta: Option<bool>) -> (r: Result<String, RootError>)
    ensures
        r is Ok <==> meta == Some(true),
        r matches Ok(p) ==> p@ == arg@,
        meta == Some(false) ==> (r matches Err(e) && e == RootError::NotADirectory),
        meta is None ==> (r matches Err(e) && e == RootError::Unreadable),
{
    match meta {
        Some(true) => Ok(arg.to_owned()),
        Some(false) => Err(RootError::NotADirectory),
        None => Err(RootError::Unreadable),
    }
}

} // verus!
