//! Resolution of the home root from the override value and the user's home
//! directory.

use vstd::prelude::*;

verus! {

/// An error which occurred when resolving the home path.
#[derive(Debug, Clone, Copy, PartialEq, Eq, Structural)]
pub struct PathError;

impl PathError {
    /// A human-readable description of the error.
    pub fn message(&self) -> (r: &'static str)
        ensures
            r@ == "Cannot get home path"@,
    {
        "Cannot get home path"
    }
}

/// The home root named by an override value and the user's home directory:
/// the override verbatim when set, else the `.nen` directory under the
/// user's home, else nothing.
pub open spec fn spec_home_root(
    override_path: Option<Seq<char>>,
    user_home: Option<Seq<char>>,
) -> Option<Seq<char>> {
    match override_path {
        Some(p) => Some(p),
        None => match user_home {
            Some(h) => Some(h + "/.nen"@),
            None => None,
        },
    }
}

/// Resolve the home root; fails only when neither the override value nor
/// the user's home directory is available.
pub fn home_path(override_path: Option<String>, user_home: Option<String>) -> (r: Result<
    String,
    PathError,
>)
    ensures
        match r {
            Ok(p) => spec_home_root(override_path.deep_view(), user_home.deep_view()) == Some(p@),
            Err(_) => spec_home_root(override_path.deep_view(), user_home.deep_view()) is None,
        },
{
    match override_path {
        Some(p) => Ok(p),
        None => match user_home {
            Some(mut h) => {
                h.append("/.nen");
                Ok(h)
            },
            None => Err(PathError),
        },
    }
}

} // verus!
