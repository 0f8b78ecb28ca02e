use vstd::prelude::*;

verus! {

/// A repository as the remote API describes it.
#[derive(Clone, Debug, PartialEq, Eq)]
pub struct Repo {
    pub stargazers_count: usize,
    pub name: String,
}

/// A user as the remote API describes it: only the declared repository count matters here.
#[derive(Clone, Copy, Debug, PartialEq, Eq, Structural)]
pub struct User {
    pub public_repos: usize,
}

/// The configuration error of the page orchestration.
#[derive(Clone, Copy, Debug, PartialEq, Eq, Structural)]
pub enum Error {
    /// A page size of zero was requested.
    ZeroPageSize,
}

impl Error {
    /// The human-readable message of the error.
    pub fn message(&self) -> (r: String)
        ensures
            r@ == "PageSize must be greater than 0"@,
    {
        match self {
            Error::ZeroPageSize => String::from_str("PageSize must be greater than 0"),
        }
    }
}

} // verus!
