//! Choosing the served root and the listening port.

use vstd::prelude::*;

verus! {

/// Why a directory cannot be served.
#[derive(Debug)]
pub enum RootError {
    /// The directory, as given, could not be resolved.
    CannotServe(String),
    /// The resolved path is not a directory.
    NotADirectory(String),
}

/// The served root: the canonical form of `directory`, which must be a
/// directory. `canonicalized` is the result of resolving `directory` (`None`
/// when that failed) and `is_dir` says whether it names a directory.
pub fn canonical_root(directory: &str, canonicalized: Option<String>, is_dir: bool) -> (res: Result<String, RootError>)
    ensures
        match canonicalized {
            None => res matches Err(RootError::CannotServe(d)) && d@ == directory@,
            Some(root) => if is_dir {
                res matches Ok(r) && r@ == root@
            } else {
                res matches Err(RootError::NotADirectory(r)) && r@ == root@
            },
        },
{
    match canonicalized {
        None => Err(RootError::CannotServe(directory.to_owned())),
        Some(root) => if is_dir {
            Ok(root)
        } else {
            Err(RootError::NotADirectory(root))
        },
    }
}

/// What to do after trying to listen on a port.
#[derive(PartialEq, Eq, Structural, Clone, Copy, Debug)]
pub enum BindStep {
    /// The port was taken: try this one next.
    Retry(u16),
    /// The port was taken and it was the last one.
    NoFreePort,
    /// Binding failed for another reason: give up with that error.
    Fail,
}

/// After a failed bind on `port`: a taken port moves on to the next one, up
/// to the last port; any other failure ends the search.
pub fn after_bind_failure(port: u16, addr_in_use: bool) -> (res: BindStep)
    ensures
        !addr_in_use ==> res == BindStep::Fail,
        addr_in_use && port < u16::MAX ==> res == BindStep::Retry((port + 1) as u16),
        addr_in_use && port == u16::MAX ==> res == BindStep::NoFreePort,
{
    if !addr_in_use {
        return BindStep::Fail;
    }
    match port.checked_add(1) {
        Some(next) => BindStep::Retry(next),
        None => BindStep::NoFreePort,
    }
}

} // verus!
