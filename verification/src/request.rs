//! The parts of an HTTP request that the server's decisions look at.

use vstd::prelude::*;

verus! {

/// The request methods that the server tells apart.
#[derive(PartialEq, Eq, Structural, Clone, Copy, Debug)]
pub enum RequestMethod {
    Get,
    Head,
    Options,
    /// Any other method.
    Other,
}

} // verus!
