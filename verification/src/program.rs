//! What the process was asked to be at startup. Argument parsing happens
//! outside the library and fills this in.

use vstd::prelude::*;

verus! {

/// The chosen front end: the plain command line, or the dashboard.
#[derive(Clone, Copy, PartialEq, Eq, Structural, Debug)]
pub struct Opt {
    pub cli: bool,
    pub ui: bool,
}

} // verus!
