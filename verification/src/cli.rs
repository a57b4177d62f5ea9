//! The plain command-line program over the live state. Its printing loop
//! runs outside the library.

use vstd::prelude::*;

verus! {

/// The command-line program: it follows the state and prints what
/// changed.
pub struct CliApp {}

} // verus!
