//! The values known for the parameters of a command.

use vstd::prelude::*;
use crate::text_map::TextMap;

verus! {

/// The values known for the parameters of a command, by parameter name.
pub type Arguments = TextMap;

} // verus!
