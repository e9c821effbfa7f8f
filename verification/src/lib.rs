//! Strip a leading marker sequence (such as `#` or `//`) from each line of a
//! multiline text.
//!
//! A line that contains the marker anywhere first loses its leading
//! whitespace; the marker itself is then removed when it stands at the very
//! start of what remains. Lines without the marker keep their leading
//! whitespace. An optional flag removes whatever leading whitespace is still
//! left after that.

pub mod chars;
pub mod laws;
pub mod lines;
pub mod trim;

use vstd::prelude::*;

verus! {

/// The marker stripped when the caller does not supply one.
pub const DEFAULT_LEADING_CHARS: &'static str = "#";

} // verus!
