//! The note model of illpad: plain text with bold and highlight ranges over
//! it, the buffer that a note is edited in, the clipboard export with inline
//! markers, and the decisions of the editor around them.
//!
//! - [`text`]: tagged text and its clipboard export.
//! - [`surface`]: the editable buffer, reading tagged text out of it and
//!   showing tagged text in it.
//! - [`editor`]: the list of blocks and the keys of a block.
//! - [`session`]: when the notes are saved and when the editor quits.

use vstd::prelude::*;

pub mod editor;
pub mod session;
pub mod surface;
pub mod text;

verus! {

} // verus!
