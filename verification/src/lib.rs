//! Coordinate mapping for a text buffer rendered with inline decorations.
//!
//! Three coordinate spaces are related here: the ORIGIN space (columns within
//! one raw document line), the MERGE space (columns within the concatenation
//! of the origin lines that a fold collapsed into one rendered row, before any
//! virtual text is spliced in), and the FINAL space (columns within the text
//! that is actually rendered, after virtual text is spliced in).
//!
//! `PhantomText` describes one virtual-text insertion, `PhantomTextLine`
//! annotates a single origin line with alternating real/virtual segments,
//! `PhantomTextMultiLine` concatenates annotated lines across a folded group,
//! and the query methods answer position-mapping requests over the result.

pub mod interval;
pub mod phantom;
pub mod segment;
pub mod line;
pub mod multiline;
pub mod laws;
pub mod ranges;
pub mod event;
pub mod cursor;
pub mod lines;
pub mod reactive;
pub mod text_util;
