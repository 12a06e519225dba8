//! What is proved of the wrapper, beyond the contracts of its functions.
//!
//! - `reassembly`: segmentation loses nothing of the text.
//! - `atomicity`: no segment is ever divided.
//! - `width_bound`: no line overruns the width, but for the lines that begin
//!   with a list marker.
//! - `list_marker`: the list marker is never left alone on its line.
//! - `blank_lines`: exactly one blank line separates two paragraphs.
//! - `short_text`: text that is short enough comes back unchanged.
//!
//! The other modules hold what these share: `line_width` and `output_lines`
//! on the lines of a text, `pack_facts` on the lines of the word packer, and
//! `plain_text` on text without code and links.

pub mod atomicity;
pub mod blank_lines;
pub mod line_width;
pub mod list_marker;
pub mod output_lines;
pub mod pack_facts;
pub mod plain_text;
pub mod reassembly;
pub mod short_text;
pub mod width_bound;
