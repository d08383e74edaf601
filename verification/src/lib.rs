//! BDF font handler
//!
//! This crate reads and writes fonts in the Glyph Bitmap Distribution
//! Format. It works on text: the text of a file goes in and a `Font` comes
//! out, or the other way round. Every function states what it returns, and
//! is proved to return it.
//!
//! # The parts
//!
//! - `text` and `number` hold what is needed of text: lines, trimming,
//!   splitting, and integers in base 10 and base 16.
//! - `bitmap` holds the pixel grid of a glyph, and `row` the packing of its
//!   rows into words.
//! - `entry` holds the records of a file, `error` what can go wrong.
//! - `reader` turns text into records (`Reader::entry`) and records into a
//!   font (`read`). What the next record of any input is, is the function
//!   `reader::reader::next_record`; what font a text holds, the function
//!   `reader::font_of`.
//! - `writer` turns records into text (`Writer::entry`) and a font into
//!   records (`write`). What text a record has is the function
//!   `writer::writer::text_of`; what text a font has, the function
//!   `writer::text_of_font`.
//! - `font`, `glyph`, `property` and `table` hold the font itself.
//! - `round_trip` proves that a record that is written reads back, and of
//!   which records this is so; `font_round_trip` proves the same of lists of
//!   records and of whole fonts.
//!
//! # Example
//!
//! ```rust,no_run
//! let text =
//!     "STARTFONT 2.1\nFONT demo\nSIZE 16 75 75\nFONTBOUNDINGBOX 8 8 0 0\nCHARS 0\nENDFONT\n";
//! let font = bdf::read(text).unwrap();
//! assert_eq!(font.name(), "demo");
//! assert_eq!(bdf::writer::write(&font).unwrap(), text);
//! ```

pub mod bitmap;
pub mod bounding_box;
pub mod direction;
pub mod entry;
pub mod error;
pub mod font;
pub mod font_round_trip;
pub mod glyph;
pub mod number;
pub mod property;
pub mod reader;
pub mod round_trip;
pub mod row;
pub mod table;
pub mod text;
pub mod writer;

pub use crate::bitmap::Bitmap;
pub use crate::bounding_box::BoundingBox;
pub use crate::direction::Direction;
pub use crate::entry::Entry;
pub use crate::error::Error;
pub use crate::font::{Font, Size};
pub use crate::glyph::Glyph;
pub use crate::property::Property;
pub use crate::reader::{read, Reader};
pub use crate::writer::Writer;
