//! Parser and generator for the Ultrastar karaoke song text format: a header
//! block of `#TAG:VALUE` lines followed by timed lyric lines made of pitched
//! notes, ending in a single `E` terminator.
//!
//! Every public function carries a contract that pins its result down to a
//! mathematical model of the format, and the laws module proves the
//! format-level properties: duplicate detection, aggregate reporting of
//! missing mandatory fields, classification priority, and the terminator
//! requirement.

pub mod error;
pub mod generator;
pub mod laws;
pub mod numbers;
pub mod parser;
pub mod structs;
pub mod text;

pub use crate::error::ErrorKind;
pub use crate::generator::generate_song_txt;
pub use crate::parser::parse_txt_header_str;
pub use crate::parser::parse_txt_lines_str;
pub use crate::structs::FloatNum;
pub use crate::structs::Header;
pub use crate::structs::Line;
pub use crate::structs::Note;
pub use crate::structs::Source;
pub use crate::structs::TXTSong;
