//! A renderer for binary data inspection: it lays bytes out as
//! fixed-width display lines with an offset column, two hex groups and a
//! printable-character column, collapses runs of identical lines, and
//! frames the result. A separate utility parses human-friendly byte
//! counts.

pub mod border;
pub mod bytecount;
pub mod classify;
pub mod colors;
pub mod hexfmt;
pub mod laws;
pub mod printer;
pub mod squeezer;

pub use border::BorderElements;
pub use border::BorderStyle;
pub use bytecount::ByteCountError;
pub use bytecount::parse_byte_count;
pub use classify::Byte;
pub use classify::ByteCategory;
pub use colors::ColorType;
pub use printer::Printer;
