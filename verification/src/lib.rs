//! A parser for combat-log lines.
//!
//! Each line of a combat log holds a timestamp, two consecutive spaces, and a
//! comma-separated list of fields. The parser turns such a line into a
//! [`record::Record`]: a timezone-naive timestamp of millisecond precision and
//! the fields as plain text, in their original order. A closed set of error
//! variants reports lines that cannot be read.
pub mod chars;
pub mod fields;
pub mod record;
pub mod timestamp;
pub mod transport;
