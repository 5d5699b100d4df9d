//! Tools for the data files of Ys V: Lost Kefin (PS2).
//!
//! * `text`: Shift-JIS conversion and the markup used for in-line control codes.
//! * `cursor`: a byte cursor with little-endian readers and writers.
//! * `code`: the script opcodes, their operand layouts and their values.
//! * `script`: decoding and encoding of `stageXX.bin` event scripts.
//! * `archive`: the archive tables held in the game executable.
//! * `instruction`: the byte layout of every instruction, and the laws that
//!   tie instruction values to it.

pub mod text;
pub mod cursor;
pub mod code;
pub mod script;
pub mod archive;
pub mod instruction;
