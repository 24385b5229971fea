//! A grid puzzle: codes picked from a matrix, alternating between a column and a row,
//! are collected in a fixed-capacity selection buffer.
pub mod board;
pub mod buffer;
pub mod doc;
pub mod matrix;
pub mod sequences;

pub use board::{buffer_is_valid, code_matrix_is_valid, sequences_is_valid, valid_board};
pub use buffer::Buffer;
pub use doc::Doc;
pub use matrix::{Code, CodeMatrix};
pub use sequences::{Programs, Sequence};
