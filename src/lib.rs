//! Durable storage for one annotated text: the raw input and its segmentation
//! into plain text and vocabulary words, kept as the single row of an SQLite
//! table and read back exactly as it was saved.

pub mod codec;
pub mod database;
pub mod domain;
pub mod error;
pub mod json_text;
pub mod json_value;
mod sql;
mod text_io;

pub use database::{initialize, load_text, save_text, text_of_row};
pub use domain::{SegmentView, Text, TextSegment, TextView, Word};
pub use error::AppError;
