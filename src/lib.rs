//! A small addressable bank of 32-bit words with bit-level access.
pub mod bank;
pub mod row;

pub use bank::TemplateApp;
pub use row::MemoryRow;
