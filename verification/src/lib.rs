//! A writer that sends text to a firmware console taking null-terminated
//! UCS-2 strings, through a small fixed staging buffer.

pub mod flushes;
pub mod output;
pub mod staging;
pub mod ucs2;
pub mod writer;
