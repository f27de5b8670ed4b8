//! A directory browser's engine: listing entries with their kinds and sizes,
//! ordering them, and stepping through the tree one input line at a time.
//!
//! Nothing here touches the file system or the terminal. Callers hand in what
//! they read and render what comes back.

pub mod color;
pub mod display;
pub mod display_number;
pub mod entry;
pub mod explore;
pub mod get_entries;
pub mod laws;
pub mod names;
pub mod order;
pub mod parse_args;
pub mod path;
pub mod size;
pub mod sort;
pub mod text;
