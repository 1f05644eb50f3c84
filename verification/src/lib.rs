//! A versioned note store: parses structured text documents into notes,
//! scans a directory listing into a sorted snapshot, and keeps a
//! monotonically versioned current snapshot that readers can poll.

pub mod date;
pub mod markup;
pub mod note;
pub mod parse;
pub mod scan;
pub mod sort;
pub mod store;
pub mod text;
pub mod version;
