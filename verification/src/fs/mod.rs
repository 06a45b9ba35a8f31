//! Directory entries: what they are, how a listing is made of them, and what
//! becomes of the events of a watched directory.
pub mod entry;
pub mod lister;
pub mod order;
pub mod watcher;
