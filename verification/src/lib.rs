//! The verified core of Velo, a small file manager.
//!
//! The crate holds the state of the browser window (which directory is open,
//! what it contains, how the list is filtered and ordered, where "back" and
//! "forward" lead) and every rule that turns this state and the outcome of an
//! input or output operation into the next state and the text to display.
//! Reading directories, watching them and drawing the window is the business
//! of the program around it.
pub mod text;
pub mod names;
pub mod path;
pub mod spelling;
pub mod written;
pub mod breadcrumb;
pub mod address;
pub mod size;
pub mod clock;
pub mod fs;
pub mod app_state;
pub mod messages;
pub mod rows;
pub mod typeahead;
pub mod navigation;
pub mod columns;
pub mod listing;
pub mod laws;
