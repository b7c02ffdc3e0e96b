pub mod get;
pub mod next;
pub mod rescan;
