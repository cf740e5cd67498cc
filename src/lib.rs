//! Notice-board snapshots, their extraction from a parsed page, and the
//! difference between two of them.
pub mod snapshot;
pub mod update;
pub mod matching;
pub mod diff;
pub mod laws;
pub mod extract;
pub mod html;
pub mod scrape;

pub use snapshot::{Data, Information, Link, LinkNode, Tab};
pub use update::{Configuration, DataUpdate, InformationUpdate, LinkNodeUpdate, TabUpdate, Update};
pub use diff::{diff_data, diff_link_node, diff_tabs, difference};
