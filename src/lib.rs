//! Paginated repository fetching and star-count reporting.
//!
//! `pages` decides which pages to request and assembles the fetched pages;
//! `report` renders the aligned star report from the assembled list;
//! `types` holds the entities both work on.

pub mod pages;
pub mod report;
pub mod types;
