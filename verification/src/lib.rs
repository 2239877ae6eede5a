//! Aggregation, navigation and screen layout for browsing batch test results
//! that are organised by patch number and test name.

pub mod model;
pub mod nav;
pub mod order;
pub mod report;
pub mod screen;
pub mod store;
pub mod table;
pub mod test;
pub mod text;
pub mod tui;
pub mod walk;
