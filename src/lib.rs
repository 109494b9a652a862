//! Quick-launch application finder: the catalog of launch targets, the fuzzy
//! ranking of a query against it, the daemon's control protocol and state
//! machine, and the decisions of the search window.
pub mod apps;
pub mod daemon;
pub mod icons;
pub mod ipc;
pub mod linux;
pub mod logs;
pub mod macos;
pub mod matcher;
pub mod model;
pub mod natural;
pub mod numeral;
pub mod ui;
pub mod view;
pub mod windows;
