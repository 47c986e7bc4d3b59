//! Verified core of a terminal dashboard that tracks coding-agent sessions:
//! session status rules, the daemon's event state machine, the dashboard's
//! key and event handling, and the text formatting used by the views.

pub mod status;
pub mod text;
pub mod clock;
pub mod json;
pub mod types;
pub mod daemon;
pub mod tables;
pub mod sort;
pub mod dashboard;
pub mod detail;
pub mod format;
pub mod dates;
pub mod hooks;
pub mod hook;
pub mod ids;
pub mod launch;
pub mod release;
pub mod screen;
pub mod overlays;
pub mod transcript;
pub mod detail_view;
