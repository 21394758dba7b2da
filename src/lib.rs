//! Unattended check-in automation for a course-attendance portal: the
//! markup scanners, the decisions of the login and check-in flows, and the
//! task configuration they run on.
pub mod text;
pub mod html;
pub mod scan;
pub mod config;
pub mod json;
pub mod notify;
pub mod coords;
pub mod task;
pub mod auth;
