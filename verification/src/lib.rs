//! Library core of a desktop launcher for apps published on GitHub, GitLab and the
//! Internet Archive.
pub mod calendar;
pub mod net;
pub mod ops;
pub mod session;
pub mod sorting;
pub mod state;
pub mod text;
pub mod theme;
