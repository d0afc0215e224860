//! Verified core of a machine report for Linux.

pub mod buf;
pub mod collect;
pub mod frame;
pub mod laws;
pub mod live;
pub mod login;
pub mod render;
pub mod scan;
pub mod sys;
pub mod text;
