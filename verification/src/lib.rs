//! featherai: the domain model, rules and decisions of a local-first project
//! and task manager, verified with Verus.
//!
//! The desktop shell (windows, the peer-to-peer network, the on-disk stores)
//! lives outside this crate; it hands plain values in and carries the
//! decisions made here back out.

pub mod text;
pub mod ordering;
pub mod models;
pub mod catalog;
pub mod demo;
pub mod auth;
pub mod dates;
pub mod peers;
pub mod data_dir;
pub mod listing;
pub mod board;
pub mod gantt;
pub mod forms;
pub mod workspace;
pub mod ui;
