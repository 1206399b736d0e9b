//! `lucio_core`: create new Vivaldi profiles based on existing ones, as
//! isolated settings/extensions templates.
//!
//! A clone inherits the source profile's Vivaldi settings and its installed
//! extensions with their options, but none of its personal data: cookies,
//! saved passwords, history, autofill, open sessions, bookmarks, site storage
//! and Vivaldi mail/calendar are never copied unless explicitly chosen.
//!
//! - [`manifest`] defines which files each carry-over category copies.
//! - [`local_state`] reads and edits the `Local State` profile registry.
//! - [`clone`] plans the copy and sanitizes the clone's `Preferences`.
//! - [`staging`] holds clone options and registers a staged clone.
//! - [`flow`] decides, step by step, how a staged clone gets registered.
//! - [`selection`] is the interactive category selector's state machine.
//! - [`paths`], [`summary`], [`json`], [`profile`] and [`text`] support them.
pub mod clone;
pub mod error;
pub mod flow;
pub mod json;
pub mod local_state;
pub mod manifest;
pub mod paths;
pub mod profile;
pub mod selection;
pub mod staging;
pub mod summary;
pub mod text;

pub use crate::clone::CloneReport;
pub use crate::error::Error;
pub use crate::profile::ProfileInfo;
pub use crate::staging::{CloneOptions, CloneOutcome, StagedClone};
