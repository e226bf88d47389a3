//! Session-scoped approval tracking for file-editing actions.
//!
//! An edit action names the filesystem paths it touches with possibly
//! relative, possibly redundant path expressions. This crate canonicalizes
//! each expression against a working directory into a [`paths::NormalizedPath`]
//! identity key, and keeps a monotonically growing set of approved keys in a
//! [`store::PatchApprovalStore`], so that two textually different expressions
//! denoting the same location are recognized as the same approved resource.

pub mod action;
pub mod laws;
pub mod paths;
pub mod store;
