//! Decisions of the application's dialogs.

pub mod account;
pub mod directory;
pub mod invite;
pub mod member;
