//! Verified session-management core for MLS-style encrypted group
//! conversations: key-package lifecycle, group creation and membership
//! commits, welcome processing, message classification, and epoch-scoped
//! secret export. The cryptographic provider and the storage engine are
//! external collaborators; this crate owns and verifies the session logic
//! that drives them: state validation, epoch bookkeeping, and error
//! classification.

pub mod errors;
pub mod hex;
pub mod keys;
pub mod keypkg;
pub mod group;
pub mod messages;
pub mod session;
pub mod client;
pub mod laws;

pub use client::Client;
pub use errors::Error;
