//! Management of several SSH identities: an account store, the rules that
//! select and remove accounts, and an editor that keeps marker-delimited and
//! named sections of a shared SSH client configuration file up to date.
pub mod text;
pub mod blocks;
pub mod sections;
pub mod store;
pub mod manager;

pub use manager::{classify_probe, ProbeOutcome, Removal, SshManager, Status};
pub use store::{Config, ManagerError, SshAccount};
