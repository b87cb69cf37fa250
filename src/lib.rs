//! Environment-conditioned path resolution and file comparison for a
//! backup tool whose piles live at different places on different machines.
//!
//! - [`resolver`] picks, among a pile's conditional paths, the most specific
//!   one whose environments are all active, and rejects ties, conditions
//!   that name two mutually exclusive environments, and conditions that
//!   repeat the names of another.
//! - [`pile_config`] layers a pile's own settings over inherited ones.
//! - [`hoard`] resolves a whole hoard: one anonymous pile or a named group.
//! - [`diff`] decides whether two snapshots of a file differ.
pub mod bytes;
pub mod diff;
pub mod hoard;
pub mod pile_config;
pub mod resolver;
