//! Dotfile management: a store directory holds the configuration files, and
//! links in the home directory lead to them.
//!
//! The library decides and the caller acts. It derives the identities of a
//! dotfile ([`dotfile`]), builds the index of a store from what a walk through
//! the store found ([`scan`], [`store`]), and says for each command what is to
//! be done to the filesystem ([`dispatch`]). It never touches the filesystem
//! itself: the caller reports what lies at a path and carries out the
//! operations that it is handed ([`fs`]). What the operations achieve is stated
//! over a model of the filesystem ([`model`]).

pub mod args;
pub mod dispatch;
pub mod dotfile;
pub mod error;
pub mod fs;
pub mod model;
pub mod path;
pub mod scan;
pub mod store;
mod text;
