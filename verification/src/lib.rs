//! A terminal Pokedex: the session state, its rules, and the expiring
//! response cache that sits between the commands and the network.
//!
//! - [`model`]: the cache as a mathematical map, and what each operation
//!   does to it.
//! - [`store`]: the executable store of timestamped payloads.
//! - [`cache`]: the cache that callers use, and the reaper's sweep.
//! - [`laws`]: what holds of the cache under every history.
//! - [`clock`]: the system clock as a count of nanoseconds.
//! - [`input`]: the words of a command line.
//! - [`config`]: the session and the registry of commands.
//! - [`menu`]: the cursor of the two selection menus.
//! - [`chance`]: the throw of a Pokeball.
//!
//! The library does no input or output and starts no thread. A program that
//! shares a cache between threads keeps it behind one lock, so that every
//! operation and every sweep is one step of a history as [`laws`] has them.

pub mod cache;
pub mod chance;
pub mod clock;
pub mod config;
pub mod input;
pub mod laws;
pub mod menu;
pub mod model;
pub mod store;
