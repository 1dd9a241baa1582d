//! Peer presence and messaging engine for a local-area chat application.
//!
//! The engine is the part of the application that decides: who is present
//! ([`registry`], [`presence`]), what a broadcast means and when to send one
//! ([`discovery`], [`advertise`]), who the local participant is
//! ([`identity`]), and what travels over which connection ([`transport`],
//! [`frame`]). It touches no socket, clock or file: its callers hand it the
//! bytes they read and the time they measured, and carry out what it returns.
//!
//! Every function states what it returns and changes, over the mathematical
//! values of its arguments, and is proved to do so. Two calls into the
//! standard library are taken on trust; [`text`] holds both and says what is
//! assumed of each.

pub mod advertise;
pub mod commands;
pub mod config;
pub mod discovery;
pub mod error;
pub mod event;
pub mod frame;
pub mod identity;
pub mod keyed;
pub mod manager;
pub mod peer;
pub mod presence;
pub mod registry;
pub mod text;
pub mod transport;
pub mod wire;
