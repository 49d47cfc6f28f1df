//! The control core of a small reverse proxy, verified with Verus.
//!
//! The proxy's decisions live here and its sockets elsewhere: a driver
//! performs the I/O and asks these modules what to do next.
//!
//! - [`config`]: what the proxy is started with.
//! - [`upstream`], [`dead_set`]: the upstream pool, the set of upstreams
//!   believed dead, and the selector that draws a live one.
//! - [`health`]: what a health probe asks and what its outcome changes.
//! - [`rate_limit`]: request counts per client over fixed windows.
//! - [`session`]: the life of one client connection as a state machine.
//! - [`forwarding`]: the header that names the client to the upstream.
//!
//! Beside the proxy the crate holds the verified parts of a few small
//! tools: a linked list ([`linked_list`]), the command parser and memory
//! arithmetic of a debugger ([`debugger_command`], [`inferior`]), the rules
//! of a word game ([`hangman`]), and the string helpers they share
//! ([`text`]).

pub mod config;
pub mod dead_set;
pub mod debugger_command;
pub mod forwarding;
pub mod hangman;
pub mod health;
pub mod inferior;
pub mod linked_list;
pub mod rate_limit;
pub mod session;
pub mod text;
pub mod upstream;
