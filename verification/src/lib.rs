//! Session multiplexing for a SOCKS5 relay that carries many proxied
//! connections over one ordered tunnel.
//!
//! An agent sits beside the SOCKS5 clients and a server dials the targets.
//! Between them runs one tunnel, and on it every proxied connection is a
//! session: frames tagged with the session's identifier, a state machine
//! for opening, half-closing and abandoning it, and a credit window in each
//! direction so that a slow session holds up neither the tunnel nor the
//! other sessions.
//!
//! The crate holds the protocol and nothing else. Sockets and tasks belong
//! to the caller, who feeds events in and carries out the effects that come
//! back. From the bottom up:
//!
//! - `wire`: big-endian integers and byte copies.
//! - `address`: hosts and ports in their wire form.
//! - `socks5`: the messages exchanged with a SOCKS5 client.
//! - `frame`: the frames of the tunnel and their encoding.
//! - `message`: what a frame says, by its kind.
//! - `flow`: credit windows.
//! - `session`: the state machine of a session and what a session holds.
//! - `table`: the live sessions, found by identifier.
//! - `mux`: the state of a multiplexing engine and how it moves.
//! - `engine`: the engine itself.
//! - `agent`, `server`: the two sides of a tunnel.
//! - `trace`, `runs`, `independence`: what holds of engines, agents and
//!   servers over time.
//! - `pipe`: one direction of a session from end to end.

pub mod address;
pub mod agent;
pub mod engine;
pub mod flow;
pub mod frame;
pub mod independence;
pub mod message;
pub mod mux;
pub mod pipe;
pub mod runs;
pub mod server;
pub mod session;
pub mod socks5;
pub mod table;
pub mod trace;
pub mod wire;
