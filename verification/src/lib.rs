//! Persistent remote shells: the decisions, parsers, tables and state
//! machines of the client, the tunnel supervisor and the commands around
//! them. What touches a socket, a terminal, a process or the clock lives in
//! the program around this library, which hands plain values in and carries
//! out the actions that come back.

use vstd::prelude::*;

pub mod alt_screen;
pub mod attach;
pub mod chrome;
pub mod client;
pub mod columns;
pub mod complete;
pub mod config;
pub mod connect;
pub mod doctor;
pub mod durations;
pub mod escape;
pub mod forward;
pub mod hosts;
pub mod kill;
pub mod manifest;
pub mod monitor;
pub mod naming;
pub mod order;
pub mod outside;
pub mod paths;
pub mod picker;
pub mod protocol;
pub mod rate;
pub mod receive;
pub mod reconnect;
pub mod refresh;
pub mod relay;
pub mod report;
pub mod runinfo;
pub mod runs;
pub mod service;
pub mod sessions;
pub mod startup;
pub mod table;
pub mod tail;
pub mod target;
pub mod text;
pub mod transfer;
pub mod wire_names;

verus! {

} // verus!
