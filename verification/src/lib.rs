//! Verified core of the CADverse peer-to-peer simulation host.

pub mod ar_client;
pub mod clients;
pub mod host;
pub mod keys;
pub mod menu;
pub mod network;
pub mod qr;
pub mod sim_control;
pub mod sim_input;
pub mod triple_buffer;
