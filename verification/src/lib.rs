//! Core of a tick-synchronised client/server state-replication engine:
//! wrapping sequence arithmetic, ring buffers, packet framing, the ack
//! engine, the replicate and command managers and the per-peer connection
//! that composes them. Every item is verified.

pub mod ack_manager;
pub mod action_writer;
pub mod client;
pub mod client_connection;
pub mod coalescing;
pub mod command_block;
pub mod command_receiver;
pub mod dual_command_receiver;
pub mod dual_command_sender;
pub mod entity_record;
pub mod entity_ref;
pub mod error;
pub mod handshake;
pub mod config;
pub mod connection;
pub mod key_discipline;
pub mod key_generator;
pub mod key_list;
pub mod keys;
pub mod locality_status;
pub mod manifest;
pub mod message_manager;
pub mod packet_writer;
pub mod ping_manager;
pub mod replicate_action;
pub mod replicate_manager;
pub mod replicate_record;
pub mod replicate_sender;
pub mod sequence;
pub mod sequence_buffer;
pub mod server;
pub mod server_connection;
pub mod standard_header;
pub mod state_mask;
pub mod table;
pub mod tick_manager;
pub mod tick_queue;
pub mod variant;
pub mod wire;
pub mod world;
