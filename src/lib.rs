//! Market-data feeder core: normalizes exchange events into canonical records
//! and packs them into fixed-layout, MTU-bounded multicast datagrams.

pub mod protocol;
pub mod text;
pub mod clock;
pub mod decimal;
pub mod json;
pub mod errors;
pub mod data_parser;
pub mod ordering;
pub mod events;
pub mod packet_builder;
pub mod session;
pub mod assoc;
pub mod config;
pub mod payload_pool;
pub mod udp_stats;
