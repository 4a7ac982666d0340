//! A block builder for HotShot proposers: the bookkeeping of builder states,
//! transaction queues and the decisions taken on HotShot events.
pub mod clock;
pub mod rotating;
pub mod block;
pub mod digest;
pub mod channel;
pub mod state;
pub mod coordinator;
pub mod table;
pub mod blockcache;
pub mod service;
pub mod text;
pub mod bundle;
pub mod building;
pub mod wait;
pub mod events;
pub mod laws;
pub mod versions;
pub mod config;
pub mod blocks;
