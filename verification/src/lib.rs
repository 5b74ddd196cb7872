//! Verified core of a distributed download accelerator: chunk scheduling,
//! task life cycle and persistence, the peer table, transfer accounting and
//! the small text rules the coordinator and the peer service share.

pub mod api;
pub mod checksum;
pub mod chunks;
pub mod clock;
pub mod config;
pub mod http;
pub mod lifecycle;
pub mod node_tasks;
pub mod peers;
pub mod speed;
pub mod stream;
pub mod task;
pub mod text;
