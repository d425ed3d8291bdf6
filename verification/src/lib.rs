//! Cluster membership and rumor dissemination: the SWIM failure detector with
//! suspicion and infection-style dissemination, and the gossip layer beside it.

pub mod config;
pub mod error;
pub mod frame;
pub mod member;
pub mod member_list;
pub mod message;
pub mod probe;
pub mod rumor;
pub mod server;
pub mod service_group;
pub mod store;
pub mod trace;
pub mod wire;
