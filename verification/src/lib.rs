//! Data-availability networking logic: message framing, subnetwork
//! assignation, peer health policies, connection monitoring and balancing,
//! and the scheduling decisions of the dispersal, replication and sampling
//! protocols. All of it works on plain values; the event loops that drive
//! sockets and timers feed it events and carry out the actions it returns.

pub mod peer;
pub mod order;
pub mod address_book;
pub mod peer_map;
pub mod packing;
pub mod messages;
pub mod storage;
pub mod assignations;
pub mod errors;
pub mod fixed_point;
pub mod connection_monitor;
pub mod health;
pub mod policy;
pub mod random;
pub mod balancer;
pub mod maintenance;
pub mod replication;
pub mod replication_handler;
pub mod proto;
pub mod dispersal;
pub mod sampling;
pub mod validator;
pub mod behaviours;
pub mod http;
pub mod laws;
