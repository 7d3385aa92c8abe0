pub mod block;
pub mod client;
pub mod codec;
pub mod datagram;
pub mod distance;
pub mod fixed_sizes;
pub mod kademlia;
pub mod miner;
pub mod key;
pub mod node;
pub mod routing_table;
pub mod server;
pub mod service;
