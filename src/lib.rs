//! Peer-to-peer file transfer: the tree algebra that decides what to send
//! when resuming, the protocol decisions of both peers, the rendezvous
//! registry that pairs them, and the hole-punch state machine.
pub mod holepunch;
pub mod model;
pub mod pairwise;
pub mod payload;
pub mod progress;
pub mod protocol;
pub mod rendezvous;
pub mod resume;
pub mod tree;
