//! The coordination core of a small network of mutually distrusting
//! authority nodes: peers discover each other and form a fixed-size quorum,
//! jointly run a distributed key generation to obtain a shared threshold
//! signing capability, and then serve discovery and spend-recording
//! requests from wallet clients, which broadcast to every member and
//! collect one acknowledging share from each.
//!
//! Every decision lives here and is verified: the registry and its one-shot
//! quorum gate, the relaying of key-generation rounds, the not-ready guard,
//! durability before acknowledgment, log replay, and the client's
//! all-or-nothing broadcast. The cryptography, the ledger and the transport
//! are collaborators reached through narrow trusted functions: handlers
//! return the deliveries they want made, and the surrounding program moves
//! the bytes.

pub mod peer;
pub mod registry;
pub mod wire;
pub mod dkg;
pub mod spentbook;
pub mod node;
pub mod wallet;
pub mod client;
pub mod codec;
