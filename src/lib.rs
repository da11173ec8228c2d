//! A single participant of a simulated message-passing cluster: envelope
//! types, the node state machine interface, and the protocols built on it
//! (echo, unique identifiers, reliable broadcast and gossip anti-entropy).
//! Every protocol is a pure step function from node state and event to the
//! next state and the envelopes to emit; the driver that reads and writes the
//! transport lives outside this library.

pub mod message;
pub mod seqs;
pub mod topology;
mod unique;
pub mod broadcast;
pub mod gossip;
pub mod echo;
pub mod unique_ids;

pub use message::{Body, Event, Init, Message, Node};
