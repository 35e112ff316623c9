use vstd::prelude::*;

pub mod message;
pub mod node;
pub mod echo;
pub mod unique_ids;
pub mod broadcast_node;
pub mod gcounter;

pub use message::{Body, Event, Init, InitPayload, Message};
pub use node::{InitError, Node};
