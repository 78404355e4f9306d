//! What the operations of the library are for, stated of all their inputs: each
//! law relates what goes in to what comes out.

pub mod calendar;
pub mod configuration;
pub mod corpus;
pub mod delivery;
pub mod events;
pub mod instants;
pub mod messages;
pub mod naming;
pub mod payloads;
pub mod rendering;
pub mod reporting;
pub mod rewriting;
pub mod sampling;
pub mod texts;
pub mod timestamps;
