//! Bridge from a line-oriented aircraft surveillance feed to a periodic
//! position datagram: record parsing and merging, the aircraft registry,
//! broadcast selection and formatting, the callsign cell, and the connection
//! state machine.
pub mod broadcast;
pub mod callsign;
pub mod decimal;
pub mod html;
pub mod laws;
pub mod link;
pub mod record;
pub mod registry;
pub mod snapshot;
pub mod text;
