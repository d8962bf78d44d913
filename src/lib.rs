//! Core of an SCTP association: serial-number arithmetic, the parameter
//! codec, the sender's inflight queue and the receiver's reassembly queue,
//! SACK and FORWARD-TSN handling, the stream table, congestion control and
//! the set-up and tear-down state machine, each with a contract checked by
//! Verus.

pub mod association;
pub mod chunk;
pub mod codec;
pub mod congestion;
pub mod error;
pub mod forward_tsn;
pub mod handshake;
pub mod param;
pub mod queue;
pub mod reassembly;
pub mod serial;
