//! Telephone events (DTMF) over RTP, RFC 4733.
//!
//! Telephone events carry named signals such as DTMF digits in a dedicated
//! `telephone-event` payload type. Each event is reported by a 4-byte RTP
//! payload that is resent across several packets: the packets of one event
//! share an RTP timestamp, carry a growing duration, and the final packet
//! (with the end bit set) is repeated for robustness (RFC 4733 section 2.5).
//!
//! - [`event`]: the digits, their event codes and dialpad characters.
//! - [`payload`]: the 4-byte wire format.
//! - [`sender`]: turns queued tones into their packet series.
//! - [`receiver`]: aggregates arriving packets into one event per tone.
//! - [`exchange`]: what holds of a sender and a receiver taken together.
//! - [`rtp`], [`time`]: the values that the others carry.

pub mod event;
pub mod exchange;
pub mod payload;
pub mod receiver;
pub mod rtp;
pub mod sender;
pub mod time;
