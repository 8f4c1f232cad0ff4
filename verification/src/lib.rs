//! The receiving half of a libp2p mDNS service: what an mDNS packet says, which
//! peers a response reports, and at which addresses those peers can be dialed.

pub mod address;
pub mod dns;
pub mod ip;
pub mod packet;
pub mod peer;
pub mod response;
mod seqs;
pub mod time;
pub mod zone;
