//! Streaming of target-side log output over a real-time transfer channel.
//!
//! The embedded half is a ring-buffer byte sink ([`ring`]) and a log sink
//! that writes whole records into it ([`sink`]). The host half computes where
//! the channel's control block may live ([`region`], [`image`]), decides how
//! to attach to it ([`attach`]) and what to forward once attached ([`pump`]).

pub mod attach;
pub mod image;
pub mod pump;
pub mod region;
pub mod ring;
pub mod sink;
