//! Decision logic of a low-latency streaming node: encoder selection and
//! tuning, input relaying, session negotiation and the control channel's
//! delivery rules.

pub mod args;
pub mod channel;
pub mod encoder;
pub mod frame;
pub mod gpu;
pub mod input;
pub mod latency;
pub mod messages;
pub mod session;
pub mod text;
