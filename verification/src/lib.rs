//! Core of a serial-communication tool: a protocol-descriptor-driven frame
//! parser, a rate throttler for incoming byte streams, and the state machine
//! of the serial session manager.

pub mod digits;
pub mod fixedpoint;
pub mod hexstr;
pub mod numeric;
pub mod parser;
pub mod protocol;
pub mod session;
pub mod sys;
pub mod throttler;
pub mod text;
