//! Timing-synchronized replay of recorded terminal sessions.
//!
//! A recorded session consists of a raw output stream (the typescript) and a
//! companion timing stream of `<delay> <byte-size>` lines. The library parses
//! the timing stream, cuts the typescript into chunks of the declared sizes,
//! and drives a frame-capture state machine that decides, for every record,
//! what to emit, when to capture a frame, and how long to pace. A final
//! assembler turns the accumulated frame list into the argument list of an
//! external encoder invocation.

pub mod assembler;
pub mod coordinator;
pub mod errors;
pub mod reader;
pub mod replay;
pub mod text;
pub mod timing;
pub mod utf8;
