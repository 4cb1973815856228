//! Decoding of raw channel-state-information frames, their relay encoding,
//! capture framing, and the decisions of the decoder supervisor.

pub mod record;
pub mod frame;
pub mod relay;
pub mod capture;
pub mod supervisor;
pub mod decoder;
pub mod lifecycle;
