//! Bridge to a Cypress-FX3-class logic-analyzer front end running a
//! sigrok-compatible capture firmware.
//!
//! The crate covers the pure core of the bridge: the firmware image
//! parser and checksum validator, the chunked control-write planner, the
//! device discovery state machine, the acquisition command encoder, and
//! the sample-word codec of the streaming acquisition engine.  The USB
//! transfers themselves are performed by the surrounding application,
//! which drives the state machines and codecs defined here.

pub mod fx3_programmer;
pub mod fx3lafw;
pub mod words;
