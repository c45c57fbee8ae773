//! Decoding of Server-Sent-Events byte streams into events.
//!
//! The decoder accepts the body of an event stream in chunks of any size and
//! alignment, splits it into protocol lines, gathers the fields of each event
//! and hands out every event that a blank line completes.

pub mod decoder;
pub mod error;
pub mod event;
pub mod laws;
pub mod round_trip;
pub mod text;

pub use decoder::Decoder;
pub use error::{Error, ErrorView};
pub use event::{Event, EventView};
