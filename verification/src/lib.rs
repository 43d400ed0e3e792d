//! Fused four-meter temperature sampling.
//!
//! Four thermocouple meters each report one four-channel reading per round;
//! by deployment invariant each meter carries exactly one finite channel, and
//! the four finite channels together cover the four output positions. This
//! crate fuses one round of readings into a single four-column sample, picks
//! and validates the round timestamp, and renders one CSV line per round.
//!
//! Temperatures are carried in milli-degrees Celsius and timestamps in
//! nanoseconds since the Unix epoch, so that every rule about them is exact.

pub mod error;
pub mod fmt3;
pub mod fuse;
pub mod round;
pub mod timing;

pub use error::RoundError;
pub use fuse::Reading;
pub use round::RunContext;
