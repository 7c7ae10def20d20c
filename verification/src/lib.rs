//! Converter core for turning one floppy-flux acquisition format into the
//! sample stream a floppy-emulation playback device consumes.
//!
//! The pipeline has three verified stages:
//! - [`decode`]: the source device's escape-coded byte stream is decoded into
//!   per-revolution sequences of flux-transition intervals (source-clock ticks);
//! - [`precomp`]: a write-precompensation pass redistributes timing between
//!   neighbouring transitions at short/long cell boundaries;
//! - [`encode`]: intervals are rescaled into the target tick domain and encoded
//!   as a wrapping 16-bit absolute counter stream.
//!
//! [`clock`] holds the clock-domain constants the stages share, and [`trace`]
//! computes the two-level waveform events behind the optional trace artifact.

pub mod clock;
pub mod decode;
pub mod encode;
pub mod precomp;
pub mod trace;

pub use clock::{ff_ticks, round_us, spec_ff_ticks, spec_round_us};
pub use decode::{decode_stream, DecodeError};
pub use encode::{counter_stream_bytes, encode_revolution};
pub use precomp::apply_precomp;
pub use trace::{trace_events, TraceEvent};
