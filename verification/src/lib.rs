//! Real-time sound-generation core of a polyphonic synthesiser.
//!
//! The core is an ADSR envelope generator (a per-sample state machine with
//! exact boundary transitions and two curve families), a bounded voice pool
//! that maps note events onto a fixed number of oscillator + envelope pairs
//! with quietest-voice stealing, and a render loop that dispatches
//! sample-accurate events and sums the voices into channel frames.
//!
//! All amplitudes are fixed-point fractions: an integer in `[0, UNIT]`
//! stands for a level in `[0.0, 1.0]`. The host-facing shell converts to
//! floating point at the boundary; nothing inside the core needs floats,
//! which keeps every rule of the scheduler and of the envelope machine
//! provable.

pub mod adsr;
pub mod adsr_props;
pub mod fixed;
pub mod pool;
pub mod render;
pub mod voice;
