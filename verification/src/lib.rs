//! Core of a 2D FDTD field simulator doubling as a digital communications
//! testbed. The library holds the exact, integer-and-bit level logic of the
//! system: packet framing and the bit-serial packet decoder, the modulator's
//! symbol sequencing, the demodulator's per-symbol decision rules, parameter
//! validation, and the colour mapping of field samples. The host keeps the
//! real-valued parts (field planes, waveform synthesis, the correlator) and
//! hands this crate plain values.

pub mod color;
pub mod demodulator;
pub mod laws;
pub mod modulator;
pub mod packet;
pub mod parameters;
pub mod text;
