//! Software floppy-disk controller core for a 3.5" double-density drive on a
//! Shugart-style interface: the MFM codec on flux-transition symbols, the
//! sync-mark detector, and the drive sequencer's decisions.
//!
//! Everything here is pure: flux arrives as symbol values, pin activity leaves
//! as scripts of pin operations, and the firmware shell performs the I/O.
//!
//! - `config`: the pin assignment and the pin operations of a script.
//! - `timing`: the cycle budgets of the flux timer and the pulse emitter.
//! - `cells`: the bit-cell model that the codec's contracts are stated in.
//! - `mfm`: symbols, the encoder, and the readers of a captured flux stream.
//! - `decoder`: the byte decoder as a state machine, one symbol at a time.
//! - `sync`: the sync detector as a state machine, and where it stops.
//! - `fdd`: the drive sequencer.
//! - `live`: the write path, taken symbol by symbol as the disk turns.
//! - `laws`: what holds of encoder and decoder together.

pub mod cells;
pub mod config;
pub mod decoder;
pub mod fdd;
pub mod laws;
pub mod live;
pub mod mfm;
pub mod sync;
pub mod timing;
