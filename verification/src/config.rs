//! Pin assignment of the drive interface, and the operations on pins that
//! the sequencer asks the firmware shell to perform.
//!
//! A 3.5" double-density disk has 80 cylinders, 2 sides, 18 sectors a track
//! and 512 bytes a sector.

use vstd::prelude::*;

verus! {

/// INDEX, input, low once a revolution.
pub const INDEX_PIN: usize = 3;

/// DRIVE SELECT, output, active low.
pub const DRIVE_PIN: usize = 4;

/// MOTOR ENABLE, output, active low.
pub const MOTOR_PIN: usize = 5;

/// DIRECTION, output: low steps towards the spindle, high towards track 0.
pub const DIR_PIN: usize = 6;

/// STEP, output, one pulse a track.
pub const STEP_PIN: usize = 7;

/// WRITE DATA, output.
pub const WRITE_PIN: usize = 8;

/// WRITE GATE, output, active low.
pub const GATE_PIN: usize = 9;

/// TRACK 00, input, active low.
pub const TRACK00_PIN: usize = 10;

/// WRITE PROTECT, input.
pub const WRITE_PROTECT_PIN: usize = 11;

/// READ DATA, input.
pub const READ_PIN: usize = 12;

/// HEAD SELECT, output: high is side 0, low is side 1.
pub const HEAD_SEL_PIN: usize = 14;

/// READY, input.
pub const READY_PIN: usize = 15;

/// Nanoseconds in a millisecond.
pub const MS_TO_NANO: u64 = 1000000;

/// Nanoseconds in a microsecond.
pub const MICRO_TO_NANO: u64 = 1000;

/// Level of an output pin.
#[derive(Copy, Clone, Debug, PartialEq, Eq, Structural)]
pub enum Power {
    High,
    Low,
}

/// Direction of a pin.
#[derive(Copy, Clone, Debug, PartialEq, Eq, Structural)]
pub enum Mode {
    Output,
    Input,
}

/// Internal resistor of a pad.
#[derive(Copy, Clone, Debug, PartialEq, Eq, Structural)]
pub enum PullUpDown {
    PullDown100k,
    PullUp47k,
    PullUp100k,
    PullUp22k,
}

/// Whether a pad keeps its level or pulls it.
#[derive(Copy, Clone, Debug, PartialEq, Eq, Structural)]
pub enum PullKeep {
    Keeper,
    Pull,
}

/// Speed grade of a pad.
#[derive(Copy, Clone, Debug, PartialEq, Eq, Structural)]
pub enum PinSpeed {
    Low50MHz,
    Medium100MHz,
    Fast150MHz,
    Max200MHz,
}

/// Output driver strength of a pad.
#[derive(Copy, Clone, Debug, PartialEq, Eq, Structural)]
pub enum DriveStrength {
    Disabled,
    Max,
    MaxDiv2,
    MaxDiv3,
    MaxDiv4,
    MaxDiv5,
    MaxDiv6,
    MaxDiv7,
}

/// Electrical profile of a pad.
#[derive(Copy, Clone, Debug, PartialEq, Eq, Structural)]
pub struct PadConfig {
    pub hysterisis: bool,
    pub resistance: PullUpDown,
    pub pull_keep: PullKeep,
    pub pull_keep_en: bool,
    pub open_drain: bool,
    pub speed: PinSpeed,
    pub drive_strength: DriveStrength,
    pub fast_slew_rate: bool,
}

/// The profile of the lines that the controller drives.
pub open spec fn output_pad() -> PadConfig {
    PadConfig {
        hysterisis: false,
        resistance: PullUpDown::PullUp100k,
        pull_keep: PullKeep::Keeper,
        pull_keep_en: false,
        open_drain: false,
        speed: PinSpeed::Max200MHz,
        drive_strength: DriveStrength::Max,
        fast_slew_rate: true,
    }
}

/// The profile of the drive's open-collector lines: pulled up with 47 kΩ.
pub open spec fn input_pad() -> PadConfig {
    PadConfig {
        hysterisis: false,
        resistance: PullUpDown::PullUp47k,
        pull_keep: PullKeep::Pull,
        pull_keep_en: true,
        open_drain: true,
        speed: PinSpeed::Max200MHz,
        drive_strength: DriveStrength::Max,
        fast_slew_rate: true,
    }
}

impl PadConfig {
    /// The profile of the lines that the controller drives.
    pub fn output() -> (config: PadConfig)
        ensures
            config == output_pad(),
    {
        PadConfig {
            hysterisis: false,
            resistance: PullUpDown::PullUp100k,
            pull_keep: PullKeep::Keeper,
            pull_keep_en: false,
            open_drain: false,
            speed: PinSpeed::Max200MHz,
            drive_strength: DriveStrength::Max,
            fast_slew_rate: true,
        }
    }

    /// The profile of the lines that the drive drives.
    pub fn input() -> (config: PadConfig)
        ensures
            config == input_pad(),
    {
        PadConfig {
            hysterisis: false,
            resistance: PullUpDown::PullUp47k,
            pull_keep: PullKeep::Pull,
            pull_keep_en: true,
            open_drain: true,
            speed: PinSpeed::Max200MHz,
            drive_strength: DriveStrength::Max,
            fast_slew_rate: true,
        }
    }
}

/// One thing for the firmware shell to do. A script is carried out in order,
/// each operation finished before the next begins.
#[derive(Copy, Clone, Debug, PartialEq, Eq, Structural)]
pub enum PinOp {
    /// Set the electrical profile of a pad.
    Pad { pin: usize, config: PadConfig },
    /// Drive an output pin high or low.
    Out { pin: usize, power: Power },
    /// Make a pin an input or an output.
    Direction { pin: usize, mode: Mode },
    /// Busy-wait for a number of nanoseconds.
    Wait { nanos: u64 },
    /// Emit one write pulse and dwell until `cycles` CPU cycles have passed.
    Pulse { cycles: u32 },
}

} // verus!
