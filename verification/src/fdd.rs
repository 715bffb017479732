//! The drive sequencer: what to do with the pins, and what to make of the
//! flux, in order to spin the motor, find track 0, step to a cylinder, pick a
//! side, and read or write one sector.
//!
//! The sequencer performs no I/O. It hands out scripts of pin operations and
//! takes in what the firmware shell sampled or captured.

use crate::config::{
    input_pad, output_pad, PadConfig, PinOp, Power, DIR_PIN, DRIVE_PIN, GATE_PIN, HEAD_SEL_PIN,
    INDEX_PIN, MICRO_TO_NANO, MOTOR_PIN, MS_TO_NANO, READY_PIN, READ_PIN, STEP_PIN, TRACK00_PIN,
    WRITE_PIN, WRITE_PROTECT_PIN, Mode,
};
use crate::cells::{decoded, encoded, lemma_encoded_len};
use crate::mfm::{
    field_end, mfm_prepare_write, mfm_read_bytes, mfm_sync, mfm_write_bytes, write_script,
    FluxStream, Symbol,
};
use crate::sync::sync_end;
use vstd::prelude::*;
use vstd::slice::slice_subrange;

verus! {

/// Width of one step pulse.
pub const STEP_PULSE_NS: u64 = 11 * MICRO_TO_NANO;

/// Time the head is given to settle after a step.
pub const STEP_SETTLE_NS: u64 = 3 * MS_TO_NANO;

/// Time the direction line is held before the first step, and time the head
/// rests once track 0 is found.
pub const DIR_SETUP_NS: u64 = 20 * MS_TO_NANO;

/// Time after a change of the drive-select line, and spin-up time.
pub const SELECT_NS: u64 = 500 * MS_TO_NANO;

/// How long the first INDEX pulse is waited for after spin-up.
pub const INDEX_TIMEOUT_NS: u64 = 10000 * MS_TO_NANO;

/// Steps tried towards track 0 before the direction is reversed.
pub const OUTWARD_STEPS: usize = 100;

/// Steps tried in the reverse direction before calibration gives up.
pub const INWARD_STEPS: usize = 20;

/// Revolutions spent on reading one sector.
pub const READ_REVOLUTIONS: usize = 36;

/// Revolutions spent on writing one sector.
pub const WRITE_REVOLUTIONS: usize = 10;

/// Why an operation did not succeed.
#[derive(Copy, Clone, Debug, PartialEq, Eq, Structural)]
pub enum FddError {
    /// INDEX never pulsed after spin-up.
    NoMedia,
    /// TRACK00 never came up during calibration.
    Track0NotFound,
    /// The target address mark did not come by.
    SectorNotFound,
    /// The revolution ended inside a field.
    TruncatedRead,
    /// The medium is write protected.
    WriteProtected,
    /// An address mark named another cylinder than the one asked for.
    WrongTrackDetected,
    /// The byte behind the data field's sync mark was no data mark.
    SyncLostInData,
}

/// One sector as read from the medium: its address field and its data field.
pub struct SectorID {
    pub id: u8,
    pub cylinder: u8,
    pub head: u8,
    pub sector: u8,
    pub size: u8,
    pub crc1: u16,
    pub data: [u8; 512],
    pub crc2: u16,
}

impl SectorID {
    /// A sector with every field zero.
    pub fn new() -> (sector: Self)
        ensures
            sector.id == 0,
            sector.cylinder == 0,
            sector.head == 0,
            sector.sector == 0,
            sector.size == 0,
            sector.crc1 == 0,
            sector.crc2 == 0,
            forall|i: int| 0 <= i < 512 ==> sector.data@[i] == 0,
    {
        SectorID {
            id: 0,
            cylinder: 0,
            head: 0,
            sector: 0,
            size: 0,
            crc1: 0,
            data: [0; 512],
            crc2: 0,
        }
    }
}

/// What the sequencer knows of the drive.
#[derive(Copy, Clone, Debug)]
pub struct Drive {
    /// Whether the spindle is up to speed.
    pub motor_on: bool,
    /// The cylinder under the head, known only once track 0 has been found.
    pub current_track: Option<u8>,
    /// The selected side, 0 or 1.
    pub current_side: u8,
}

impl Drive {
    /// The side is one of the two that a disk has.
    pub open spec fn wf(&self) -> bool {
        self.current_side <= 1
    }

    /// A drive at rest: motor off, track unknown, side 0.
    pub fn new() -> (drive: Drive)
        ensures
            drive.wf(),
            !drive.motor_on,
            drive.current_track.is_none(),
            drive.current_side == 0,
    {
        Drive { motor_on: false, current_track: None, current_side: 0 }
    }
}

/// How to get the head from one cylinder to another.
#[derive(Copy, Clone, Debug, PartialEq, Eq, Structural)]
pub enum Seek {
    /// The track under the head is not known: calibrate first.
    Uncalibrated,
    /// The head is where it should be.
    Stay,
    /// Set the direction line, then step.
    Step { dir: Power, steps: u8 },
}

/// The way from cylinder `from` to cylinder `to`: towards track 0 with the
/// direction line high, away from it with the line low.
pub open spec fn seek_plan(from: u8, to: u8) -> Seek {
    if from == to {
        Seek::Stay
    } else if from > to {
        Seek::Step { dir: Power::High, steps: (from - to) as u8 }
    } else {
        Seek::Step { dir: Power::Low, steps: (to - from) as u8 }
    }
}

/// The level of HEAD SELECT for a side: high for side 0, low for any other.
pub open spec fn side_level(side: u8) -> Power {
    if side == 0 {
        Power::High
    } else {
        Power::Low
    }
}

/// The INDEX bit of the GPIO word that holds it: zero while the pulse is on.
pub fn fdd_read_index(gpio_word: u32) -> (bit: u32)
    ensures
        bit == gpio_word & 0x20,
        bit == 0 || bit == 0x20,
        (bit == 0) == ((gpio_word / 32) % 2 == 0),
{
    let bit: u32 = gpio_word & 0x20;
    assert((bit == 0 || bit == 0x20) && ((bit == 0) == ((gpio_word / 32) % 2 == 0)))
        by (bit_vector)
        requires
            bit == gpio_word & 0x20,
    ;
    bit
}

/// Whether the medium is write protected, from the level read on WRITE
/// PROTECT: the line is active low.
pub fn fdd_read_write_protect(level: u32) -> (protected: bool)
    ensures
        protected == (level == 0),
{
    level == 0
}

/// Whether the head is on track 0, from the level read on TRACK00: the line
/// is active low.
pub fn fdd_sense_track00(level: u32) -> (at_track00: bool)
    ensures
        at_track00 == (level == 0),
{
    level == 0
}

/// Selects a side and returns the level to put on HEAD SELECT.
pub fn fdd_set_side(drive: &mut Drive, side: u8) -> (level: Power)
    ensures
        level == side_level(side),
        final(drive).wf(),
        final(drive).current_side == if side == 0 { 0u8 } else { 1u8 },
        final(drive).motor_on == old(drive).motor_on,
        final(drive).current_track == old(drive).current_track,
{
    if side == 0 {
        drive.current_side = 0;
        Power::High
    } else {
        drive.current_side = 1;
        Power::Low
    }
}

/// Plans the way to `track` and takes the head to be there afterwards. On a
/// drive whose track is not known nothing is planned and nothing changes.
pub fn fdd_set_track(drive: &mut Drive, track: u8) -> (seek: Seek)
    ensures
        final(drive).motor_on == old(drive).motor_on,
        final(drive).current_side == old(drive).current_side,
        old(drive).current_track.is_none() ==> seek == Seek::Uncalibrated,
        old(drive).current_track.is_none() ==> final(drive).current_track.is_none(),
        old(drive).current_track.is_some() ==> seek == seek_plan(
            old(drive).current_track.unwrap(),
            track,
        ),
        old(drive).current_track.is_some() ==> final(drive).current_track == Some(track),
{
    match drive.current_track {
        None => Seek::Uncalibrated,
        Some(cur) => {
            drive.current_track = Some(track);
            if cur == track {
                Seek::Stay
            } else if cur > track {
                Seek::Step { dir: Power::High, steps: cur - track }
            } else {
                Seek::Step { dir: Power::Low, steps: track - cur }
            }
        },
    }
}

/// Takes the head to be on `sampled_track`, as an address mark has shown,
/// and plans the way from there to `desired_track`.
pub fn fdd_fix_track(drive: &mut Drive, desired_track: u8, sampled_track: u8) -> (seek: Seek)
    ensures
        final(drive).motor_on == old(drive).motor_on,
        final(drive).current_side == old(drive).current_side,
        final(drive).current_track == Some(desired_track),
        seek == seek_plan(sampled_track, desired_track),
{
    drive.current_track = Some(sampled_track);
    fdd_set_track(drive, desired_track)
}

/// One step pulse: STEP low for the pulse width, then high while the head
/// settles.
pub open spec fn one_step() -> Seq<PinOp> {
    seq![
        PinOp::Out { pin: STEP_PIN, power: Power::Low },
        PinOp::Wait { nanos: STEP_PULSE_NS },
        PinOp::Out { pin: STEP_PIN, power: Power::High },
        PinOp::Wait { nanos: STEP_SETTLE_NS },
    ]
}

/// `times` step pulses.
pub open spec fn step_script(times: nat) -> Seq<PinOp>
    decreases times,
{
    if times == 0 {
        Seq::empty()
    } else {
        step_script((times - 1) as nat) + one_step()
    }
}

/// Setting the direction line ahead of the first step.
pub open spec fn step_dir_script(dir: Power) -> Seq<PinOp> {
    seq![PinOp::Out { pin: DIR_PIN, power: dir }, PinOp::Wait { nanos: DIR_SETUP_NS }]
}

/// Releasing the drive.
pub open spec fn deselect_script() -> Seq<PinOp> {
    seq![PinOp::Out { pin: DRIVE_PIN, power: Power::High }, PinOp::Wait { nanos: SELECT_NS }]
}

/// Selecting the drive: released first, then selected.
pub open spec fn select_script() -> Seq<PinOp> {
    deselect_script() + seq![
        PinOp::Out { pin: DRIVE_PIN, power: Power::Low },
        PinOp::Wait { nanos: SELECT_NS },
    ]
}

/// The script that carries out a seek: nothing, or the direction line and
/// then the steps.
pub open spec fn seek_script(seek: Seek) -> Seq<PinOp> {
    match seek {
        Seek::Uncalibrated => Seq::empty(),
        Seek::Stay => Seq::empty(),
        Seek::Step { dir, steps } => step_dir_script(dir) + step_script(steps as nat),
    }
}

/// Appends one step pulse to a script.
fn push_step(script: &mut Vec<PinOp>)
    ensures
        final(script)@ == old(script)@ + one_step(),
{
    script.push(PinOp::Out { pin: STEP_PIN, power: Power::Low });
    script.push(PinOp::Wait { nanos: STEP_PULSE_NS });
    script.push(PinOp::Out { pin: STEP_PIN, power: Power::High });
    script.push(PinOp::Wait { nanos: STEP_SETTLE_NS });
    assert(script@ =~= old(script)@ + one_step());
}

/// Appends the steps to a script.
fn push_steps(script: &mut Vec<PinOp>, times: u8)
    ensures
        final(script)@ == old(script)@ + step_script(times as nat),
{
    let mut i: u8 = 0;
    assert(script@ =~= old(script)@ + step_script(0));
    while i < times
        invariant
            0 <= i <= times,
            script@ == old(script)@ + step_script(i as nat),
        decreases times - i,
    {
        push_step(script);
        i += 1;
        assert(script@ =~= old(script)@ + step_script(i as nat));
    }
}

/// Appends the setting of the direction line to a script.
fn push_step_dir(script: &mut Vec<PinOp>, dir: Power)
    ensures
        final(script)@ == old(script)@ + step_dir_script(dir),
{
    script.push(PinOp::Out { pin: DIR_PIN, power: dir });
    script.push(PinOp::Wait { nanos: DIR_SETUP_NS });
    assert(script@ =~= old(script)@ + step_dir_script(dir));
}

/// Appends the release of the drive to a script.
fn push_deselect(script: &mut Vec<PinOp>)
    ensures
        final(script)@ == old(script)@ + deselect_script(),
{
    script.push(PinOp::Out { pin: DRIVE_PIN, power: Power::High });
    script.push(PinOp::Wait { nanos: SELECT_NS });
    assert(script@ =~= old(script)@ + deselect_script());
}

/// Moves the head by `times` tracks in the direction that is set.
pub fn fdd_step(times: u8) -> (script: Vec<PinOp>)
    ensures
        script@ == step_script(times as nat),
{
    let mut script: Vec<PinOp> = Vec::new();
    push_steps(&mut script, times);
    assert(script@ =~= step_script(times as nat));
    script
}

/// Sets the direction line and gives the drive time to latch it.
pub fn fdd_step_dir(dir: Power) -> (script: Vec<PinOp>)
    ensures
        script@ == step_dir_script(dir),
{
    let mut script: Vec<PinOp> = Vec::new();
    push_step_dir(&mut script, dir);
    assert(script@ =~= step_dir_script(dir));
    script
}

/// Makes the drive inactive.
pub fn fdd_drive_deselect() -> (script: Vec<PinOp>)
    ensures
        script@ == deselect_script(),
{
    let mut script: Vec<PinOp> = Vec::new();
    push_deselect(&mut script);
    assert(script@ =~= deselect_script());
    script
}

/// Makes the drive active.
pub fn fdd_drive_select() -> (script: Vec<PinOp>)
    ensures
        script@ == select_script(),
{
    let mut script: Vec<PinOp> = Vec::new();
    push_deselect(&mut script);
    script.push(PinOp::Out { pin: DRIVE_PIN, power: Power::Low });
    script.push(PinOp::Wait { nanos: SELECT_NS });
    assert(script@ =~= select_script());
    script
}

/// Carries out a seek.
pub fn fdd_seek(seek: Seek) -> (script: Vec<PinOp>)
    ensures
        script@ == seek_script(seek),
{
    let mut script: Vec<PinOp> = Vec::new();
    match seek {
        Seek::Uncalibrated => {},
        Seek::Stay => {},
        Seek::Step { dir, steps } => {
            push_step_dir(&mut script, dir);
            push_steps(&mut script, steps);
        },
    }
    assert(script@ =~= seek_script(seek));
    script
}

/// The script that sets up the interface: the driven lines get their pad
/// profile, are put high, which is inactive on every one of them, and are
/// made outputs; the lines that the drive drives are made inputs and get a
/// pull-up.
pub open spec fn init_script() -> Seq<PinOp> {
    seq![
        PinOp::Pad { pin: GATE_PIN, config: output_pad() },
        PinOp::Pad { pin: DIR_PIN, config: output_pad() },
        PinOp::Pad { pin: STEP_PIN, config: output_pad() },
        PinOp::Pad { pin: HEAD_SEL_PIN, config: output_pad() },
        PinOp::Pad { pin: DRIVE_PIN, config: output_pad() },
        PinOp::Pad { pin: MOTOR_PIN, config: output_pad() },
        PinOp::Pad { pin: WRITE_PIN, config: output_pad() },
        PinOp::Out { pin: DRIVE_PIN, power: Power::High },
        PinOp::Out { pin: MOTOR_PIN, power: Power::High },
        PinOp::Out { pin: DIR_PIN, power: Power::High },
        PinOp::Out { pin: STEP_PIN, power: Power::High },
        PinOp::Out { pin: HEAD_SEL_PIN, power: Power::High },
        PinOp::Out { pin: GATE_PIN, power: Power::High },
        PinOp::Out { pin: WRITE_PIN, power: Power::High },
        PinOp::Direction { pin: DIR_PIN, mode: Mode::Output },
        PinOp::Direction { pin: STEP_PIN, mode: Mode::Output },
        PinOp::Direction { pin: GATE_PIN, mode: Mode::Output },
        PinOp::Direction { pin: HEAD_SEL_PIN, mode: Mode::Output },
        PinOp::Direction { pin: WRITE_PIN, mode: Mode::Output },
        PinOp::Direction { pin: DRIVE_PIN, mode: Mode::Output },
        PinOp::Direction { pin: MOTOR_PIN, mode: Mode::Output },
        PinOp::Direction { pin: INDEX_PIN, mode: Mode::Input },
        PinOp::Direction { pin: TRACK00_PIN, mode: Mode::Input },
        PinOp::Direction { pin: WRITE_PROTECT_PIN, mode: Mode::Input },
        PinOp::Direction { pin: READY_PIN, mode: Mode::Input },
        PinOp::Direction { pin: READ_PIN, mode: Mode::Input },
        PinOp::Pad { pin: INDEX_PIN, config: input_pad() },
        PinOp::Pad { pin: TRACK00_PIN, config: input_pad() },
        PinOp::Pad { pin: WRITE_PROTECT_PIN, config: input_pad() },
        PinOp::Pad { pin: READY_PIN, config: input_pad() },
        PinOp::Pad { pin: READ_PIN, config: input_pad() },
    ]
}

/// The script that puts every driven line back to inactive and lets the
/// drive come to rest.
pub open spec fn shutdown_script() -> Seq<PinOp> {
    seq![
        PinOp::Out { pin: DRIVE_PIN, power: Power::High },
        PinOp::Out { pin: MOTOR_PIN, power: Power::High },
        PinOp::Out { pin: DIR_PIN, power: Power::High },
        PinOp::Out { pin: STEP_PIN, power: Power::High },
        PinOp::Out { pin: WRITE_PIN, power: Power::High },
        PinOp::Out { pin: GATE_PIN, power: Power::High },
        PinOp::Out { pin: HEAD_SEL_PIN, power: Power::High },
        PinOp::Wait { nanos: SELECT_NS },
    ]
}

/// Plans the set-up of the interface.
pub fn fdd_init() -> (script: Vec<PinOp>)
    ensures
        script@ == init_script(),
{
    let mut script: Vec<PinOp> = Vec::new();
    script.push(PinOp::Pad { pin: GATE_PIN, config: PadConfig::output() });
    script.push(PinOp::Pad { pin: DIR_PIN, config: PadConfig::output() });
    script.push(PinOp::Pad { pin: STEP_PIN, config: PadConfig::output() });
    script.push(PinOp::Pad { pin: HEAD_SEL_PIN, config: PadConfig::output() });
    script.push(PinOp::Pad { pin: DRIVE_PIN, config: PadConfig::output() });
    script.push(PinOp::Pad { pin: MOTOR_PIN, config: PadConfig::output() });
    script.push(PinOp::Pad { pin: WRITE_PIN, config: PadConfig::output() });
    script.push(PinOp::Out { pin: DRIVE_PIN, power: Power::High });
    script.push(PinOp::Out { pin: MOTOR_PIN, power: Power::High });
    script.push(PinOp::Out { pin: DIR_PIN, power: Power::High });
    script.push(PinOp::Out { pin: STEP_PIN, power: Power::High });
    script.push(PinOp::Out { pin: HEAD_SEL_PIN, power: Power::High });
    script.push(PinOp::Out { pin: GATE_PIN, power: Power::High });
    script.push(PinOp::Out { pin: WRITE_PIN, power: Power::High });
    script.push(PinOp::Direction { pin: DIR_PIN, mode: Mode::Output });
    script.push(PinOp::Direction { pin: STEP_PIN, mode: Mode::Output });
    script.push(PinOp::Direction { pin: GATE_PIN, mode: Mode::Output });
    script.push(PinOp::Direction { pin: HEAD_SEL_PIN, mode: Mode::Output });
    script.push(PinOp::Direction { pin: WRITE_PIN, mode: Mode::Output });
    script.push(PinOp::Direction { pin: DRIVE_PIN, mode: Mode::Output });
    script.push(PinOp::Direction { pin: MOTOR_PIN, mode: Mode::Output });
    script.push(PinOp::Direction { pin: INDEX_PIN, mode: Mode::Input });
    script.push(PinOp::Direction { pin: TRACK00_PIN, mode: Mode::Input });
    script.push(PinOp::Direction { pin: WRITE_PROTECT_PIN, mode: Mode::Input });
    script.push(PinOp::Direction { pin: READY_PIN, mode: Mode::Input });
    script.push(PinOp::Direction { pin: READ_PIN, mode: Mode::Input });
    script.push(PinOp::Pad { pin: INDEX_PIN, config: PadConfig::input() });
    script.push(PinOp::Pad { pin: TRACK00_PIN, config: PadConfig::input() });
    script.push(PinOp::Pad { pin: WRITE_PROTECT_PIN, config: PadConfig::input() });
    script.push(PinOp::Pad { pin: READY_PIN, config: PadConfig::input() });
    script.push(PinOp::Pad { pin: READ_PIN, config: PadConfig::input() });
    assert(script@ =~= init_script());
    script
}

/// Plans turning everything off.
pub fn fdd_shutdown() -> (script: Vec<PinOp>)
    ensures
        script@ == shutdown_script(),
{
    let mut script: Vec<PinOp> = Vec::new();
    script.push(PinOp::Out { pin: DRIVE_PIN, power: Power::High });
    script.push(PinOp::Out { pin: MOTOR_PIN, power: Power::High });
    script.push(PinOp::Out { pin: DIR_PIN, power: Power::High });
    script.push(PinOp::Out { pin: STEP_PIN, power: Power::High });
    script.push(PinOp::Out { pin: WRITE_PIN, power: Power::High });
    script.push(PinOp::Out { pin: GATE_PIN, power: Power::High });
    script.push(PinOp::Out { pin: HEAD_SEL_PIN, power: Power::High });
    script.push(PinOp::Wait { nanos: SELECT_NS });
    assert(script@ =~= shutdown_script());
    script
}

/// What a change of the motor asks for.
#[derive(Debug)]
pub enum MotorPlan {
    /// The motor is already as asked.
    Unchanged,
    /// Run the script; the motor is then off.
    SpinDown(Vec<PinOp>),
    /// Run the script, find track 0, then wait for the INDEX pulse.
    SpinUp(Vec<PinOp>),
}

/// The script that starts the motor: motor line low, then the drive
/// selected, which leaves the spindle half a second to spin up.
pub open spec fn spin_up_script() -> Seq<PinOp> {
    seq![PinOp::Out { pin: MOTOR_PIN, power: Power::Low }] + select_script()
}

/// The script that stops the motor: the drive released, then the motor line
/// high.
pub open spec fn spin_down_script() -> Seq<PinOp> {
    deselect_script() + seq![PinOp::Out { pin: MOTOR_PIN, power: Power::High }]
}

/// Plans a change of the motor.
///
/// Turning the motor off takes effect with the script. Turning it on only
/// starts it: the drive counts as running once `fdd_spin_up` has seen the
/// INDEX pulse.
pub fn fdd_set_motor(drive: &mut Drive, on: bool) -> (plan: MotorPlan)
    ensures
        final(drive).current_track == old(drive).current_track,
        final(drive).current_side == old(drive).current_side,
        on == old(drive).motor_on ==> plan is Unchanged && final(drive).motor_on == on,
        on && !old(drive).motor_on ==> plan is SpinUp && plan->SpinUp_0@ == spin_up_script()
            && !final(drive).motor_on,
        !on && old(drive).motor_on ==> plan is SpinDown && plan->SpinDown_0@ == spin_down_script()
            && !final(drive).motor_on,
{
    if on == drive.motor_on {
        return MotorPlan::Unchanged;
    }
    let mut script: Vec<PinOp> = Vec::new();
    if on {
        script.push(PinOp::Out { pin: MOTOR_PIN, power: Power::Low });
        push_deselect(&mut script);
        script.push(PinOp::Out { pin: DRIVE_PIN, power: Power::Low });
        script.push(PinOp::Wait { nanos: SELECT_NS });
        assert(script@ =~= spin_up_script());
        MotorPlan::SpinUp(script)
    } else {
        push_deselect(&mut script);
        script.push(PinOp::Out { pin: MOTOR_PIN, power: Power::High });
        assert(script@ =~= spin_down_script());
        drive.motor_on = false;
        MotorPlan::SpinDown(script)
    }
}

/// Where the wait for the first INDEX pulse stands.
#[derive(Debug)]
pub enum SpinUp {
    /// No pulse yet and time left: sample INDEX again.
    Waiting,
    /// The pulse came: the motor is on.
    Ready,
    /// No pulse within the time allowed: run the script, which forces the
    /// motor off.
    Failed { error: FddError, script: Vec<PinOp> },
}

/// Judges one sample of INDEX during spin-up.
///
/// `index_low` tells whether the line is at its active, low level;
/// `elapsed_ns` is the time since the wait began. A pulse makes the drive
/// ready whenever it comes. Without one the wait goes on for ten seconds and
/// then fails with no media, the motor line put back high.
pub fn fdd_spin_up(drive: &mut Drive, index_low: bool, elapsed_ns: u64) -> (state: SpinUp)
    ensures
        final(drive).current_track == old(drive).current_track,
        final(drive).current_side == old(drive).current_side,
        index_low ==> state is Ready && final(drive).motor_on,
        !index_low && elapsed_ns < INDEX_TIMEOUT_NS ==> state is Waiting && final(drive).motor_on
            == old(drive).motor_on,
        !index_low && elapsed_ns >= INDEX_TIMEOUT_NS ==> state is Failed && state->error
            == FddError::NoMedia && state->script@ == seq![
            PinOp::Out { pin: MOTOR_PIN, power: Power::High },
        ] && !final(drive).motor_on,
{
    if index_low {
        drive.motor_on = true;
        SpinUp::Ready
    } else if elapsed_ns < INDEX_TIMEOUT_NS {
        SpinUp::Waiting
    } else {
        drive.motor_on = false;
        let mut script: Vec<PinOp> = Vec::new();
        script.push(PinOp::Out { pin: MOTOR_PIN, power: Power::High });
        assert(script@ =~= seq![PinOp::Out { pin: MOTOR_PIN, power: Power::High }]);
        SpinUp::Failed { error: FddError::NoMedia, script }
    }
}

/// What one sample of TRACK00 asks for during calibration.
#[derive(Debug)]
pub enum Calibrate {
    /// Track 0 is under the head after `cycles` steps: run the script, which
    /// lets the head rest.
    Found { cycles: usize, script: Vec<PinOp> },
    /// Not there yet: run the script, then sample again with `cycles`.
    Again { cycles: usize, script: Vec<PinOp> },
    /// Track 0 did not come up: run the script, then give up.
    Failed { error: FddError, script: Vec<PinOp> },
}

/// The script behind a sample that did not show track 0, when `cycles` steps
/// were taken before: one more step, and the direction reversed if that was
/// the last step outwards.
pub open spec fn calibrate_script(cycles: usize) -> Seq<PinOp> {
    if cycles >= OUTWARD_STEPS + INWARD_STEPS {
        Seq::empty()
    } else if cycles + 1 == OUTWARD_STEPS {
        one_step() + step_dir_script(Power::Low)
    } else {
        one_step()
    }
}

/// Whether a sample ends calibration with track 0 found: track 0 shows and
/// the steps are not used up.
pub open spec fn calibrate_finds(cycles: usize, at_track00: bool) -> bool {
    cycles < OUTWARD_STEPS + INWARD_STEPS && at_track00
}

/// Whether a sample is followed by another: track 0 does not show and the
/// step that follows is not the last.
pub open spec fn calibrate_goes_on(cycles: usize, at_track00: bool) -> bool {
    cycles + 1 < OUTWARD_STEPS + INWARD_STEPS && !at_track00
}

/// Whether a sample ends calibration without track 0.
pub open spec fn calibrate_gives_up(cycles: usize, at_track00: bool) -> bool {
    !calibrate_finds(cycles, at_track00) && !calibrate_goes_on(cycles, at_track00)
}

/// Judges one sample of TRACK00 while seeking track 0.
///
/// Calibration starts with the direction line high (`fdd_step_dir`) and
/// `cycles` at 0, and goes on with the `cycles` that the last call handed
/// back. The head is stepped outwards up to a hundred times, then inwards up
/// to twenty times, and TRACK00 is sampled before each step. Finding track 0
/// makes the track known; giving up makes it unknown.
pub fn fdd_seek_track00(drive: &mut Drive, cycles: usize, at_track00: bool) -> (next: Calibrate)
    ensures
        final(drive).motor_on == old(drive).motor_on,
        final(drive).current_side == old(drive).current_side,
        calibrate_finds(cycles, at_track00) ==> next is Found,
        calibrate_finds(cycles, at_track00) ==> next->Found_cycles == cycles,
        calibrate_finds(cycles, at_track00) ==> next->Found_script@ == seq![
            PinOp::Wait { nanos: DIR_SETUP_NS },
        ],
        calibrate_finds(cycles, at_track00) ==> final(drive).current_track == Some(0u8),
        calibrate_goes_on(cycles, at_track00) ==> next is Again,
        calibrate_goes_on(cycles, at_track00) ==> next->Again_cycles == cycles + 1,
        calibrate_goes_on(cycles, at_track00) ==> next->Again_script@ == calibrate_script(cycles),
        calibrate_goes_on(cycles, at_track00) ==> final(drive).current_track == old(
            drive,
        ).current_track,
        calibrate_gives_up(cycles, at_track00) ==> next is Failed,
        calibrate_gives_up(cycles, at_track00) ==> next->Failed_error == FddError::Track0NotFound,
        calibrate_gives_up(cycles, at_track00) ==> next->Failed_script@ == calibrate_script(cycles),
        calibrate_gives_up(cycles, at_track00) ==> final(drive).current_track.is_none(),
{
    let mut script: Vec<PinOp> = Vec::new();
    if cycles >= OUTWARD_STEPS + INWARD_STEPS {
        drive.current_track = None;
        assert(script@ =~= calibrate_script(cycles));
        return Calibrate::Failed { error: FddError::Track0NotFound, script };
    }
    if at_track00 {
        drive.current_track = Some(0);
        script.push(PinOp::Wait { nanos: DIR_SETUP_NS });
        assert(script@ =~= seq![PinOp::Wait { nanos: DIR_SETUP_NS }]);
        return Calibrate::Found { cycles, script };
    }
    push_step(&mut script);
    let taken: usize = cycles + 1;
    if taken == OUTWARD_STEPS {
        push_step_dir(&mut script, Power::Low);
    }
    assert(script@ =~= calibrate_script(cycles));
    if taken == OUTWARD_STEPS + INWARD_STEPS {
        drive.current_track = None;
        Calibrate::Failed { error: FddError::Track0NotFound, script }
    } else {
        Calibrate::Again { cycles: taken, script }
    }
}

// ---------------------------------------------------------------------------
// Fields in a flux stream
// ---------------------------------------------------------------------------

/// The address field of a sector.
#[derive(Copy, Clone, Debug, PartialEq, Eq, Structural)]
pub struct AddressField {
    pub id: u8,
    pub cylinder: u8,
    pub head: u8,
    pub sector: u8,
    pub size: u8,
    pub crc: u16,
}

/// The address field in the seven bytes behind a sync mark. The checksum is
/// taken high byte first and is not checked.
pub open spec fn address_of(header: Seq<u8>) -> AddressField {
    AddressField {
        id: header[0],
        cylinder: header[1],
        head: header[2],
        sector: header[3],
        size: header[4],
        crc: (header[5] * 256 + header[6]) as u16,
    }
}

/// How the search for an address field ended.
#[derive(Copy, Clone, Debug, PartialEq, Eq, Structural)]
pub enum AddressScan {
    /// The address field of the sector asked for.
    Found(AddressField),
    /// An address field of another cylinder, with that cylinder.
    WrongTrack(u8),
    /// The flux ended in the search for a sync mark.
    NotFound,
    /// The flux ended inside the seven bytes behind a sync mark.
    Truncated,
}

/// The byte that marks an address field.
pub const ADDRESS_MARK: u8 = 0xFE;

/// The byte that marks a data field.
pub const DATA_MARK: u8 = 0xFB;

/// The byte that marks a deleted data field.
pub const DELETED_DATA_MARK: u8 = 0xFA;

/// Number of bytes read behind the sync mark of an address field.
pub const HEADER_LEN: usize = 7;

/// Number of bytes read behind the sync mark of a data field: the mark, the
/// payload and the checksum.
pub const DATA_FIELD_LEN: usize = 515;

/// The search for the address field of a sector in `symbols` from position
/// `pos` on, and the position where it ends.
///
/// Behind each sync mark seven bytes are read. An address field of another
/// cylinder ends the search. The address field asked for ends it with
/// success. Anything else, a data field or another sector's address, is
/// passed over, and the search goes on behind those seven bytes.
pub open spec fn find_address(
    symbols: Seq<Symbol>,
    pos: int,
    head: u8,
    cylinder: u8,
    sector: u8,
) -> (AddressScan, int)
    decreases symbols.len() - pos,
{
    let flux = symbols.skip(pos);
    match sync_end(flux) {
        None => (AddressScan::NotFound, symbols.len() as int),
        Some(mark) => {
            let field = flux.skip(mark);
            match decoded(field, HEADER_LEN as nat) {
                None => (AddressScan::Truncated, symbols.len() as int),
                Some(header) => {
                    let end = pos + mark + field_end(field, HEADER_LEN as nat);
                    if header[0] == ADDRESS_MARK && header[1] != cylinder {
                        (AddressScan::WrongTrack(header[1]), end)
                    } else if header[0] == ADDRESS_MARK && header[2] == head && header[3]
                        == sector {
                        (AddressScan::Found(address_of(header)), end)
                    } else if pos < end <= symbols.len() {
                        find_address(symbols, end, head, cylinder, sector)
                    } else {
                        (AddressScan::NotFound, symbols.len() as int)
                    }
                },
            }
        },
    }
}

/// Searches the stream for the address field of a sector.
#[verifier::rlimit(40)]
pub fn fdd_find_address(stream: &mut FluxStream, head: u8, cylinder: u8, sector: u8) -> (scan:
    AddressScan)
    requires
        old(stream).wf(),
    ensures
        final(stream).wf(),
        final(stream).symbols() == old(stream).symbols(),
        old(stream).pos() <= final(stream).pos() <= old(stream).symbols().len(),
        (scan, final(stream).pos()) == find_address(
            old(stream).symbols(),
            old(stream).pos(),
            head,
            cylinder,
            sector,
        ),
{
    let ghost symbols = stream.symbols();
    let ghost start = stream.pos();
    loop
        invariant
            stream.wf(),
            stream.symbols() == symbols,
            symbols == old(stream).symbols(),
            start == old(stream).pos(),
            start <= stream.pos() <= symbols.len(),
            find_address(symbols, stream.pos(), head, cylinder, sector) == find_address(
                symbols,
                start,
                head,
                cylinder,
                sector,
            ),
        decreases symbols.len() - stream.pos(),
    {
        let ghost pos = stream.pos();
        let ghost flux = symbols.skip(pos);
        if !mfm_sync(stream) {
            return AddressScan::NotFound;
        }
        let ghost mark = stream.pos() - pos;
        assert(flux.skip(mark) =~= symbols.skip(pos + mark));
        let mut header: [u8; 7] = [0; 7];
        if !mfm_read_bytes(stream, &mut header) {
            return AddressScan::Truncated;
        }
        if header[0] == ADDRESS_MARK && header[1] != cylinder {
            return AddressScan::WrongTrack(header[1]);
        } else if header[0] == ADDRESS_MARK && header[2] == head && header[3] == sector {
            let crc: u16 = (header[5] as u16) * 256 + (header[6] as u16);
            return AddressScan::Found(
                AddressField {
                    id: header[0],
                    cylinder: header[1],
                    head: header[2],
                    sector: header[3],
                    size: header[4],
                    crc,
                },
            );
        }
    }
}

/// The `n` bytes behind the next sync mark in `symbols` from position `pos`
/// on. Flux that ends before the mark or inside the bytes is a truncated
/// read.
pub open spec fn field_behind_mark(symbols: Seq<Symbol>, pos: int, n: nat) -> Result<
    Seq<u8>,
    FddError,
> {
    let flux = symbols.skip(pos);
    match sync_end(flux) {
        None => Err(FddError::TruncatedRead),
        Some(mark) => match decoded(flux.skip(mark), n) {
            None => Err(FddError::TruncatedRead),
            Some(bytes) => Ok(bytes),
        },
    }
}

/// Where reading the `n` bytes behind the next sync mark stops: behind the
/// symbol that completes them, or at the end of the flux.
pub open spec fn field_stop(symbols: Seq<Symbol>, pos: int, n: nat) -> int {
    let flux = symbols.skip(pos);
    match sync_end(flux) {
        None => symbols.len() as int,
        Some(mark) => match decoded(flux.skip(mark), n) {
            None => symbols.len() as int,
            Some(_) => pos + mark + field_end(flux.skip(mark), n),
        },
    }
}

/// Whether a byte marks a data field, deleted or not.
pub open spec fn is_data_mark(byte: u8) -> bool {
    byte == DATA_MARK || byte == DELETED_DATA_MARK
}

/// The data field behind the next sync mark: the mark byte, 512 bytes of
/// payload and two bytes of checksum. A first byte that is no data mark
/// means that sync was lost.
pub open spec fn data_field(symbols: Seq<Symbol>, pos: int) -> Result<Seq<u8>, FddError> {
    match field_behind_mark(symbols, pos, DATA_FIELD_LEN as nat) {
        Err(e) => Err(e),
        Ok(field) => if is_data_mark(field[0]) {
            Ok(field)
        } else {
            Err(FddError::SyncLostInData)
        },
    }
}

/// What one pass over `symbols` from position `pos` on reads of a sector: its
/// address field and the bytes of its data field, or the reason why not.
pub open spec fn read_pass(symbols: Seq<Symbol>, pos: int, head: u8, cylinder: u8, sector: u8)
    -> Result<(AddressField, Seq<u8>), FddError> {
    let (scan, end) = find_address(symbols, pos, head, cylinder, sector);
    match scan {
        AddressScan::NotFound => Err(FddError::SectorNotFound),
        AddressScan::Truncated => Err(FddError::TruncatedRead),
        AddressScan::WrongTrack(_) => Err(FddError::WrongTrackDetected),
        AddressScan::Found(address) => match data_field(symbols, end) {
            Err(e) => Err(e),
            Ok(field) => Ok((address, field)),
        },
    }
}

/// Where a read pass stops: behind the data field of the sector, or where
/// the search for its address field ended.
pub open spec fn read_stop(symbols: Seq<Symbol>, pos: int, head: u8, cylinder: u8, sector: u8)
    -> int {
    let (scan, end) = find_address(symbols, pos, head, cylinder, sector);
    match scan {
        AddressScan::Found(_) => field_stop(symbols, end, DATA_FIELD_LEN as nat),
        _ => end,
    }
}

/// The track that the sequencer takes the head to be on after a search: the
/// cylinder that an address field of another cylinder named, or else the
/// track as before.
pub open spec fn track_after(scan: AddressScan, before: Option<u8>) -> Option<u8> {
    match scan {
        AddressScan::WrongTrack(observed) => Some(observed),
        _ => before,
    }
}

/// Whether `sector` holds an address field and the bytes of a data field.
/// Both checksums are taken high byte first and are not checked.
pub open spec fn sector_holds(sector: SectorID, address: AddressField, field: Seq<u8>) -> bool {
    &&& sector.id == address.id
    &&& sector.cylinder == address.cylinder
    &&& sector.head == address.head
    &&& sector.sector == address.sector
    &&& sector.size == address.size
    &&& sector.crc1 == address.crc
    &&& sector.data@ == field.subrange(1, 513)
    &&& sector.crc2 == field[513] * 256 + field[514]
}

/// Reads the bytes behind the next sync mark into `arr`.
fn read_field(stream: &mut FluxStream, arr: &mut [u8]) -> (ok: bool)
    requires
        old(stream).wf(),
    ensures
        final(stream).wf(),
        final(stream).symbols() == old(stream).symbols(),
        old(stream).pos() <= final(stream).pos() <= old(stream).symbols().len(),
        final(arr)@.len() == old(arr)@.len(),
        ok == field_behind_mark(
            old(stream).symbols(),
            old(stream).pos(),
            old(arr)@.len(),
        ).is_ok(),
        ok ==> final(arr)@ == field_behind_mark(
            old(stream).symbols(),
            old(stream).pos(),
            old(arr)@.len(),
        ).unwrap(),
        final(stream).pos() == field_stop(
            old(stream).symbols(),
            old(stream).pos(),
            old(arr)@.len(),
        ),
{
    let ghost symbols = stream.symbols();
    let ghost pos = stream.pos();
    let ghost flux = symbols.skip(pos);
    if !mfm_sync(stream) {
        return false;
    }
    assert(flux.skip(stream.pos() - pos) =~= symbols.skip(stream.pos()));
    mfm_read_bytes(stream, arr)
}

/// Reads one sector from the flux of one revolution.
///
/// The side must be selected and the head on the cylinder before the flux
/// is captured. The stream is searched for the sector's address field; the
/// data field behind it is read and returned with it. An address field of
/// another cylinder ends the pass at once: the drive's track is set to that
/// cylinder, so that the next seek starts from where the head really is.
#[verifier::rlimit(40)]
pub fn fdd_read_sector(
    drive: &mut Drive,
    stream: &mut FluxStream,
    head: u8,
    cylinder: u8,
    sector: u8,
) -> (result: Result<SectorID, FddError>)
    requires
        old(stream).wf(),
    ensures
        final(stream).wf(),
        final(stream).symbols() == old(stream).symbols(),
        old(stream).pos() <= final(stream).pos() <= old(stream).symbols().len(),
        final(drive).motor_on == old(drive).motor_on,
        final(drive).current_side == old(drive).current_side,
        final(drive).current_track == track_after(
            find_address(old(stream).symbols(), old(stream).pos(), head, cylinder, sector).0,
            old(drive).current_track,
        ),
        final(stream).pos() == read_stop(
            old(stream).symbols(),
            old(stream).pos(),
            head,
            cylinder,
            sector,
        ),
        match read_pass(old(stream).symbols(), old(stream).pos(), head, cylinder, sector) {
            Ok((address, field)) => result is Ok && sector_holds(result->Ok_0, address, field),
            Err(e) => result is Err && result->Err_0 == e,
        },
{
    let address = match fdd_find_address(stream, head, cylinder, sector) {
        AddressScan::NotFound => {
            return Err(FddError::SectorNotFound);
        },
        AddressScan::Truncated => {
            return Err(FddError::TruncatedRead);
        },
        AddressScan::WrongTrack(observed) => {
            drive.current_track = Some(observed);
            return Err(FddError::WrongTrackDetected);
        },
        AddressScan::Found(address) => address,
    };
    let mut field: [u8; 515] = [0; 515];
    if !read_field(stream, &mut field) {
        return Err(FddError::TruncatedRead);
    }
    if field[0] != DATA_MARK && field[0] != DELETED_DATA_MARK {
        return Err(FddError::SyncLostInData);
    }
    let mut ret = SectorID::new();
    ret.id = address.id;
    ret.cylinder = address.cylinder;
    ret.head = address.head;
    ret.sector = address.sector;
    ret.size = address.size;
    ret.crc1 = address.crc;
    let mut i: usize = 0;
    while i < 512
        invariant
            0 <= i <= 512,
            ret.id == address.id,
            ret.cylinder == address.cylinder,
            ret.head == address.head,
            ret.sector == address.sector,
            ret.size == address.size,
            ret.crc1 == address.crc,
            forall|j: int| 0 <= j < i ==> ret.data@[j] == field@[j + 1],
        decreases 512 - i,
    {
        ret.data[i] = field[i + 1];
        i += 1;
    }
    ret.crc2 = (field[513] as u16) * 256 + (field[514] as u16);
    assert(ret.data@ =~= field@.subrange(1, 513));
    Ok(ret)
}

/// What one pass over `symbols` from position `pos` on finds for a write: the
/// flux to put in place of the sector's data field, or the reason why not.
///
/// Write protection is looked at first. Then the sector's address field must
/// come by, and behind the next sync mark a data mark. What is written is
/// the encoding of a data mark and the payload; no checksum is added.
pub open spec fn write_pass(
    symbols: Seq<Symbol>,
    pos: int,
    write_protected: bool,
    head: u8,
    cylinder: u8,
    sector: u8,
    data: Seq<u8>,
) -> Result<Seq<Symbol>, FddError> {
    if write_protected {
        Err(FddError::WriteProtected)
    } else {
        let (scan, end) = find_address(symbols, pos, head, cylinder, sector);
        match scan {
            AddressScan::NotFound => Err(FddError::SectorNotFound),
            AddressScan::Truncated => Err(FddError::TruncatedRead),
            AddressScan::WrongTrack(_) => Err(FddError::WrongTrackDetected),
            AddressScan::Found(_) => match field_behind_mark(symbols, end, 1) {
                Err(e) => Err(e),
                Ok(mark) => if is_data_mark(mark[0]) {
                    Ok(encoded(DATA_MARK, data))
                } else {
                    Err(FddError::SyncLostInData)
                },
            },
        }
    }
}

/// Where a write pass stops: where it began on a protected medium, else
/// behind the data mark of the sector, or where the search for its address
/// field ended.
pub open spec fn write_stop(
    symbols: Seq<Symbol>,
    pos: int,
    write_protected: bool,
    head: u8,
    cylinder: u8,
    sector: u8,
) -> int {
    if write_protected {
        pos
    } else {
        let (scan, end) = find_address(symbols, pos, head, cylinder, sector);
        match scan {
            AddressScan::Found(_) => field_stop(symbols, end, 1),
            _ => end,
        }
    }
}

/// Encodes the new data field and plans its emission.
pub fn fdd_data_field_script(data: &[u8]) -> (script: Vec<PinOp>)
    requires
        data@.len() == 512,
    ensures
        script@ == write_script(encoded(DATA_MARK, data@)),
{
    let mut flux_signals: [Symbol; 4105] = [Symbol::Pulse10; 4105];
    proof {
        lemma_encoded_len(DATA_MARK, data@);
    }
    let signal_count = mfm_prepare_write(DATA_MARK, data, &mut flux_signals);
    let flux = slice_subrange(flux_signals.as_slice(), 0, signal_count);
    assert(flux@ =~= encoded(DATA_MARK, data@));
    mfm_write_bytes(flux)
}

/// Write protection. On a protected medium a write pass fails as write
/// protected and stops where it began, whatever the flux holds and whatever
/// sector and payload were asked for: no script is planned, so WRITE GATE is
/// never driven and no pulse is emitted.
pub proof fn lemma_write_protected_plans_nothing(
    symbols: Seq<Symbol>,
    pos: int,
    head: u8,
    cylinder: u8,
    sector: u8,
    data: Seq<u8>,
)
    ensures
        write_pass(symbols, pos, true, head, cylinder, sector, data) == Err::<
            Seq<Symbol>,
            FddError,
        >(FddError::WriteProtected),
        write_stop(symbols, pos, true, head, cylinder, sector) == pos,
{
}

/// A failed write pass plans nothing: only a pass that found the sector's
/// address field and a data mark behind it hands out a script.
pub proof fn lemma_failed_write_plans_nothing(
    symbols: Seq<Symbol>,
    pos: int,
    write_protected: bool,
    head: u8,
    cylinder: u8,
    sector: u8,
    data: Seq<u8>,
)
    requires
        write_pass(symbols, pos, write_protected, head, cylinder, sector, data) is Ok,
    ensures
        !write_protected,
        find_address(symbols, pos, head, cylinder, sector).0 is Found,
        field_behind_mark(
            symbols,
            find_address(symbols, pos, head, cylinder, sector).1,
            1,
        ) is Ok,
        is_data_mark(
            field_behind_mark(
                symbols,
                find_address(symbols, pos, head, cylinder, sector).1,
                1,
            ).unwrap()[0],
        ),
{
}

/// Plans the write of one sector from the flux of one revolution.
///
/// `write_protected` is the state of the WRITE PROTECT line, sampled before
/// anything else. On a protected medium the call fails at once and plans
/// nothing, so the write gate is never touched. Otherwise the stream is
/// searched for the sector's address field and for the data mark behind it,
/// and the script returned asserts WRITE GATE, emits the new data field and
/// releases WRITE GATE again. A wrong track is handled as in `fdd_read_sector`.
///
/// The pass works on a capture, which is behind the disk by the time it is
/// looked at. `live::WriteWatch` makes the same search symbol by symbol as the
/// disk turns, so that the script can be run the moment the data mark has
/// gone by; `live::lemma_live_is_the_pass` shows that both find the same.
#[verifier::rlimit(40)]
pub fn fdd_write_sector(
    drive: &mut Drive,
    stream: &mut FluxStream,
    write_protected: bool,
    head: u8,
    cylinder: u8,
    sector: u8,
    data: &[u8],
) -> (result: Result<Vec<PinOp>, FddError>)
    requires
        old(stream).wf(),
        !write_protected ==> data@.len() == 512,
    ensures
        final(stream).wf(),
        final(stream).symbols() == old(stream).symbols(),
        old(stream).pos() <= final(stream).pos() <= old(stream).symbols().len(),
        final(drive).motor_on == old(drive).motor_on,
        final(drive).current_side == old(drive).current_side,
        write_protected ==> result is Err && result->Err_0 == FddError::WriteProtected,
        write_protected ==> final(drive).current_track == old(drive).current_track,
        write_protected ==> final(stream).pos() == old(stream).pos(),
        final(stream).pos() == write_stop(
            old(stream).symbols(),
            old(stream).pos(),
            write_protected,
            head,
            cylinder,
            sector,
        ),
        !write_protected ==> final(drive).current_track == track_after(
            find_address(old(stream).symbols(), old(stream).pos(), head, cylinder, sector).0,
            old(drive).current_track,
        ),
        match write_pass(
            old(stream).symbols(),
            old(stream).pos(),
            write_protected,
            head,
            cylinder,
            sector,
            data@,
        ) {
            Ok(flux) => result is Ok && result->Ok_0@ == write_script(flux),
            Err(e) => result is Err && result->Err_0 == e,
        },
{
    if write_protected {
        return Err(FddError::WriteProtected);
    }
    let script = fdd_data_field_script(data);
    match fdd_find_address(stream, head, cylinder, sector) {
        AddressScan::NotFound => {
            return Err(FddError::SectorNotFound);
        },
        AddressScan::Truncated => {
            return Err(FddError::TruncatedRead);
        },
        AddressScan::WrongTrack(observed) => {
            drive.current_track = Some(observed);
            return Err(FddError::WrongTrackDetected);
        },
        AddressScan::Found(_) => {},
    }
    let mut byte_buf: [u8; 1] = [0; 1];
    if !read_field(stream, &mut byte_buf) {
        return Err(FddError::TruncatedRead);
    }
    if byte_buf[0] == DATA_MARK || byte_buf[0] == DELETED_DATA_MARK {
        Ok(script)
    } else {
        Err(FddError::SyncLostInData)
    }
}

/// What to do after a pass that failed.
#[derive(Copy, Clone, Debug, PartialEq, Eq, Structural)]
pub enum Retry {
    /// Capture the next revolution and try again.
    Again,
    /// Seek the cylinder again, then capture and try again.
    Reseek,
    /// Give up with this error.
    GiveUp(FddError),
}

/// Whether a pass that ended in `error` has spent one revolution and may be
/// followed by another: the flux ran out, or the head was on another
/// cylinder.
pub open spec fn lost_revolution(error: FddError) -> bool {
    error == FddError::SectorNotFound || error == FddError::TruncatedRead || error
        == FddError::WrongTrackDetected
}

/// How to go on after a failed pass, when `revolutions` were spent before
/// and `limit` are allowed.
///
/// Every pass that did not show the sector is one revolution spent, whatever
/// it showed instead. While the revolution just spent is not the last one
/// allowed, the answer is to try again, behind a new seek if the head was
/// on another cylinder. With the last one spent the sector counts as not
/// found. Any other error is final.
pub open spec fn retry_after(error: FddError, revolutions: usize, limit: usize) -> Retry {
    if !lost_revolution(error) {
        Retry::GiveUp(error)
    } else if revolutions + 1 >= limit {
        Retry::GiveUp(FddError::SectorNotFound)
    } else if error == FddError::WrongTrackDetected {
        Retry::Reseek
    } else {
        Retry::Again
    }
}

/// Decides how to go on after a failed pass and counts the revolution.
///
/// `revolutions` counts the revolutions spent so far and `limit` is the
/// number allowed: `READ_REVOLUTIONS` for a read, `WRITE_REVOLUTIONS` for a
/// write. Every answer but giving up raises the count by one and leaves it
/// below the limit, so a loop that follows the answers makes at most `limit`
/// passes.
pub fn fdd_retry(error: FddError, revolutions: &mut usize, limit: usize) -> (retry: Retry)
    ensures
        retry == retry_after(error, *old(revolutions), limit),
        retry is GiveUp ==> *final(revolutions) == *old(revolutions),
        !(retry is GiveUp) ==> *final(revolutions) == *old(revolutions) + 1,
        !(retry is GiveUp) ==> *final(revolutions) < limit,
{
    match error {
        FddError::WrongTrackDetected | FddError::SectorNotFound | FddError::TruncatedRead => {
            if *revolutions < limit && *revolutions + 1 < limit {
                *revolutions = *revolutions + 1;
                match error {
                    FddError::WrongTrackDetected => Retry::Reseek,
                    _ => Retry::Again,
                }
            } else {
                Retry::GiveUp(FddError::SectorNotFound)
            }
        },
        _ => Retry::GiveUp(error),
    }
}

/// Bounded retry. Whatever the passes show in place of the sector, flux that
/// ran out or another cylinder in any order, the answer to pass number
/// `limit` is to give up with sector not found, and no earlier pass gets that
/// answer: a read ends with its 36th revolution, a write with its 10th.
pub proof fn lemma_retry_is_bounded(errors: Seq<FddError>, limit: usize, pass: nat)
    requires
        limit > 0,
        pass < limit,
        errors.len() >= limit,
        forall|i: int| 0 <= i < errors.len() ==> lost_revolution(#[trigger] errors[i]),
    ensures
        pass + 1 < limit ==> !(retry_after(errors[pass as int], pass as usize, limit) is GiveUp),
        pass + 1 == limit ==> retry_after(errors[pass as int], pass as usize, limit)
            == Retry::GiveUp(FddError::SectorNotFound),
{
    assert(lost_revolution(errors[pass as int]));
}

} // verus!
