use floppy_mfm::config::{
    Mode, PadConfig, PinOp, Power, PullUpDown, DIR_PIN, DRIVE_PIN, GATE_PIN, HEAD_SEL_PIN,
    INDEX_PIN, MOTOR_PIN, READY_PIN, READ_PIN, STEP_PIN, TRACK00_PIN, WRITE_PIN,
    WRITE_PROTECT_PIN,
};
use floppy_mfm::fdd::{
    fdd_drive_deselect, fdd_drive_select, fdd_find_address, fdd_fix_track, fdd_init,
    fdd_read_index, fdd_read_sector, fdd_read_write_protect, fdd_retry, fdd_seek,
    fdd_seek_track00, fdd_sense_track00, fdd_set_motor, fdd_set_side, fdd_set_track,
    fdd_shutdown, fdd_spin_up, fdd_step, fdd_step_dir, fdd_write_sector, AddressField,
    AddressScan, Calibrate, Drive, FddError, MotorPlan, Retry, SectorID, Seek, SpinUp,
    READ_REVOLUTIONS, WRITE_REVOLUTIONS,
};
use floppy_mfm::mfm::{mfm_prepare_write, FluxStream, Symbol};

const S: Symbol = Symbol::Pulse10;
const M: Symbol = Symbol::Pulse100;
const L: Symbol = Symbol::Pulse1000;

const MARK: [Symbol; 15] = [M, L, M, L, M, S, L, M, L, M, S, L, M, L, M];

fn behind_mark(lead: u8, bytes: &[u8]) -> Vec<Symbol> {
    assert!(lead >= 0x80);
    let mut flux = vec![S; 8 * (bytes.len() + 1) + 2];
    let count = mfm_prepare_write(lead, bytes, &mut flux[1..]);
    flux.truncate(count + 1);
    flux
}

fn field(lead: u8, bytes: &[u8]) -> Vec<Symbol> {
    let mut flux = vec![S; 100];
    flux.extend(MARK);
    flux.extend(behind_mark(lead, bytes));
    flux
}

fn address(cylinder: u8, head: u8, sector: u8) -> Vec<Symbol> {
    field(0xFE, &[cylinder, head, sector, 2, 0xC1, 0xC2])
}

fn payload(seed: u8) -> Vec<u8> {
    (0..512u32).map(|i| (i as u8).wrapping_mul(7).wrapping_add(seed)).collect()
}

fn data(mark: u8, seed: u8) -> Vec<Symbol> {
    let mut bytes = payload(seed);
    bytes.extend([0xD1, 0xD2]);
    field(mark, &bytes)
}

fn calibrated(track: u8) -> Drive {
    let mut drive = Drive::new();
    drive.current_track = Some(track);
    drive
}

/// Carries out a script on a board of pin levels and tells whether WRITE
/// GATE was ever driven low.
fn run(script: &[PinOp], levels: &mut [Option<Power>; 40]) -> bool {
    let mut gate_low = false;
    for op in script {
        if let PinOp::Out { pin, power } = op {
            levels[*pin] = Some(*power);
            if *pin == GATE_PIN && *power == Power::Low {
                gate_low = true;
            }
        }
    }
    gate_low
}

#[test]
fn address_is_parsed_and_the_data_field_is_looked_for() {
    let flux = address(7, 0, 2);
    let mut stream = FluxStream::new(&flux);
    let scan = fdd_find_address(&mut stream, 0, 7, 2);
    assert_eq!(
        scan,
        AddressScan::Found(AddressField {
            id: 0xFE,
            cylinder: 7,
            head: 0,
            sector: 2,
            size: 2,
            crc: 0xC1C2,
        })
    );
    assert_eq!(stream.position(), flux.len());

    // The whole read goes on to look for the data field and runs out of flux.
    let mut drive = calibrated(7);
    let mut stream = FluxStream::new(&flux);
    let result = fdd_read_sector(&mut drive, &mut stream, 0, 7, 2);
    assert_eq!(result.err(), Some(FddError::TruncatedRead));
    assert_eq!(stream.position(), flux.len());
    assert_eq!(drive.current_track, Some(7));
}

#[test]
fn wrong_cylinder_is_recorded_and_the_data_field_is_left_alone() {
    let mut flux = address(9, 0, 2);
    let header_end = flux.len();
    flux.extend(data(0xFB, 1));
    let mut drive = calibrated(7);
    let mut stream = FluxStream::new(&flux);
    let result = fdd_read_sector(&mut drive, &mut stream, 0, 7, 2);
    assert_eq!(result.err(), Some(FddError::WrongTrackDetected));
    assert_eq!(drive.current_track, Some(9));
    assert_eq!(stream.position(), header_end);
    // The next seek starts from the cylinder that was seen.
    assert_eq!(fdd_set_track(&mut drive, 7), Seek::Step { dir: Power::High, steps: 2 });
    assert_eq!(drive.current_track, Some(7));
}

#[test]
fn a_sector_is_read_with_both_fields() {
    let mut flux = address(7, 0, 2);
    flux.extend(data(0xFB, 3));
    flux.extend(vec![S; 50]);
    let mut drive = calibrated(7);
    let mut stream = FluxStream::new(&flux);
    let sector = fdd_read_sector(&mut drive, &mut stream, 0, 7, 2).ok().unwrap();
    assert_eq!(sector.id, 0xFE);
    assert_eq!(sector.cylinder, 7);
    assert_eq!(sector.head, 0);
    assert_eq!(sector.sector, 2);
    assert_eq!(sector.size, 2);
    assert_eq!(sector.crc1, 0xC1C2);
    assert_eq!(&sector.data[..], &payload(3)[..]);
    assert_eq!(sector.crc2, 0xD1D2);
    assert_eq!(stream.position(), flux.len() - 50);
    assert_eq!(drive.current_track, Some(7));
}

#[test]
fn a_deleted_data_mark_is_read_too() {
    let mut flux = address(0, 1, 18);
    flux.extend(data(0xFA, 9));
    let mut drive = calibrated(0);
    let mut stream = FluxStream::new(&flux);
    let sector = fdd_read_sector(&mut drive, &mut stream, 1, 0, 18).ok().unwrap();
    assert_eq!(&sector.data[..], &payload(9)[..]);
}

#[test]
fn other_sectors_are_passed_over() {
    let mut flux = address(7, 0, 1);
    flux.extend(data(0xFB, 1));
    flux.extend(address(7, 1, 2));
    flux.extend(data(0xFB, 2));
    flux.extend(address(7, 0, 2));
    flux.extend(data(0xFB, 3));
    let mut drive = calibrated(7);
    let mut stream = FluxStream::new(&flux);
    let sector = fdd_read_sector(&mut drive, &mut stream, 0, 7, 2).ok().unwrap();
    assert_eq!(sector.sector, 2);
    assert_eq!(sector.head, 0);
    assert_eq!(&sector.data[..], &payload(3)[..]);
}

#[test]
fn a_missing_sector_is_not_found() {
    let mut flux = address(7, 0, 1);
    flux.extend(data(0xFB, 1));
    let mut drive = calibrated(7);
    let mut stream = FluxStream::new(&flux);
    let result = fdd_read_sector(&mut drive, &mut stream, 0, 7, 5);
    assert_eq!(result.err(), Some(FddError::SectorNotFound));
    assert_eq!(stream.position(), flux.len());

    let mut stream = FluxStream::new(&[]);
    assert_eq!(
        fdd_read_sector(&mut drive, &mut stream, 0, 7, 5).err(),
        Some(FddError::SectorNotFound)
    );
    let mut stream = FluxStream::new(&[]);
    assert_eq!(fdd_find_address(&mut stream, 0, 7, 5), AddressScan::NotFound);
}

#[test]
fn a_header_cut_short_is_a_truncated_read() {
    let flux = address(7, 0, 2);
    let mut stream = FluxStream::new(&flux[..flux.len() - 10]);
    assert_eq!(fdd_find_address(&mut stream, 0, 7, 2), AddressScan::Truncated);
    let mut drive = calibrated(7);
    let mut stream = FluxStream::new(&flux[..flux.len() - 10]);
    assert_eq!(
        fdd_read_sector(&mut drive, &mut stream, 0, 7, 2).err(),
        Some(FddError::TruncatedRead)
    );
}

#[test]
fn a_data_field_cut_short_is_a_truncated_read() {
    let mut flux = address(7, 0, 2);
    flux.extend(data(0xFB, 3));
    let mut drive = calibrated(7);
    let mut stream = FluxStream::new(&flux[..flux.len() - 100]);
    assert_eq!(
        fdd_read_sector(&mut drive, &mut stream, 0, 7, 2).err(),
        Some(FddError::TruncatedRead)
    );
}

#[test]
fn a_wrong_data_mark_means_sync_was_lost() {
    let mut flux = address(7, 0, 2);
    flux.extend(data(0xA5, 3));
    let mut drive = calibrated(7);
    let mut stream = FluxStream::new(&flux);
    assert_eq!(
        fdd_read_sector(&mut drive, &mut stream, 0, 7, 2).err(),
        Some(FddError::SyncLostInData)
    );
}

#[test]
fn a_wrong_address_mark_is_passed_over() {
    // A field that names another cylinder but is no address field does not
    // move the track.
    let mut flux = field(0xFB, &[9, 0, 2, 2, 0, 0]);
    flux.extend(address(7, 0, 2));
    flux.extend(data(0xFB, 4));
    let mut drive = calibrated(7);
    let mut stream = FluxStream::new(&flux);
    let sector = fdd_read_sector(&mut drive, &mut stream, 0, 7, 2).ok().unwrap();
    assert_eq!(&sector.data[..], &payload(4)[..]);
    assert_eq!(drive.current_track, Some(7));
}

#[test]
fn write_protection_fails_fast_and_never_asserts_write_gate() {
    let mut flux = address(7, 0, 2);
    flux.extend(data(0xFB, 3));
    let mut drive = calibrated(7);
    let mut stream = FluxStream::new(&flux);
    let result = fdd_write_sector(&mut drive, &mut stream, true, 0, 7, 2, &[0x55; 512]);
    assert_eq!(result.as_ref().err(), Some(&FddError::WriteProtected));
    assert_eq!(stream.position(), 0);
    // Nothing is handed out to run, so the line keeps its idle level.
    let mut levels = [None; 40];
    run(&fdd_init(), &mut levels);
    let script = result.unwrap_or_default();
    assert!(script.is_empty());
    assert!(!run(&script, &mut levels));
    assert_eq!(levels[GATE_PIN], Some(Power::High));
}

#[test]
fn a_write_emits_the_new_data_field_behind_the_data_mark() {
    let mut flux = address(7, 0, 2);
    let mut mark_only = vec![S; 100];
    mark_only.extend(MARK);
    mark_only.extend(behind_mark(0xFB, &[0x00, 0x00]));
    flux.extend(mark_only);
    let mut drive = calibrated(7);
    let mut stream = FluxStream::new(&flux);
    let new_data = [0x55u8; 512];
    let script =
        fdd_write_sector(&mut drive, &mut stream, false, 0, 7, 2, &new_data).ok().unwrap();

    let mut expected = vec![S; 8 * 513 + 1];
    let count = mfm_prepare_write(0xFB, &new_data, &mut expected);
    assert_eq!(script.len(), count + 3);
    assert_eq!(script[0], PinOp::Out { pin: GATE_PIN, power: Power::Low });
    for i in 0..count {
        let cycles = match expected[i] {
            Symbol::Pulse10 => 362,
            Symbol::Pulse100 => 470,
            Symbol::Pulse1000 => 890,
        };
        assert_eq!(script[i + 1], PinOp::Pulse { cycles });
    }
    assert_eq!(script[count + 1], PinOp::Out { pin: GATE_PIN, power: Power::High });
    assert_eq!(script[count + 2], PinOp::Out { pin: WRITE_PIN, power: Power::High });
    let mut levels = [None; 40];
    assert!(run(&script, &mut levels));
    assert_eq!(levels[GATE_PIN], Some(Power::High));
}

#[test]
fn a_write_takes_the_worst_case_payloads() {
    for fill in [0x00u8, 0xFF] {
        let mut flux = address(7, 0, 2);
        flux.extend(data(0xFA, 3));
        let mut drive = calibrated(7);
        let mut stream = FluxStream::new(&flux);
        let script =
            fdd_write_sector(&mut drive, &mut stream, false, 0, 7, 2, &[fill; 512]).ok().unwrap();
        assert!(script.len() > 4000);
    }
}

#[test]
fn a_write_fails_like_a_read() {
    let new_data = [0u8; 512];
    let mut drive = calibrated(7);

    let flux = address(7, 0, 1);
    let mut stream = FluxStream::new(&flux);
    assert_eq!(
        fdd_write_sector(&mut drive, &mut stream, false, 0, 7, 2, &new_data).err(),
        Some(FddError::SectorNotFound)
    );

    let flux = address(7, 0, 2);
    let mut stream = FluxStream::new(&flux);
    assert_eq!(
        fdd_write_sector(&mut drive, &mut stream, false, 0, 7, 2, &new_data).err(),
        Some(FddError::TruncatedRead)
    );

    let mut flux = address(7, 0, 2);
    flux.extend(data(0x81, 3));
    let mut stream = FluxStream::new(&flux);
    assert_eq!(
        fdd_write_sector(&mut drive, &mut stream, false, 0, 7, 2, &new_data).err(),
        Some(FddError::SyncLostInData)
    );

    let flux = address(12, 0, 2);
    let mut stream = FluxStream::new(&flux);
    assert_eq!(
        fdd_write_sector(&mut drive, &mut stream, false, 0, 7, 2, &new_data).err(),
        Some(FddError::WrongTrackDetected)
    );
    assert_eq!(drive.current_track, Some(12));
}

#[test]
fn spin_up_without_index_gives_no_media_and_leaves_the_motor_off() {
    let mut drive = Drive::new();
    let mut levels = [None; 40];
    run(&fdd_init(), &mut levels);
    match fdd_set_motor(&mut drive, true) {
        MotorPlan::SpinUp(script) => {
            assert_eq!(script[0], PinOp::Out { pin: MOTOR_PIN, power: Power::Low });
            run(&script, &mut levels);
        }
        other => panic!("unexpected plan {:?}", other),
    }
    assert_eq!(levels[MOTOR_PIN], Some(Power::Low));
    assert_eq!(levels[DRIVE_PIN], Some(Power::Low));
    assert!(!drive.motor_on);

    // INDEX stays high; one sample every millisecond.
    let mut elapsed_ms: u64 = 0;
    let outcome = loop {
        match fdd_spin_up(&mut drive, false, elapsed_ms * 1_000_000) {
            SpinUp::Waiting => elapsed_ms += 1,
            other => break other,
        }
    };
    assert_eq!(elapsed_ms, 10_000);
    match outcome {
        SpinUp::Failed { error, script } => {
            assert_eq!(error, FddError::NoMedia);
            assert_eq!(script, vec![PinOp::Out { pin: MOTOR_PIN, power: Power::High }]);
            run(&script, &mut levels);
        }
        other => panic!("unexpected outcome {:?}", other),
    }
    assert_eq!(levels[MOTOR_PIN], Some(Power::High));
    assert!(!drive.motor_on);
}

#[test]
fn spin_up_is_ready_with_the_first_index_pulse() {
    let mut drive = Drive::new();
    assert!(matches!(fdd_spin_up(&mut drive, false, 9_999_999_999), SpinUp::Waiting));
    assert!(!drive.motor_on);
    assert!(matches!(fdd_spin_up(&mut drive, true, 3_000_000), SpinUp::Ready));
    assert!(drive.motor_on);
    // A pulse counts whenever it comes.
    let mut drive = Drive::new();
    assert!(matches!(fdd_spin_up(&mut drive, true, u64::MAX), SpinUp::Ready));
}

#[test]
fn motor_plans() {
    let mut drive = Drive::new();
    assert!(matches!(fdd_set_motor(&mut drive, false), MotorPlan::Unchanged));
    drive.motor_on = true;
    assert!(matches!(fdd_set_motor(&mut drive, true), MotorPlan::Unchanged));
    assert!(drive.motor_on);
    match fdd_set_motor(&mut drive, false) {
        MotorPlan::SpinDown(script) => assert_eq!(
            script,
            vec![
                PinOp::Out { pin: DRIVE_PIN, power: Power::High },
                PinOp::Wait { nanos: 500_000_000 },
                PinOp::Out { pin: MOTOR_PIN, power: Power::High },
            ]
        ),
        other => panic!("unexpected plan {:?}", other),
    }
    assert!(!drive.motor_on);
    match fdd_set_motor(&mut drive, true) {
        MotorPlan::SpinUp(script) => assert_eq!(
            script,
            vec![
                PinOp::Out { pin: MOTOR_PIN, power: Power::Low },
                PinOp::Out { pin: DRIVE_PIN, power: Power::High },
                PinOp::Wait { nanos: 500_000_000 },
                PinOp::Out { pin: DRIVE_PIN, power: Power::Low },
                PinOp::Wait { nanos: 500_000_000 },
            ]
        ),
        other => panic!("unexpected plan {:?}", other),
    }
}

/// Runs a calibration against a head that stands `distance` tracks from
/// track 0 and can go no further out, and returns the outcome with the
/// number of step pulses and direction changes that were asked for.
fn calibrate(drive: &mut Drive, distance: usize) -> (Result<usize, FddError>, usize, Vec<Power>) {
    let mut position = distance as i64;
    let mut dir = Power::High;
    let mut dirs = Vec::new();
    let mut pulses = 0;
    let mut follow = |script: &[PinOp], position: &mut i64| {
        for op in script {
            match op {
                PinOp::Out { pin, power } if *pin == DIR_PIN => {
                    dir = *power;
                    dirs.push(*power);
                }
                PinOp::Out { pin, power } if *pin == STEP_PIN && *power == Power::Low => {
                    pulses += 1;
                    match dir {
                        Power::High => *position = (*position - 1).max(-30),
                        Power::Low => *position += 1,
                    }
                }
                _ => {}
            }
        }
    };
    follow(&fdd_step_dir(Power::High), &mut position);
    let mut cycles = 0;
    let result = loop {
        match fdd_seek_track00(drive, cycles, position == 0) {
            Calibrate::Found { cycles, script } => {
                follow(&script, &mut position);
                break Ok(cycles);
            }
            Calibrate::Again { cycles: next, script } => {
                follow(&script, &mut position);
                cycles = next;
            }
            Calibrate::Failed { error, script } => {
                follow(&script, &mut position);
                break Err(error);
            }
        }
    };
    (result, pulses, dirs)
}

#[test]
fn calibration_finds_track_0_on_the_way_out() {
    let mut drive = Drive::new();
    let (result, pulses, dirs) = calibrate(&mut drive, 5);
    assert_eq!(result, Ok(5));
    assert_eq!(pulses, 5);
    assert_eq!(dirs, vec![Power::High]);
    assert_eq!(drive.current_track, Some(0));

    let mut drive = Drive::new();
    let (result, pulses, _) = calibrate(&mut drive, 0);
    assert_eq!((result, pulses), (Ok(0), 0));

    let mut drive = Drive::new();
    let (result, pulses, dirs) = calibrate(&mut drive, 99);
    assert_eq!((result, pulses), (Ok(99), 99));
    assert_eq!(dirs, vec![Power::High]);
}

#[test]
fn calibration_reverses_after_a_hundred_steps() {
    // The head started beyond track 0: it is found ten steps back in.
    let mut drive = Drive::new();
    let (result, pulses, dirs) = calibrate_from_beyond(&mut drive, 10);
    assert_eq!(result, Ok(110));
    assert_eq!(pulses, 110);
    assert_eq!(dirs, vec![Power::High, Power::Low]);
    assert_eq!(drive.current_track, Some(0));
}

/// A head that stands `beyond` tracks on the far side of track 0 after the
/// hundred steps outwards: TRACK00 shows only on the way back.
fn calibrate_from_beyond(
    drive: &mut Drive,
    beyond: usize,
) -> (Result<usize, FddError>, usize, Vec<Power>) {
    let mut dirs = vec![Power::High];
    let mut pulses = 0;
    let mut cycles = 0;
    let mut inward = 0;
    let result = loop {
        let at_track00 = inward == beyond && dirs.len() == 2;
        match fdd_seek_track00(drive, cycles, at_track00) {
            Calibrate::Found { cycles, .. } => break Ok(cycles),
            Calibrate::Again { cycles: next, script } => {
                for op in &script {
                    match op {
                        PinOp::Out { pin, power } if *pin == DIR_PIN => dirs.push(*power),
                        PinOp::Out { pin, power } if *pin == STEP_PIN && *power == Power::Low => {
                            pulses += 1;
                            if dirs.len() == 2 {
                                inward += 1;
                            }
                        }
                        _ => {}
                    }
                }
                cycles = next;
            }
            Calibrate::Failed { error, script } => {
                let step = PinOp::Out { pin: STEP_PIN, power: Power::Low };
                pulses += script.iter().filter(|op| **op == step).count();
                break Err(error);
            }
        }
    };
    (result, pulses, dirs)
}

#[test]
fn calibration_gives_up_after_a_hundred_and_twenty_steps() {
    let mut drive = calibrated(33);
    let (result, pulses, dirs) = calibrate_from_beyond(&mut drive, 50);
    assert_eq!(result, Err(FddError::Track0NotFound));
    assert_eq!(pulses, 120);
    assert_eq!(dirs, vec![Power::High, Power::Low]);
    assert_eq!(drive.current_track, None);
}

#[test]
fn calibration_steps_one_at_a_time() {
    let mut drive = Drive::new();
    match fdd_seek_track00(&mut drive, 0, false) {
        Calibrate::Again { cycles, script } => {
            assert_eq!(cycles, 1);
            assert_eq!(script, fdd_step(1));
        }
        other => panic!("unexpected {:?}", other),
    }
    match fdd_seek_track00(&mut drive, 99, false) {
        Calibrate::Again { cycles, script } => {
            assert_eq!(cycles, 100);
            let mut expected = fdd_step(1);
            expected.extend(fdd_step_dir(Power::Low));
            assert_eq!(script, expected);
        }
        other => panic!("unexpected {:?}", other),
    }
    match fdd_seek_track00(&mut drive, 7, true) {
        Calibrate::Found { cycles, script } => {
            assert_eq!(cycles, 7);
            assert_eq!(script, vec![PinOp::Wait { nanos: 20_000_000 }]);
        }
        other => panic!("unexpected {:?}", other),
    }
    match fdd_seek_track00(&mut drive, 119, false) {
        Calibrate::Failed { error, script } => {
            assert_eq!(error, FddError::Track0NotFound);
            assert_eq!(script, fdd_step(1));
        }
        other => panic!("unexpected {:?}", other),
    }
    match fdd_seek_track00(&mut drive, 120, true) {
        Calibrate::Failed { error, script } => {
            assert_eq!(error, FddError::Track0NotFound);
            assert!(script.is_empty());
        }
        other => panic!("unexpected {:?}", other),
    }
}

#[test]
fn seeks_go_out_with_dir_high_and_in_with_dir_low() {
    let mut drive = Drive::new();
    assert_eq!(fdd_set_track(&mut drive, 7), Seek::Uncalibrated);
    assert_eq!(drive.current_track, None);
    drive.current_track = Some(0);
    assert_eq!(fdd_set_track(&mut drive, 7), Seek::Step { dir: Power::Low, steps: 7 });
    assert_eq!(fdd_set_track(&mut drive, 7), Seek::Stay);
    assert_eq!(fdd_set_track(&mut drive, 79), Seek::Step { dir: Power::Low, steps: 72 });
    assert_eq!(fdd_set_track(&mut drive, 0), Seek::Step { dir: Power::High, steps: 79 });
    assert_eq!(drive.current_track, Some(0));
    assert_eq!(fdd_fix_track(&mut drive, 7, 9), Seek::Step { dir: Power::High, steps: 2 });
    assert_eq!(drive.current_track, Some(7));
    let mut lost = Drive::new();
    assert_eq!(fdd_fix_track(&mut lost, 7, 7), Seek::Stay);
    assert_eq!(lost.current_track, Some(7));
}

#[test]
fn seek_scripts() {
    assert!(fdd_seek(Seek::Stay).is_empty());
    assert!(fdd_seek(Seek::Uncalibrated).is_empty());
    let script = fdd_seek(Seek::Step { dir: Power::Low, steps: 2 });
    assert_eq!(
        script,
        vec![
            PinOp::Out { pin: DIR_PIN, power: Power::Low },
            PinOp::Wait { nanos: 20_000_000 },
            PinOp::Out { pin: STEP_PIN, power: Power::Low },
            PinOp::Wait { nanos: 11_000 },
            PinOp::Out { pin: STEP_PIN, power: Power::High },
            PinOp::Wait { nanos: 3_000_000 },
            PinOp::Out { pin: STEP_PIN, power: Power::Low },
            PinOp::Wait { nanos: 11_000 },
            PinOp::Out { pin: STEP_PIN, power: Power::High },
            PinOp::Wait { nanos: 3_000_000 },
        ]
    );
    assert!(fdd_step(0).is_empty());
    assert_eq!(fdd_step(255).len(), 4 * 255);
    assert_eq!(
        fdd_step_dir(Power::High),
        vec![PinOp::Out { pin: DIR_PIN, power: Power::High }, PinOp::Wait { nanos: 20_000_000 }]
    );
}

#[test]
fn sides() {
    let mut drive = Drive::new();
    assert_eq!(fdd_set_side(&mut drive, 0), Power::High);
    assert_eq!(drive.current_side, 0);
    assert_eq!(fdd_set_side(&mut drive, 1), Power::Low);
    assert_eq!(drive.current_side, 1);
    assert_eq!(fdd_set_side(&mut drive, 5), Power::Low);
    assert_eq!(drive.current_side, 1);
}

#[test]
fn select_and_deselect() {
    assert_eq!(
        fdd_drive_deselect(),
        vec![PinOp::Out { pin: DRIVE_PIN, power: Power::High }, PinOp::Wait { nanos: 500_000_000 }]
    );
    assert_eq!(
        fdd_drive_select(),
        vec![
            PinOp::Out { pin: DRIVE_PIN, power: Power::High },
            PinOp::Wait { nanos: 500_000_000 },
            PinOp::Out { pin: DRIVE_PIN, power: Power::Low },
            PinOp::Wait { nanos: 500_000_000 },
        ]
    );
}

#[test]
fn init_puts_outputs_high_before_they_drive_and_pulls_inputs_up() {
    let script = fdd_init();
    assert_eq!(script.len(), 31);
    let outputs = [GATE_PIN, DIR_PIN, STEP_PIN, HEAD_SEL_PIN, DRIVE_PIN, MOTOR_PIN, WRITE_PIN];
    let inputs = [INDEX_PIN, TRACK00_PIN, WRITE_PROTECT_PIN, READY_PIN, READ_PIN];
    for pin in outputs {
        let high = script
            .iter()
            .position(|op| *op == PinOp::Out { pin, power: Power::High })
            .unwrap();
        let driven = script
            .iter()
            .position(|op| *op == PinOp::Direction { pin, mode: Mode::Output })
            .unwrap();
        assert!(high < driven);
        assert!(script.contains(&PinOp::Pad { pin, config: PadConfig::output() }));
    }
    for pin in inputs {
        assert!(script.contains(&PinOp::Direction { pin, mode: Mode::Input }));
        assert!(script.contains(&PinOp::Pad { pin, config: PadConfig::input() }));
    }
    assert_eq!(PadConfig::input().resistance, PullUpDown::PullUp47k);
    assert!(PadConfig::input().pull_keep_en);
    assert!(PadConfig::input().open_drain);
    assert!(!script.iter().any(|op| matches!(op, PinOp::Out { power: Power::Low, .. })));
    assert_eq!(script[0], PinOp::Pad { pin: GATE_PIN, config: PadConfig::output() });
    assert_eq!(script[7], PinOp::Out { pin: DRIVE_PIN, power: Power::High });
    assert_eq!(script[30], PinOp::Pad { pin: READ_PIN, config: PadConfig::input() });
}

#[test]
fn shutdown_releases_every_line() {
    let mut levels = [None; 40];
    levels[MOTOR_PIN] = Some(Power::Low);
    levels[DRIVE_PIN] = Some(Power::Low);
    let script = fdd_shutdown();
    run(&script, &mut levels);
    for pin in [GATE_PIN, DIR_PIN, STEP_PIN, HEAD_SEL_PIN, DRIVE_PIN, MOTOR_PIN, WRITE_PIN] {
        assert_eq!(levels[pin], Some(Power::High));
    }
    assert_eq!(script.len(), 8);
    assert_eq!(script[7], PinOp::Wait { nanos: 500_000_000 });
}

#[test]
fn retries_are_counted_in_revolutions() {
    assert_eq!(READ_REVOLUTIONS, 36);
    assert_eq!(WRITE_REVOLUTIONS, 10);
    let mut revolutions = 0;
    let mut passes = 1;
    while fdd_retry(FddError::SectorNotFound, &mut revolutions, READ_REVOLUTIONS) == Retry::Again {
        assert_eq!(revolutions, passes);
        passes += 1;
    }
    assert_eq!(passes, 36);
    assert_eq!(
        fdd_retry(FddError::TruncatedRead, &mut revolutions, READ_REVOLUTIONS),
        Retry::GiveUp(FddError::SectorNotFound)
    );

    let mut revolutions = 8;
    assert_eq!(fdd_retry(FddError::TruncatedRead, &mut revolutions, 10), Retry::Again);
    assert_eq!(revolutions, 9);
    assert_eq!(
        fdd_retry(FddError::TruncatedRead, &mut revolutions, 10),
        Retry::GiveUp(FddError::SectorNotFound)
    );
    assert_eq!(revolutions, 9);
    assert_eq!(
        fdd_retry(FddError::SyncLostInData, &mut revolutions, 10),
        Retry::GiveUp(FddError::SyncLostInData)
    );
    assert_eq!(
        fdd_retry(FddError::WriteProtected, &mut revolutions, 10),
        Retry::GiveUp(FddError::WriteProtected)
    );
    assert_eq!(revolutions, 9);
    let mut none = 0;
    assert_eq!(
        fdd_retry(FddError::SectorNotFound, &mut none, 0),
        Retry::GiveUp(FddError::SectorNotFound)
    );
}

#[test]
fn a_wrong_track_costs_a_revolution_too() {
    let mut revolutions = 0;
    assert_eq!(fdd_retry(FddError::WrongTrackDetected, &mut revolutions, 10), Retry::Reseek);
    assert_eq!(revolutions, 1);

    // A head that shows another cylinder on every pass: the tenth pass of a
    // write and the 36th of a read are the last.
    for limit in [WRITE_REVOLUTIONS, READ_REVOLUTIONS] {
        let mut revolutions = 0;
        let mut passes = 1;
        while fdd_retry(FddError::WrongTrackDetected, &mut revolutions, limit) == Retry::Reseek {
            passes += 1;
            assert!(passes <= limit);
        }
        assert_eq!(passes, limit);
        assert_eq!(
            fdd_retry(FddError::WrongTrackDetected, &mut revolutions, limit),
            Retry::GiveUp(FddError::SectorNotFound)
        );
    }

    // Mixed failures are counted alike.
    let mut revolutions = 0;
    let errors =
        [FddError::WrongTrackDetected, FddError::SectorNotFound, FddError::TruncatedRead];
    let mut passes = 0;
    loop {
        passes += 1;
        match fdd_retry(errors[passes % 3], &mut revolutions, WRITE_REVOLUTIONS) {
            Retry::GiveUp(error) => {
                assert_eq!(error, FddError::SectorNotFound);
                break;
            }
            _ => assert_eq!(revolutions, passes),
        }
    }
    assert_eq!(passes, 10);
}

#[test]
fn a_read_of_a_foreign_track_ends_after_36_revolutions() {
    // Every revolution shows cylinder 9 where cylinder 7 is asked for.
    let flux = address(9, 0, 2);
    let mut drive = calibrated(7);
    let mut revolutions = 0;
    let mut passes = 0;
    let result = loop {
        passes += 1;
        let mut stream = FluxStream::new(&flux);
        let error = match fdd_read_sector(&mut drive, &mut stream, 0, 7, 2) {
            Ok(_) => panic!("no such sector"),
            Err(error) => error,
        };
        match fdd_retry(error, &mut revolutions, READ_REVOLUTIONS) {
            Retry::Again => {}
            Retry::Reseek => {
                assert_eq!(fdd_set_track(&mut drive, 7), Seek::Step { dir: Power::High, steps: 2 });
            }
            Retry::GiveUp(error) => break error,
        }
    };
    assert_eq!(result, FddError::SectorNotFound);
    assert_eq!(passes, 36);
}

#[test]
fn input_lines_are_active_low() {
    assert_eq!(fdd_read_index(0xFFFF_FFFF), 0x20);
    assert_eq!(fdd_read_index(0xFFFF_FFDF), 0);
    assert_eq!(fdd_read_index(0x20), 0x20);
    assert_eq!(fdd_read_index(0), 0);
    assert!(fdd_read_write_protect(0));
    assert!(!fdd_read_write_protect(1));
    assert!(!fdd_read_write_protect(0x800));
    assert!(fdd_sense_track00(0));
    assert!(!fdd_sense_track00(4));
}

#[test]
fn a_new_sector_is_blank() {
    let sector = SectorID::new();
    assert_eq!(
        (sector.id, sector.cylinder, sector.head, sector.sector, sector.size),
        (0, 0, 0, 0, 0)
    );
    assert_eq!((sector.crc1, sector.crc2), (0, 0));
    assert!(sector.data.iter().all(|b| *b == 0));
    let drive = Drive::new();
    assert!(!drive.motor_on);
    assert_eq!(drive.current_track, None);
    assert_eq!(drive.current_side, 0);
}
