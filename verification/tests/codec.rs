use floppy_mfm::decoder::ByteDecoder;
use floppy_mfm::mfm::{
    mfm_dump_stats, mfm_prepare_write, mfm_read_bytes, mfm_read_flux, mfm_read_sym,
    mfm_write_bytes, simplify, FluxStream, Parity, Symbol,
};
use floppy_mfm::config::{PinOp, Power, GATE_PIN, WRITE_PIN};
use floppy_mfm::timing::{pulse_cycles, T2, T3, T4};

const S: Symbol = Symbol::Pulse10;
const M: Symbol = Symbol::Pulse100;
const L: Symbol = Symbol::Pulse1000;

fn letters(flux: &[Symbol]) -> String {
    let mut out = String::new();
    for sym in flux {
        out.push(match sym {
            Symbol::Pulse10 => 'S',
            Symbol::Pulse100 => 'M',
            Symbol::Pulse1000 => 'L',
        });
    }
    out
}

/// The cells that a run of symbols spans: zeros, then the transition.
fn cells(flux: &[Symbol]) -> String {
    let mut out = String::new();
    for sym in flux {
        out.push_str(match sym {
            Symbol::Pulse10 => "01",
            Symbol::Pulse100 => "001",
            Symbol::Pulse1000 => "0001",
        });
    }
    out
}

fn encode(lead: u8, bytes: &[u8]) -> Vec<Symbol> {
    let mut flux = vec![Symbol::Pulse10; 8 * (bytes.len() + 1) + 1];
    let count = mfm_prepare_write(lead, bytes, &mut flux);
    flux.truncate(count);
    flux
}

/// What the head reads behind a sync mark when the encoding of a field is
/// there: the run up to the field's first transition starts one cell
/// earlier, at the mark's last data bit.
fn behind_mark(lead: u8, bytes: &[u8]) -> Vec<Symbol> {
    let mut flux = encode(lead, bytes);
    if lead >= 0x80 {
        flux.insert(0, Symbol::Pulse10);
    } else {
        flux[0] = match flux[0] {
            Symbol::Pulse10 => Symbol::Pulse100,
            _ => Symbol::Pulse1000,
        };
    }
    flux
}

fn decode(flux: &[Symbol], n: usize) -> Option<Vec<u8>> {
    let mut stream = FluxStream::new(flux);
    let mut out = vec![0u8; n];
    if mfm_read_bytes(&mut stream, &mut out) {
        Some(out)
    } else {
        None
    }
}

#[test]
pub fn test_encoding() {
    let mut flux_signals: [Symbol; 4096] = [Symbol::Pulse10; 4096];
    let signal_counts = mfm_prepare_write(0xFB, &[0xF6, 0xF6, 0xF6, 0xF6, 0xF6], &mut flux_signals);

    let signals = b"SSSSLSSSSSLSLSSSLSLSSSLSLSSSLSLSSSLSM ";
    // assert_eq!(signal_counts, signals.len());

    for i in 0..signal_counts {
        println!("Evaluating signal {i}");
        match signals[i] {
            b'S' => {
                assert_eq!(flux_signals[i] as usize, 0);
            }
            b'M' => {
                assert_eq!(flux_signals[i] as usize, 1);
            }
            _ => {
                assert_eq!(flux_signals[i] as usize, 2);
            }
        }
    }
}

#[test]
fn encoding_has_exact_length_and_leaves_the_rest() {
    let mut flux = [Symbol::Pulse1000; 64];
    let count = mfm_prepare_write(0xFB, &[0xF6, 0xF6, 0xF6, 0xF6, 0xF6], &mut flux);
    assert_eq!(count, 37);
    assert_eq!(letters(&flux[..count]), "SSSSLSSSSSLSLSSSLSLSSSLSLSSSLSLSSSLSM");
    for sym in &flux[count..] {
        assert_eq!(*sym, Symbol::Pulse1000);
    }
}

#[test]
fn expansion_of_3a_before_a_zero_byte() {
    // 0x3A with 0x00 after it expands to 0100101010001001.
    let flux = encode(0x3A, &[]);
    assert_eq!(cells(&flux), "0100101010001001");
    assert_eq!(letters(&flux), "SMSSLM");
}

#[test]
fn expansion_of_3a_before_ff() {
    // With 0xFF after it the last clock bit of 0x3A is clear.
    let flux = encode(0x3A, &[0xFF]);
    assert_eq!(&cells(&flux)[..16], "0100101010001000");
    assert_eq!(letters(&flux), "SMSSLLSSSSSSSS");
}

#[test]
fn decoding_3a_behind_a_mark() {
    // Behind a mark the first interval starts one cell earlier, at the
    // mark's last data bit, so the first symbol is one class longer.
    assert_eq!(decode(&[M, M, S, S, L, M], 1), Some(vec![0x3A]));
    assert_eq!(decode(&[M, M, S, S, L, L], 1), Some(vec![0x3A]));
}

#[test]
fn round_trip_of_3a_with_either_follower() {
    assert_eq!(letters(&behind_mark(0x3A, &[])), "MMSSLM");
    assert_eq!(decode(&behind_mark(0x3A, &[]), 1), Some(vec![0x3A]));
    assert_eq!(decode(&behind_mark(0x3A, &[0x00]), 1), Some(vec![0x3A]));
    assert_eq!(decode(&behind_mark(0x3A, &[0xFF]), 1), Some(vec![0x3A]));
    assert_eq!(decode(&behind_mark(0x3A, &[0xFF]), 2), Some(vec![0x3A, 0xFF]));
    assert_eq!(decode(&behind_mark(0xFB, &[0x3A]), 2), Some(vec![0xFB, 0x3A]));
    assert_eq!(decode(&behind_mark(0xFB, &[0x3A, 0x00]), 2), Some(vec![0xFB, 0x3A]));
    assert_eq!(decode(&behind_mark(0xFB, &[0x3A, 0xFF]), 2), Some(vec![0xFB, 0x3A]));
    assert_eq!(decode(&behind_mark(0xFB, &[0x3A, 0xFF]), 3), Some(vec![0xFB, 0x3A, 0xFF]));
}

#[test]
fn round_trip_of_every_byte_value() {
    let payload: Vec<u8> = (0..=255u8).collect();
    let flux = behind_mark(0xFB, &payload);
    let mut stream = FluxStream::new(&flux);
    let mut out = vec![0u8; 257];
    assert!(mfm_read_bytes(&mut stream, &mut out));
    assert_eq!(out[0], 0xFB);
    assert_eq!(&out[1..], &payload[..]);
    assert_eq!(stream.position(), flux.len());
}

#[test]
fn round_trip_of_a_full_data_field() {
    let mut payload = vec![0u8; 512];
    let mut x: u32 = 12345;
    for b in payload.iter_mut() {
        x = x.wrapping_mul(1103515245).wrapping_add(12345);
        *b = (x >> 16) as u8;
    }
    for lead in [0xFBu8, 0xFA, 0xFE, 0x80, 0xFF] {
        let flux = behind_mark(lead, &payload);
        let out = decode(&flux, 513).unwrap();
        assert_eq!(out[0], lead);
        assert_eq!(&out[1..], &payload[..]);
    }
}

#[test]
fn round_trip_of_every_lead_in_byte() {
    for lead in 0..=255u8 {
        for follower in [0x00u8, 0x7F, 0x80, 0xFF] {
            let bytes = [lead.wrapping_mul(31), follower];
            let flux = behind_mark(lead, &bytes);
            assert_eq!(decode(&flux, 2), Some(vec![lead, bytes[0]]));
            assert_eq!(decode(&flux, 3), Some(vec![lead, bytes[0], follower]));
        }
    }
}

#[test]
fn without_the_mark_in_front_the_clock_bits_are_read() {
    // Read as it is, the encoding is taken one cell early.
    assert_eq!(decode(&encode(0x3A, &[0x00]), 1), Some(vec![0x81]));
}

#[test]
fn round_trip_reads_any_shorter_prefix() {
    let payload = [0x00u8, 0xFF, 0x4E, 0xA1, 0x55, 0xAA];
    let flux = behind_mark(0xFE, &payload);
    let whole = [0xFEu8, 0x00, 0xFF, 0x4E, 0xA1, 0x55, 0xAA];
    for n in 1..=7 {
        assert_eq!(decode(&flux, n), Some(whole[..n].to_vec()));
    }
}

#[test]
fn worst_case_encodings_fit_eight_symbols_a_byte() {
    assert_eq!(encode(0xFF, &[0xFF; 512]).len(), 8 * 513);
    assert_eq!(encode(0x00, &[0x00; 512]).len(), 8 * 513);
    assert_eq!(letters(&encode(0x00, &[])), "SSSSSSSS");
    assert_eq!(letters(&encode(0xFF, &[])), "SSSSSSSS");
}

#[test]
fn encoding_keeps_mfm_run_lengths() {
    // No two transitions in neighbouring cells, never more than three zeros.
    let payload: Vec<u8> = (0..=255u8).rev().collect();
    let flux = encode(0xFB, &payload);
    let expansion = format!("1{}", cells(&flux));
    assert!(!expansion.contains("11"));
    assert!(!expansion.contains("0000"));
    // The payload ends in 0x00, whose last clock bit is set: nothing is added.
    assert_eq!(expansion.len(), 16 * 257);
}

#[test]
fn empty_payload_encodes_the_lead_in_byte_alone() {
    let flux = encode(0xFB, &[]);
    assert_eq!(letters(&flux), "SSSSLSS");
    assert_eq!(decode(&behind_mark(0xFB, &[]), 1), Some(vec![0xFB]));
}

#[test]
fn decoding_stops_with_the_symbol_that_completes_the_last_byte() {
    let mut flux = behind_mark(0xFB, &[0x12, 0x34]);
    let own = flux.len();
    flux.extend([S, S, S, S]);
    let mut stream = FluxStream::new(&flux);
    let mut out = [0u8; 3];
    assert!(mfm_read_bytes(&mut stream, &mut out));
    assert_eq!(out, [0xFB, 0x12, 0x34]);
    assert_eq!(stream.position(), own);
}

#[test]
fn decoding_reports_truncation_and_keeps_what_was_complete() {
    let flux = behind_mark(0xFB, &[0x12, 0x34]);
    let mut stream = FluxStream::new(&flux[..flux.len() - 6]);
    let mut out = [0xEEu8; 3];
    assert!(!mfm_read_bytes(&mut stream, &mut out));
    assert_eq!(out[0], 0xFB);
    assert_eq!(out[1], 0x12);
    assert_eq!(out[2], 0xEE);
    assert_eq!(stream.position(), flux.len() - 6);

    let mut empty = FluxStream::new(&[]);
    let mut one = [0x77u8; 1];
    assert!(!mfm_read_bytes(&mut empty, &mut one));
    assert_eq!(one, [0x77]);
}

#[test]
fn decoding_into_an_empty_buffer_reads_nothing() {
    let flux = [S, S, S];
    let mut stream = FluxStream::new(&flux);
    let mut out: [u8; 0] = [];
    assert!(mfm_read_bytes(&mut stream, &mut out));
    assert_eq!(stream.position(), 0);
}

#[test]
fn decoder_follows_the_first_symbol_rule() {
    // All ones: a short first symbol makes no adjustment.
    let mut d = ByteDecoder::start(S);
    let mut got = None;
    for _ in 0..8 {
        got = d.push(S);
    }
    assert_eq!(got, Some(0xFF));
    // A long first symbol skips the first bit and keeps the parity.
    let mut d = ByteDecoder::start(L);
    let mut got = Vec::new();
    for _ in 0..7 {
        got.push(d.push(S));
    }
    assert_eq!(got.last().copied().flatten(), Some(0x7F));
    assert!(got[..6].iter().all(|b| b.is_none()));
    // A medium first symbol lands on a clock cell: zeros follow.
    let mut d = ByteDecoder::start(M);
    let mut got = None;
    for _ in 0..7 {
        got = d.push(S);
    }
    assert_eq!(got, Some(0x00));
}

#[test]
fn decoder_hands_out_bytes_one_by_one() {
    let flux = behind_mark(0xFE, &[0x07, 0x00, 0x02, 0x02]);
    let mut d = ByteDecoder::start(flux[0]);
    let mut out = Vec::new();
    for sym in &flux[1..] {
        if let Some(b) = d.push(*sym) {
            out.push(b);
        }
    }
    assert_eq!(out, vec![0xFE, 0x07, 0x00, 0x02, 0x02]);
}

#[test]
fn parity_masks_and_flips() {
    assert_eq!(Parity::Even.as_mask(), 0xFFFF);
    assert_eq!(Parity::Odd.as_mask(), 0x0000);
    assert!(Parity::Even.is(&Parity::Even));
    assert!(!Parity::Even.is(&Parity::Odd));
    let mut p = Parity::Even;
    assert_eq!(p.flip(), Parity::Odd);
    assert_eq!(p, Parity::Even);
    let mut q = Parity::Odd;
    assert_eq!(q.flip(), Parity::Even);
}

#[test]
fn symbol_from_class_index() {
    assert_eq!(Symbol::from(0), Symbol::Pulse10);
    assert_eq!(Symbol::from(1), Symbol::Pulse100);
    assert_eq!(Symbol::from(2), Symbol::Pulse1000);
    assert_eq!(Symbol::from(7), Symbol::Pulse1000);
    assert_eq!(Symbol::from(-1), Symbol::Pulse1000);
    assert_eq!(Symbol::Pulse10 as usize, 0);
    assert_eq!(Symbol::Pulse100 as usize, 1);
    assert_eq!(Symbol::Pulse1000 as usize, 2);
}

#[test]
fn simplify_collapses_to_one_bit() {
    assert_eq!(simplify(0), 0);
    assert_eq!(simplify(1), 1);
    assert_eq!(simplify(0x80), 1);
    assert_eq!(simplify(0xFFFF), 1);
}

#[test]
fn classification_bands_at_600_mhz() {
    // Boundaries at 1500 and 2100 cycles.
    assert_eq!(mfm_read_sym(0, 600), S);
    assert_eq!(mfm_read_sym(1200, 600), S);
    assert_eq!(mfm_read_sym(1499, 600), S);
    assert_eq!(mfm_read_sym(1500, 600), M);
    assert_eq!(mfm_read_sym(1800, 600), M);
    assert_eq!(mfm_read_sym(2100, 600), M);
    assert_eq!(mfm_read_sym(2101, 600), L);
    assert_eq!(mfm_read_sym(2400, 600), L);
    assert_eq!(mfm_read_sym(u32::MAX, 600), L);
}

#[test]
fn classification_never_goes_down_and_never_skips() {
    for f in [1u32, 3, 396, 600] {
        let mut last = 0usize;
        for c in 0..(5 * f) {
            let rank = mfm_read_sym(c, f) as usize;
            assert!(rank == last || rank == last + 1);
            last = rank;
        }
        assert_eq!(last, 2);
    }
    // Odd clock rates put the boundaries between two counts.
    assert_eq!(mfm_read_sym(7, 3), S);
    assert_eq!(mfm_read_sym(8, 3), M);
    assert_eq!(mfm_read_sym(10, 3), M);
    assert_eq!(mfm_read_sym(11, 3), L);
}

#[test]
fn pulse_budgets() {
    assert_eq!(T2, 362);
    assert_eq!(T3, 470);
    assert_eq!(T4, 890);
    assert_eq!(pulse_cycles(S), 362);
    assert_eq!(pulse_cycles(M), 470);
    assert_eq!(pulse_cycles(L), 890);
}

#[test]
fn write_script_holds_the_gate_around_the_pulses() {
    let script = mfm_write_bytes(&[S, M, L]);
    assert_eq!(
        script,
        vec![
            PinOp::Out { pin: GATE_PIN, power: Power::Low },
            PinOp::Pulse { cycles: 362 },
            PinOp::Pulse { cycles: 470 },
            PinOp::Pulse { cycles: 890 },
            PinOp::Out { pin: GATE_PIN, power: Power::High },
            PinOp::Out { pin: WRITE_PIN, power: Power::High },
        ]
    );
    assert_eq!(mfm_write_bytes(&[]).len(), 3);
}

#[test]
fn stats_count_each_class() {
    let stats = mfm_dump_stats(&[S, S, M, L, S, L]);
    assert_eq!(stats.pulse_10, 3);
    assert_eq!(stats.pulse_100, 1);
    assert_eq!(stats.pulse_1000, 2);
    let none = mfm_dump_stats(&[]);
    assert_eq!((none.pulse_10, none.pulse_100, none.pulse_1000), (0, 0, 0));
}

#[test]
fn capture_turns_class_indices_into_symbols() {
    let mut dst = [L; 4096];
    mfm_read_flux(&[0, 1, 2, 0, 5], &mut dst, 4);
    assert_eq!(&dst[..6], &[S, M, L, S, L, L]);
    let mut dst = [S; 4096];
    mfm_read_flux(&[2, 2], &mut dst, 0);
    assert_eq!(dst[0], S);
}

#[test]
fn stream_reads_in_order_and_stops_at_the_end() {
    let flux = [S, M];
    let mut stream = FluxStream::new(&flux);
    assert_eq!(stream.position(), 0);
    assert_eq!(stream.next(), Some(S));
    assert_eq!(stream.next(), Some(M));
    assert_eq!(stream.next(), None);
    assert_eq!(stream.next(), None);
    assert_eq!(stream.position(), 2);
}
