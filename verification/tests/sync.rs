use floppy_mfm::mfm::{mfm_sync, FluxStream, Symbol};
use floppy_mfm::sync::{sync_symbol, SyncScanner, SYNC_GAP, SYNC_LEN};

const S: Symbol = Symbol::Pulse10;
const M: Symbol = Symbol::Pulse100;
const L: Symbol = Symbol::Pulse1000;

const MARK: [Symbol; 15] = [M, L, M, L, M, S, L, M, L, M, S, L, M, L, M];

fn scan(flux: &[Symbol]) -> (bool, usize) {
    let mut stream = FluxStream::new(flux);
    let found = mfm_sync(&mut stream);
    (found, stream.position())
}

fn gap_and_mark(gap: usize) -> Vec<Symbol> {
    let mut flux = vec![S; gap];
    flux.extend(MARK);
    flux
}

#[test]
fn the_mark_is_the_fifteen_symbol_pattern() {
    assert_eq!(SYNC_LEN, 15);
    assert_eq!(SYNC_GAP, 80);
    for i in 0..15 {
        assert_eq!(sync_symbol(i), MARK[i]);
    }
}

#[test]
fn sync_consumes_up_to_the_end_of_the_mark() {
    let mut flux = gap_and_mark(100);
    flux.extend([S, M, L, S, S]);
    assert_eq!(scan(&flux), (true, 115));
}

#[test]
fn sync_needs_eighty_shorts() {
    assert_eq!(scan(&gap_and_mark(80)), (true, 95));
    assert_eq!(scan(&gap_and_mark(79)), (false, 94));
    assert_eq!(scan(&gap_and_mark(0)), (false, 15));
}

#[test]
fn sync_is_not_found_in_an_empty_or_plain_stream() {
    assert_eq!(scan(&[]), (false, 0));
    assert_eq!(scan(&vec![S; 500]), (false, 500));
    assert_eq!(scan(&MARK), (false, 15));
}

#[test]
fn a_broken_gap_starts_the_count_again() {
    let mut flux = vec![S; 60];
    flux.push(L);
    flux.extend(vec![S; 79]);
    flux.extend(MARK);
    assert_eq!(scan(&flux).0, false);

    let mut flux = vec![S; 60];
    flux.push(L);
    flux.extend(vec![S; 80]);
    flux.extend(MARK);
    assert_eq!(scan(&flux), (true, 60 + 1 + 80 + 15));
}

#[test]
fn a_mismatch_in_the_mark_empties_the_gap() {
    // The sixth symbol must be short and the seventh long.
    let mut flux = vec![S; 90];
    flux.extend([M, L, M, L, M, S, S]);
    flux.extend(vec![S; 79]);
    flux.extend(MARK);
    assert_eq!(scan(&flux).0, false);

    let mut flux = vec![S; 90];
    flux.extend([M, L, M, L, M, M]);
    flux.extend(gap_and_mark(80));
    assert_eq!(scan(&flux), (true, 90 + 6 + 95));
}

#[test]
fn a_long_symbol_behind_the_gap_is_no_mark() {
    let mut flux = vec![S; 90];
    flux.push(L);
    flux.extend(&MARK[1..]);
    assert_eq!(scan(&flux).0, false);
}

#[test]
fn a_truncated_mark_is_not_found() {
    let flux = gap_and_mark(100);
    assert_eq!(scan(&flux[..114]), (false, 114));
}

#[test]
fn two_marks_are_found_one_after_the_other() {
    let mut flux = gap_and_mark(100);
    flux.extend(gap_and_mark(85));
    let mut stream = FluxStream::new(&flux);
    assert!(mfm_sync(&mut stream));
    assert_eq!(stream.position(), 115);
    assert!(mfm_sync(&mut stream));
    assert_eq!(stream.position(), 215);
    assert!(!mfm_sync(&mut stream));
    assert_eq!(stream.position(), 215);
}

#[test]
fn scanner_reports_the_mark_with_its_last_symbol() {
    let mut scanner = SyncScanner::new();
    for _ in 0..80 {
        assert!(!scanner.push(S));
    }
    for sym in &MARK[..14] {
        assert!(!scanner.push(*sym));
    }
    assert!(scanner.push(MARK[14]));
    // A complete match stays complete.
    assert!(scanner.push(S));
}
