//! The write path on live flux: a state machine that takes the symbols of
//! the running revolution one at a time and tells the moment at which the
//! new data field has to be written.
//!
//! A write cannot wait for the end of the revolution. The sector's address
//! field and the data mark behind it go by under the head, and the pulses
//! must start right behind that data mark. So the search that
//! `fdd_write_sector` makes on a capture is made here symbol by symbol, with
//! the same detector and the same decoder.

use crate::cells::{
    byte_at, bytes_complete, decoded, encoded, flux_cells, flux_span, lemma_flux_cells_push,
    lemma_flux_cells_take, lemma_symbol_cells,
};
use crate::config::PinOp;
use crate::decoder::ByteDecoder;
use crate::fdd::{
    fdd_data_field_script, field_behind_mark, field_stop, find_address, is_data_mark,
    write_pass, write_stop, AddressScan, FddError, ADDRESS_MARK, DATA_MARK, DELETED_DATA_MARK,
    HEADER_LEN,
};
use crate::mfm::{field_end, lemma_field_end, write_script, Symbol};
use crate::sync::{lemma_sync_end, lemma_sync_end_none, sync_end, sync_found, SyncScanner};
use vstd::prelude::*;

verus! {

/// Where the search for the place to write stands.
#[derive(Copy, Clone, Debug, PartialEq, Eq, Structural)]
pub enum Phase {
    /// Looking for the sync mark of an address field.
    SeekAddress,
    /// Reading the seven bytes behind that mark.
    Header,
    /// The sector's address field went by: looking for the sync mark of its
    /// data field.
    SeekData,
    /// Reading the byte behind that mark.
    DataMark,
    /// The search has ended.
    Done,
}

/// What a symbol asks for.
#[derive(Copy, Clone, Debug, PartialEq, Eq, Structural)]
pub enum Live {
    /// Nothing yet: take in the next symbol.
    Watch,
    /// The data mark of the sector has just gone by: write now.
    Write,
    /// An address field of another cylinder went by, with that cylinder.
    WrongTrack(u8),
    /// The byte behind the data field's sync mark was no data mark.
    SyncLost,
}

/// One step of the search: the phase, the symbols taken in during the phase
/// and the answer, once `sym` has arrived in `phase` behind `field`.
///
/// A sync mark ends a seeking phase. Seven complete bytes end the header
/// phase: an address field of another cylinder ends the search, the address
/// field of the sector leads on to its data field, and anything else starts
/// the search for an address field again. One complete byte ends the last
/// phase, as a data mark or as a loss of sync.
pub open spec fn watch_step(
    phase: Phase,
    field: Seq<Symbol>,
    sym: Symbol,
    head: u8,
    cylinder: u8,
    sector: u8,
) -> (Phase, Seq<Symbol>, Live) {
    let taken = field.push(sym);
    match phase {
        Phase::SeekAddress => if sync_found(taken) {
            (Phase::Header, Seq::empty(), Live::Watch)
        } else {
            (Phase::SeekAddress, taken, Live::Watch)
        },
        Phase::Header => match decoded(taken, HEADER_LEN as nat) {
            None => (Phase::Header, taken, Live::Watch),
            Some(header) => if header[0] == ADDRESS_MARK && header[1] != cylinder {
                (Phase::Done, taken, Live::WrongTrack(header[1]))
            } else if header[0] == ADDRESS_MARK && header[2] == head && header[3] == sector {
                (Phase::SeekData, Seq::empty(), Live::Watch)
            } else {
                (Phase::SeekAddress, Seq::empty(), Live::Watch)
            },
        },
        Phase::SeekData => if sync_found(taken) {
            (Phase::DataMark, Seq::empty(), Live::Watch)
        } else {
            (Phase::SeekData, taken, Live::Watch)
        },
        Phase::DataMark => match decoded(taken, 1) {
            None => (Phase::DataMark, taken, Live::Watch),
            Some(mark) => if is_data_mark(mark[0]) {
                (Phase::Done, taken, Live::Write)
            } else {
                (Phase::Done, taken, Live::SyncLost)
            },
        },
        Phase::Done => (Phase::Done, field, Live::Watch),
    }
}

/// What the revolution's end means in a phase: before the sector's address
/// field the sector was not found, later the read was cut short.
pub open spec fn index_error(phase: Phase) -> FddError {
    match phase {
        Phase::SeekAddress => FddError::SectorNotFound,
        _ => FddError::TruncatedRead,
    }
}

/// Byte `i` behind a sync mark that `flux` follows.
pub open spec fn nth_byte(flux: Seq<Symbol>, i: int) -> u8 {
    byte_at(flux_cells(flux), 16 * i) as u8
}

/// One more symbol completes at most one more byte and leaves the complete
/// bytes as they were.
proof fn lemma_push_bytes(seen: Seq<Symbol>, sym: Symbol)
    ensures
        bytes_complete(flux_span(seen)) <= bytes_complete(flux_span(seen.push(sym)))
            <= bytes_complete(flux_span(seen)) + 1,
        forall|i: int|
            0 <= i < bytes_complete(flux_span(seen)) ==> #[trigger] nth_byte(seen.push(sym), i)
                == nth_byte(seen, i),
{
    lemma_flux_cells_push(seen, sym);
    lemma_symbol_cells(sym);
    let cells = flux_cells(seen);
    let cells2 = flux_cells(seen.push(sym));
    assert forall|i: int| 0 <= i < bytes_complete(flux_span(seen)) implies #[trigger] nth_byte(
        seen.push(sym),
        i,
    ) == nth_byte(seen, i) by {
        assert(16 * i + 15 < cells.len());
        assert(cells2[16 * i + 1] == cells[16 * i + 1]);
        assert(cells2[16 * i + 3] == cells[16 * i + 3]);
        assert(cells2[16 * i + 5] == cells[16 * i + 5]);
        assert(cells2[16 * i + 7] == cells[16 * i + 7]);
        assert(cells2[16 * i + 9] == cells[16 * i + 9]);
        assert(cells2[16 * i + 11] == cells[16 * i + 11]);
        assert(cells2[16 * i + 13] == cells[16 * i + 13]);
        assert(cells2[16 * i + 15] == cells[16 * i + 15]);
    }
}

/// The search for the place to write, between two symbols.
pub struct WriteWatch {
    head: u8,
    cylinder: u8,
    sector: u8,
    phase: Phase,
    scanner: SyncScanner,
    decoder: ByteDecoder,
    fresh: bool,
    header: [u8; 7],
    count: usize,
}

impl WriteWatch {
    /// The phase of the search.
    pub closed spec fn phase(&self) -> Phase {
        self.phase
    }

    /// The symbols taken in during the phase.
    pub closed spec fn field(&self) -> Seq<Symbol> {
        match self.phase {
            Phase::SeekAddress => self.scanner.seen(),
            Phase::SeekData => self.scanner.seen(),
            _ => if self.fresh {
                Seq::empty()
            } else {
                self.decoder.seen()
            },
        }
    }

    /// The head, the cylinder and the sector that are searched for.
    pub closed spec fn target(&self) -> (u8, u8, u8) {
        (self.head, self.cylinder, self.sector)
    }

    /// The detector, the decoder and the bytes kept agree with the symbols
    /// taken in during the phase.
    pub closed spec fn wf(&self) -> bool {
        &&& self.scanner.wf()
        &&& self.decoder.wf()
        &&& self.count <= HEADER_LEN
        &&& self.fresh ==> self.count == 0
        &&& self.phase == Phase::Header && !self.fresh ==> {
            &&& self.count == bytes_complete(flux_span(self.decoder.seen()))
            &&& self.count < HEADER_LEN
            &&& forall|i: int|
                0 <= i < self.count ==> #[trigger] self.header@[i] == nth_byte(
                    self.decoder.seen(),
                    i,
                )
        }
        &&& self.phase == Phase::DataMark && !self.fresh ==> bytes_complete(
            flux_span(self.decoder.seen()),
        ) == 0
    }

    /// A search at its start.
    pub fn new(head: u8, cylinder: u8, sector: u8) -> (watch: WriteWatch)
        ensures
            watch.wf(),
            watch.phase() == Phase::SeekAddress,
            watch.field() == Seq::<Symbol>::empty(),
            watch.target() == (head, cylinder, sector),
    {
        WriteWatch {
            head,
            cylinder,
            sector,
            phase: Phase::SeekAddress,
            scanner: SyncScanner::new(),
            decoder: ByteDecoder::start(Symbol::Pulse10),
            fresh: true,
            header: [0; 7],
            count: 0,
        }
    }

    /// The error to report when the INDEX pulse comes before the search has
    /// ended.
    pub fn at_index(&self) -> (error: FddError)
        ensures
            error == index_error(self.phase()),
    {
        match self.phase {
            Phase::SeekAddress => FddError::SectorNotFound,
            _ => FddError::TruncatedRead,
        }
    }

    /// Takes the next symbol into the decoder and returns the byte that it
    /// completes.
    #[verifier::rlimit(40)]
    fn decode(&mut self, sym: Symbol) -> (byte: Option<u8>)
        requires
            old(self).wf(),
            old(self).phase == Phase::Header || old(self).phase == Phase::DataMark,
        ensures
            final(self).decoder.wf(),
            final(self).scanner == old(self).scanner,
            final(self).phase == old(self).phase,
            final(self).head == old(self).head,
            final(self).cylinder == old(self).cylinder,
            final(self).sector == old(self).sector,
            final(self).header == old(self).header,
            final(self).count == old(self).count,
            !final(self).fresh,
            final(self).decoder.seen() == old(self).field().push(sym),
            byte is Some <==> bytes_complete(flux_span(final(self).decoder.seen()))
                == bytes_complete(flux_span(old(self).field())) + 1,
            byte is None <==> bytes_complete(flux_span(final(self).decoder.seen()))
                == bytes_complete(flux_span(old(self).field())),
            byte is Some ==> byte->Some_0 == nth_byte(
                final(self).decoder.seen(),
                bytes_complete(flux_span(old(self).field())) as int,
            ),
            forall|i: int|
                0 <= i < bytes_complete(flux_span(old(self).field())) ==> #[trigger] nth_byte(
                    final(self).decoder.seen(),
                    i,
                ) == nth_byte(old(self).field(), i),
    {
        let ghost field = self.field();
        proof {
            lemma_push_bytes(field, sym);
        }
        if self.fresh {
            proof {
                lemma_flux_cells_push(Seq::<Symbol>::empty(), sym);
                lemma_symbol_cells(sym);
                assert(Seq::<Symbol>::empty().push(sym) =~= seq![sym]);
            }
            self.decoder = ByteDecoder::start(sym);
            self.fresh = false;
            None
        } else {
            self.decoder.push(sym)
        }
    }

    /// Takes in the next symbol of the revolution.
    #[verifier::rlimit(40)]
    pub fn push(&mut self, sym: Symbol) -> (live: Live)
        requires
            old(self).wf(),
            old(self).phase() != Phase::Done,
        ensures
            final(self).wf(),
            final(self).target() == old(self).target(),
            (final(self).phase(), final(self).field(), live) == watch_step(
                old(self).phase(),
                old(self).field(),
                sym,
                old(self).target().0,
                old(self).target().1,
                old(self).target().2,
            ),
    {
        match self.phase {
            Phase::SeekAddress => {
                if self.scanner.push(sym) {
                    self.phase = Phase::Header;
                    self.fresh = true;
                    self.count = 0;
                }
                Live::Watch
            },
            Phase::SeekData => {
                if self.scanner.push(sym) {
                    self.phase = Phase::DataMark;
                    self.fresh = true;
                    self.count = 0;
                }
                Live::Watch
            },
            Phase::Header => {
                let ghost before = self.field();
                let ghost taken = before.push(sym);
                let ghost kept = self.header@;
                match self.decode(sym) {
                    None => Live::Watch,
                    Some(byte) => {
                        self.header[self.count] = byte;
                        self.count = self.count + 1;
                        if self.count < HEADER_LEN {
                            Live::Watch
                        } else {
                            proof {
                                assert forall|i: int| 0 <= i < 7 implies self.header@[i]
                                    == nth_byte(taken, i) by {
                                    if i < 6 {
                                        assert(nth_byte(taken, i) == nth_byte(before, i));
                                        assert(self.header@[i] == kept[i]);
                                    }
                                }
                                assert(bytes_complete(flux_span(taken)) == 7);
                                assert(flux_span(taken) >= 16 * 7 + 1);
                                let read = decoded(taken, HEADER_LEN as nat).unwrap();
                                assert(read.len() == 7);
                                assert(self.header@.len() == 7);
                                assert forall|i: int| 0 <= i < 7 implies read[i]
                                    == self.header@[i] by {
                                    assert(read[i] == nth_byte(taken, i));
                                }
                                assert(read =~= self.header@);
                            }
                            if self.header[0] == ADDRESS_MARK && self.header[1] != self.cylinder {
                                self.phase = Phase::Done;
                                Live::WrongTrack(self.header[1])
                            } else if self.header[0] == ADDRESS_MARK && self.header[2] == self.head
                                && self.header[3] == self.sector {
                                self.phase = Phase::SeekData;
                                self.scanner = SyncScanner::new();
                                self.fresh = true;
                                self.count = 0;
                                Live::Watch
                            } else {
                                self.phase = Phase::SeekAddress;
                                self.scanner = SyncScanner::new();
                                self.fresh = true;
                                self.count = 0;
                                Live::Watch
                            }
                        }
                    },
                }
            },
            Phase::DataMark => {
                let ghost taken = self.field().push(sym);
                match self.decode(sym) {
                    None => Live::Watch,
                    Some(byte) => {
                        proof {
                            assert(decoded(taken, 1).unwrap() =~= seq![byte]);
                        }
                        self.phase = Phase::Done;
                        if byte == DATA_MARK || byte == DELETED_DATA_MARK {
                            Live::Write
                        } else {
                            Live::SyncLost
                        }
                    },
                }
            },
            Phase::Done => Live::Watch,
        }
    }
}

/// Starts the write of one sector on live flux.
///
/// `write_protected` is the state of the WRITE PROTECT line, sampled before
/// anything else. On a protected medium the call fails at once, whatever was
/// asked for: there is no script to run, so WRITE GATE is never driven.
/// Otherwise the new data field is encoded ahead of time, and the call
/// returns the search to feed with the symbols of the revolution together
/// with the script to run at the moment the search answers `Live::Write`.
pub fn fdd_begin_write(write_protected: bool, head: u8, cylinder: u8, sector: u8, data: &[u8])
    -> (plan: Result<(WriteWatch, Vec<PinOp>), FddError>)
    requires
        !write_protected ==> data@.len() == 512,
    ensures
        write_protected ==> plan is Err && plan->Err_0 == FddError::WriteProtected,
        !write_protected ==> plan is Ok,
        plan is Ok ==> plan->Ok_0.0.wf(),
        plan is Ok ==> plan->Ok_0.0.phase() == Phase::SeekAddress,
        plan is Ok ==> plan->Ok_0.0.field() == Seq::<Symbol>::empty(),
        plan is Ok ==> plan->Ok_0.0.target() == (head, cylinder, sector),
        plan is Ok ==> plan->Ok_0.1@ == write_script(encoded(DATA_MARK, data@)),
{
    if write_protected {
        return Err(FddError::WriteProtected);
    }
    let script = fdd_data_field_script(data);
    Ok((WriteWatch::new(head, cylinder, sector), script))
}

// ---------------------------------------------------------------------------
// The live search and the pass over a capture
// ---------------------------------------------------------------------------

/// The search once it has taken in the first `k` symbols of `symbols`: its
/// phase, the symbols of that phase and the last answer. A search that has
/// ended stays as it is.
pub open spec fn watch_run(symbols: Seq<Symbol>, k: int, head: u8, cylinder: u8, sector: u8) -> (
    Phase,
    Seq<Symbol>,
    Live,
)
    decreases k,
{
    if k <= 0 {
        (Phase::SeekAddress, Seq::empty(), Live::Watch)
    } else {
        let (phase, field, live) = watch_run(symbols, k - 1, head, cylinder, sector);
        if phase == Phase::Done {
            (phase, field, live)
        } else {
            watch_step(phase, field, symbols[k - 1], head, cylinder, sector)
        }
    }
}

/// Whether the detector reports no mark within the first `n` symbols of
/// `flux`.
pub open spec fn no_sync(flux: Seq<Symbol>, n: int) -> bool {
    forall|j: int| 0 <= j <= n ==> !sync_found(#[trigger] flux.take(j))
}

/// One more symbol in the search for a mark: either it ends the first mark
/// of the flux, or there is still none.
proof fn lemma_seek_step(flux: Seq<Symbol>, n: int)
    requires
        0 <= n < flux.len(),
        no_sync(flux, n),
    ensures
        sync_found(flux.take(n + 1)) ==> sync_end(flux) == Some(n + 1),
        !sync_found(flux.take(n + 1)) ==> no_sync(flux, n + 1),
{
    if sync_found(flux.take(n + 1)) {
        lemma_sync_end(flux, n + 1);
    }
}

/// One more symbol in a field of `n` bytes: if it completes the field, the
/// field reads the same from all of the flux and ends with this symbol.
#[verifier::rlimit(40)]
proof fn lemma_field_step(flux: Seq<Symbol>, j: int, n: nat)
    requires
        0 <= j < flux.len(),
        n > 0,
        flux_span(flux.take(j)) < 16 * n + 1,
        decoded(flux.take(j + 1), n) is Some,
    ensures
        decoded(flux, n) == decoded(flux.take(j + 1), n),
        field_end(flux, n) == j + 1,
{
    let part = flux.take(j + 1);
    lemma_flux_cells_take(flux, j + 1);
    assert(flux_cells(flux).take(flux_span(part) as int) == flux_cells(part));
    assert forall|i: int| 0 <= i < n implies #[trigger] nth_byte(flux, i) == nth_byte(part, i) by {
        let cells = flux_cells(flux);
        let short = flux_cells(part);
        assert(16 * i + 15 < short.len());
        assert(cells.take(short.len() as int)[16 * i + 1] == cells[16 * i + 1]);
        assert(cells.take(short.len() as int)[16 * i + 3] == cells[16 * i + 3]);
        assert(cells.take(short.len() as int)[16 * i + 5] == cells[16 * i + 5]);
        assert(cells.take(short.len() as int)[16 * i + 7] == cells[16 * i + 7]);
        assert(cells.take(short.len() as int)[16 * i + 9] == cells[16 * i + 9]);
        assert(cells.take(short.len() as int)[16 * i + 11] == cells[16 * i + 11]);
        assert(cells.take(short.len() as int)[16 * i + 13] == cells[16 * i + 13]);
        assert(cells.take(short.len() as int)[16 * i + 15] == cells[16 * i + 15]);
    }
    assert(decoded(flux, n).unwrap() =~= decoded(part, n).unwrap());
    lemma_field_end(flux, n, j + 1);
}

/// Whether the live search, `k` symbols into `symbols`, stands where the
/// pass over all of `symbols` goes through: in a seeking phase the pass has
/// come to the start of the phase and has no mark so far; in a reading phase
/// the pass has found the mark in front of the phase and its field is not
/// complete; at its end the search has answered what the pass finds. `from`
/// is where the pass looked for the mark in front of a reading phase.
pub open spec fn watch_agrees(
    symbols: Seq<Symbol>,
    k: int,
    from: int,
    head: u8,
    cylinder: u8,
    sector: u8,
) -> bool {
    let (phase, field, live) = watch_run(symbols, k, head, cylinder, sector);
    let start = k - field.len();
    let whole = find_address(symbols, 0, head, cylinder, sector);
    match phase {
        Phase::SeekAddress => {
            &&& live == Live::Watch
            &&& 0 <= start <= k
            &&& field == symbols.subrange(start, k)
            &&& whole == find_address(symbols, start, head, cylinder, sector)
            &&& no_sync(symbols.skip(start), k - start)
        },
        Phase::Header => {
            &&& live == Live::Watch
            &&& 0 <= from < start <= k
            &&& field == symbols.subrange(start, k)
            &&& whole == find_address(symbols, from, head, cylinder, sector)
            &&& sync_end(symbols.skip(from)) == Some(start - from)
            &&& flux_span(field) < 16 * HEADER_LEN + 1
        },
        Phase::SeekData => {
            &&& live == Live::Watch
            &&& 0 <= start <= k
            &&& field == symbols.subrange(start, k)
            &&& whole.0 is Found
            &&& whole.1 == start
            &&& no_sync(symbols.skip(start), k - start)
        },
        Phase::DataMark => {
            &&& live == Live::Watch
            &&& 0 <= from < start <= k
            &&& field == symbols.subrange(start, k)
            &&& whole.0 is Found
            &&& whole.1 == from
            &&& sync_end(symbols.skip(from)) == Some(start - from)
            &&& flux_span(field) < 16 * 1 + 1
        },
        Phase::Done => match live {
            Live::Watch => false,
            Live::WrongTrack(observed) => whole.0 == AddressScan::WrongTrack(observed) && whole.1
                <= k,
            Live::Write => {
                &&& whole.0 is Found
                &&& field_behind_mark(symbols, whole.1, 1) is Ok
                &&& is_data_mark(field_behind_mark(symbols, whole.1, 1).unwrap()[0])
                &&& field_stop(symbols, whole.1, 1) <= k
            },
            Live::SyncLost => {
                &&& whole.0 is Found
                &&& field_behind_mark(symbols, whole.1, 1) is Ok
                &&& !is_data_mark(field_behind_mark(symbols, whole.1, 1).unwrap()[0])
                &&& field_stop(symbols, whole.1, 1) <= k
            },
        },
    }
}

/// The symbols of a phase other than the last, `k` symbols into `symbols`,
/// with one more symbol: a stretch of `symbols` that ends one later.
proof fn lemma_phase_field(symbols: Seq<Symbol>, k: int, field: Seq<Symbol>)
    requires
        1 <= k <= symbols.len(),
        field.len() <= k - 1,
        field == symbols.subrange(k - 1 - field.len(), k - 1),
    ensures
        field.push(symbols[k - 1]) == symbols.subrange(k - 1 - field.len(), k),
        symbols.skip(k - 1 - field.len()).take(k - (k - 1 - field.len())) == field.push(
            symbols[k - 1],
        ),
        symbols.skip(k - 1 - field.len()).take(field.len() as int) == field,
        symbols.subrange(k, k) == Seq::<Symbol>::empty(),
        no_sync(symbols.skip(k), 0),
{
    let start = k - 1 - field.len();
    assert(field.push(symbols[k - 1]) =~= symbols.subrange(start, k));
    assert(symbols.skip(start).take(k - start) =~= symbols.subrange(start, k));
    assert(symbols.skip(start).take(field.len() as int) =~= field);
    assert(symbols.subrange(k, k) =~= Seq::<Symbol>::empty());
    assert forall|j: int| 0 <= j <= 0 implies !sync_found(#[trigger] symbols.skip(k).take(j)) by {
        assert(symbols.skip(k).take(j) =~= Seq::<Symbol>::empty());
    }
}

/// A step of the live search in a seeking phase keeps step with the pass.
#[verifier::rlimit(50)]
proof fn lemma_agrees_seeking(
    symbols: Seq<Symbol>,
    k: int,
    from: int,
    head: u8,
    cylinder: u8,
    sector: u8,
) -> (next: int)
    requires
        1 <= k <= symbols.len(),
        watch_agrees(symbols, k - 1, from, head, cylinder, sector),
        watch_run(symbols, k - 1, head, cylinder, sector).0 == Phase::SeekAddress || watch_run(
            symbols,
            k - 1,
            head,
            cylinder,
            sector,
        ).0 == Phase::SeekData,
    ensures
        watch_agrees(symbols, k, next, head, cylinder, sector),
{
    let (phase, field, live) = watch_run(symbols, k - 1, head, cylinder, sector);
    let start = k - 1 - field.len();
    lemma_phase_field(symbols, k, field);
    lemma_seek_step(symbols.skip(start), k - 1 - start);
    start
}

/// What the pass finds from `from` on when the mark that it finds first is
/// followed by a complete header that ends at `k`.
proof fn lemma_pass_with_header(
    symbols: Seq<Symbol>,
    from: int,
    start: int,
    k: int,
    head: u8,
    cylinder: u8,
    sector: u8,
)
    requires
        0 <= from < start < k <= symbols.len(),
        sync_end(symbols.skip(from)) == Some(start - from),
        decoded(symbols.skip(start), HEADER_LEN as nat) is Some,
        field_end(symbols.skip(start), HEADER_LEN as nat) == k - start,
    ensures
        ({
            let header = decoded(symbols.skip(start), HEADER_LEN as nat).unwrap();
            let found = find_address(symbols, from, head, cylinder, sector);
            if header[0] == ADDRESS_MARK && header[1] != cylinder {
                found == (AddressScan::WrongTrack(header[1]), k)
            } else if header[0] == ADDRESS_MARK && header[2] == head && header[3] == sector {
                found.0 is Found && found.1 == k
            } else {
                found == find_address(symbols, k, head, cylinder, sector)
            }
        }),
{
    assert(symbols.skip(from).skip(start - from) =~= symbols.skip(start));
}

/// A step of the live search in the header keeps step with the pass.
#[verifier::rlimit(50)]
proof fn lemma_agrees_header(
    symbols: Seq<Symbol>,
    k: int,
    from: int,
    head: u8,
    cylinder: u8,
    sector: u8,
) -> (next: int)
    requires
        1 <= k <= symbols.len(),
        watch_agrees(symbols, k - 1, from, head, cylinder, sector),
        watch_run(symbols, k - 1, head, cylinder, sector).0 == Phase::Header,
    ensures
        watch_agrees(symbols, k, next, head, cylinder, sector),
{
    let (phase, field, live) = watch_run(symbols, k - 1, head, cylinder, sector);
    let start = k - 1 - field.len();
    let taken = field.push(symbols[k - 1]);
    let rest = symbols.skip(start);
    let after = watch_run(symbols, k, head, cylinder, sector);
    assert(after == watch_step(Phase::Header, field, symbols[k - 1], head, cylinder, sector));
    lemma_phase_field(symbols, k, field);
    if decoded(taken, HEADER_LEN as nat) is Some {
        lemma_field_step(rest, k - 1 - start, HEADER_LEN as nat);
        lemma_pass_with_header(symbols, from, start, k, head, cylinder, sector);
        let header = decoded(taken, HEADER_LEN as nat).unwrap();
        if header[0] == ADDRESS_MARK && header[1] != cylinder {
            assert(after == (Phase::Done, taken, Live::WrongTrack(header[1])));
        } else if header[0] == ADDRESS_MARK && header[2] == head && header[3] == sector {
            assert(after == (Phase::SeekData, Seq::<Symbol>::empty(), Live::Watch));
        } else {
            assert(after == (Phase::SeekAddress, Seq::<Symbol>::empty(), Live::Watch));
        }
    } else {
        assert(after == (Phase::Header, taken, Live::Watch));
    }
    from
}

/// A step of the live search in the data mark keeps step with the pass.
#[verifier::rlimit(50)]
proof fn lemma_agrees_data_mark(
    symbols: Seq<Symbol>,
    k: int,
    from: int,
    head: u8,
    cylinder: u8,
    sector: u8,
) -> (next: int)
    requires
        1 <= k <= symbols.len(),
        watch_agrees(symbols, k - 1, from, head, cylinder, sector),
        watch_run(symbols, k - 1, head, cylinder, sector).0 == Phase::DataMark,
    ensures
        watch_agrees(symbols, k, next, head, cylinder, sector),
{
    let (phase, field, live) = watch_run(symbols, k - 1, head, cylinder, sector);
    let start = k - 1 - field.len();
    let taken = field.push(symbols[k - 1]);
    let rest = symbols.skip(start);
    lemma_phase_field(symbols, k, field);
    if decoded(taken, 1) is Some {
        lemma_field_step(rest, k - 1 - start, 1);
        assert(symbols.skip(from).skip(start - from) =~= rest);
        assert(field_behind_mark(symbols, from, 1) == Ok::<Seq<u8>, FddError>(
            decoded(rest, 1).unwrap(),
        ));
        assert(field_stop(symbols, from, 1) == k);
    }
    from
}

/// The live search keeps step with the pass over the whole flux.
pub proof fn lemma_watch_agrees(
    symbols: Seq<Symbol>,
    k: int,
    head: u8,
    cylinder: u8,
    sector: u8,
) -> (from: int)
    requires
        0 <= k <= symbols.len(),
    ensures
        watch_agrees(symbols, k, from, head, cylinder, sector),
    decreases k,
{
    if k == 0 {
        assert(symbols.subrange(0, 0) =~= Seq::<Symbol>::empty());
        assert forall|j: int| 0 <= j <= 0 implies !sync_found(#[trigger] symbols.skip(0).take(j)) by {
            assert(symbols.skip(0).take(j) =~= Seq::<Symbol>::empty());
        }
        0
    } else {
        let before = lemma_watch_agrees(symbols, k - 1, head, cylinder, sector);
        match watch_run(symbols, k - 1, head, cylinder, sector).0 {
            Phase::SeekAddress => lemma_agrees_seeking(symbols, k, before, head, cylinder, sector),
            Phase::SeekData => lemma_agrees_seeking(symbols, k, before, head, cylinder, sector),
            Phase::Header => lemma_agrees_header(symbols, k, before, head, cylinder, sector),
            Phase::DataMark => lemma_agrees_data_mark(symbols, k, before, head, cylinder, sector),
            Phase::Done => before,
        }
    }
}

/// Live and captured agree. Whatever the live search answers within `k`
/// symbols of a revolution is what the pass over the whole revolution finds:
/// the order to write where the pass plans the write, another cylinder where
/// the pass detects the wrong track, a loss of sync where the pass reports
/// it. And a search that has not ended when the revolution ends stands in
/// the phase whose error the pass reports.
#[verifier::rlimit(40)]
pub proof fn lemma_live_is_the_pass(
    symbols: Seq<Symbol>,
    k: int,
    head: u8,
    cylinder: u8,
    sector: u8,
    data: Seq<u8>,
)
    requires
        0 <= k <= symbols.len(),
    ensures
        ({
            let (phase, field, live) = watch_run(symbols, k, head, cylinder, sector);
            let pass = write_pass(symbols, 0, false, head, cylinder, sector, data);
            &&& live == Live::Write ==> pass == Ok::<Seq<Symbol>, FddError>(
                encoded(DATA_MARK, data),
            )
            &&& live is WrongTrack ==> pass == Err::<Seq<Symbol>, FddError>(
                FddError::WrongTrackDetected,
            ) && find_address(symbols, 0, head, cylinder, sector).0 == AddressScan::WrongTrack(
                live->WrongTrack_0,
            )
            &&& live == Live::SyncLost ==> pass == Err::<Seq<Symbol>, FddError>(
                FddError::SyncLostInData,
            )
            &&& live != Live::Watch ==> write_stop(symbols, 0, false, head, cylinder, sector) <= k
            &&& live == Live::Watch && k == symbols.len() ==> pass == Err::<
                Seq<Symbol>,
                FddError,
            >(index_error(phase))
        }),
{
    let from = lemma_watch_agrees(symbols, k, head, cylinder, sector);
    let (phase, field, live) = watch_run(symbols, k, head, cylinder, sector);
    if live == Live::Watch && k == symbols.len() {
        let start = k - field.len();
        let rest = symbols.skip(start);
        assert(rest =~= field);
        match phase {
            Phase::SeekAddress => {
                lemma_sync_end_none(rest);
            },
            Phase::SeekData => {
                lemma_sync_end_none(rest);
            },
            Phase::Header => {
                assert(symbols.skip(from).skip(start - from) =~= rest);
            },
            Phase::DataMark => {
                assert(symbols.skip(from).skip(start - from) =~= rest);
            },
            Phase::Done => {},
        }
    }
}

} // verus!
