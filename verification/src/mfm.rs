//! The MFM codec on flux symbols: the symbols and the bit-clock parity, the
//! encoder that prepares a field for writing, and the readers that find sync
//! marks and bytes in a captured stretch of flux.

use crate::cells::{
    bit_of, bit_weight, byte_at, bytes_complete, data_bit, decoded, encoded, flux_cells,
    flux_of_cells, flux_prefix, flux_span, lemma_flux_cells_push, lemma_flux_cells_take,
    lemma_flux_prefix_within, lemma_mask_reads_bit, lemma_symbol_cells, mfm_cell, mfm_cells,
    pending_zeros,
};
use crate::config::{PinOp, Power, GATE_PIN, WRITE_PIN};
use crate::decoder::ByteDecoder;
use crate::sync::{
    lemma_sync_end, lemma_sync_end_none, sync_end, sync_ends_at, sync_found, sync_missing,
    SyncScanner,
};
use crate::timing::{classify, pulse_cycles, pulse_width};
use vstd::prelude::*;

verus! {

/// Whether the bit position under the decoder's pointer carries a one (`Even`)
/// or lies next to a clock transition and carries a zero (`Odd`).
#[derive(Copy, Clone, Debug, PartialEq, Eq, Structural)]
pub enum Parity {
    Even,
    Odd,
}

impl Parity {
    /// The other parity.
    pub open spec fn flipped(self) -> Parity {
        match self {
            Parity::Even => Parity::Odd,
            Parity::Odd => Parity::Even,
        }
    }

    /// The mask that lets a weight through under `Even` and blocks it under `Odd`.
    pub open spec fn mask(self) -> u16 {
        match self {
            Parity::Even => 0xFFFFu16,
            Parity::Odd => 0x0000u16,
        }
    }

    /// `0xFFFF` for `Even`, `0x0000` for `Odd`.
    pub fn as_mask(&self) -> (m: u16)
        ensures
            m == self.mask(),
    {
        match self {
            Parity::Even => 0xFFFF,
            Parity::Odd => 0x0,
        }
    }

    /// Whether two parities are the same.
    pub fn is(&self, other: &Parity) -> (same: bool)
        ensures
            same == (*self == *other),
    {
        self.as_mask() == other.as_mask()
    }

    /// The opposite parity; the receiver itself is left as it was.
    pub fn flip(&mut self) -> (p: Parity)
        ensures
            *final(self) == *old(self),
            p == old(self).flipped(),
    {
        match self {
            Parity::Even => Parity::Odd,
            Parity::Odd => Parity::Even,
        }
    }
}

/// One interval between two flux transitions, named after the bit cells it
/// spans: a one followed by one, two or three zeros.
#[derive(Copy, Clone, Debug, PartialEq, Eq, Structural)]
pub enum Symbol {
    /// Short, about 2 µs: `10`.
    Pulse10,
    /// Medium, about 3 µs: `100`.
    Pulse100,
    /// Long, about 4 µs: `1000`.
    Pulse1000,
}

impl Symbol {
    /// The symbol for a count of surplus zero cells: 0 is short, 1 is medium,
    /// anything else is long.
    pub open spec fn of_count(count: int) -> Symbol {
        if count == 0 {
            Symbol::Pulse10
        } else if count == 1 {
            Symbol::Pulse100
        } else {
            Symbol::Pulse1000
        }
    }

    /// Number of bit cells from one transition to the next.
    pub open spec fn span(self) -> nat {
        match self {
            Symbol::Pulse10 => 2,
            Symbol::Pulse100 => 3,
            Symbol::Pulse1000 => 4,
        }
    }

    /// Position of the symbol among the three classes, shortest first.
    pub open spec fn rank(self) -> int {
        self.span() - 2
    }

    /// Maps a class index to its symbol; every index but 0 and 1 is long.
    pub fn from(count: i16) -> (s: Symbol)
        ensures
            s == Symbol::of_count(count as int),
    {
        match count {
            0 => Symbol::Pulse10,
            1 => Symbol::Pulse100,
            _ => Symbol::Pulse1000,
        }
    }
}

/// Collapses a masked bit to 0 or 1.
pub fn simplify(byte: u16) -> (bit: u16)
    ensures
        bit == if byte > 0 { 1u16 } else { 0u16 },
{
    if byte > 0 {
        1
    } else {
        0
    }
}

/// What the encoder has written once the first `done` cells of the expansion
/// of `data` are behind it: `count` symbols, which are the completed ones, and
/// `sym`, one less than the number of zeros since the last transition.
pub open spec fn encoder_at(
    data: Seq<u8>,
    done: int,
    sym: i16,
    count: usize,
    flux_signals: Seq<Symbol>,
) -> bool {
    &&& count == flux_prefix(mfm_cells(data), done).len()
    &&& count <= flux_signals.len()
    &&& flux_signals.take(count as int) == flux_prefix(mfm_cells(data), done)
    &&& sym + 1 == pending_zeros(mfm_cells(data), done)
}

/// Runs the sixteen cells of byte `k` of `data` through the encoder.
#[verifier::rlimit(40)]
fn encode_byte(
    byte: u8,
    next: u8,
    sym: i16,
    count: usize,
    flux_signals: &mut [Symbol],
    Ghost(data): Ghost<Seq<u8>>,
    Ghost(k): Ghost<int>,
) -> (state: (i16, usize))
    requires
        0 <= k < data.len(),
        data[k] == byte,
        next == if k + 1 < data.len() { data[k + 1] } else { 0u8 },
        flux_of_cells(mfm_cells(data)).len() <= old(flux_signals)@.len(),
        encoder_at(data, 16 * k, sym, count, old(flux_signals)@),
    ensures
        final(flux_signals)@.len() == old(flux_signals)@.len(),
        encoder_at(data, 16 * k + 16, state.0, state.1, final(flux_signals)@),
        count <= state.1,
        forall|j: int|
            state.1 <= j < old(flux_signals)@.len() ==> final(flux_signals)@[j] == old(
                flux_signals,
            )@[j],
{
    let ghost cells = mfm_cells(data);
    let ghost start = count;
    let mut sym: i16 = sym;
    let mut count: usize = count;
    let mut bitmask: u8 = 0x80;
    let mut i: usize = 0;
    while i < 8
        invariant
            0 <= i <= 8,
            0 <= k < data.len(),
            data[k] == byte,
            next == if k + 1 < data.len() { data[k + 1] } else { 0u8 },
            cells == mfm_cells(data),
            i < 8 ==> bitmask as int == bit_weight(i as int),
            flux_signals@.len() == old(flux_signals)@.len(),
            flux_of_cells(cells).len() <= flux_signals@.len(),
            encoder_at(data, 16 * k + 2 * i, sym, count, flux_signals@),
            start <= count,
            forall|j: int|
                count <= j < old(flux_signals)@.len() ==> flux_signals@[j] == old(flux_signals)@[j],
        decreases 8 - i,
    {
        let ghost c = 16 * k + 2 * i as int;
        let x: u16 = (byte & bitmask) as u16;
        let y: u16 = if i < 7 {
            (byte & (bitmask >> 1)) as u16
        } else {
            (next & 0x80) as u16
        };
        proof {
            lemma_mask_reads_bit(byte, i as int);
            if i < 7 {
                assert(bitmask >> 1 == bitmask / 2) by (bit_vector);
                lemma_mask_reads_bit(byte, i as int + 1);
            } else {
                lemma_mask_reads_bit(next, 0);
            }
            assert(c / 2 == 8 * k + i);
            assert((8 * k + i) / 8 == k);
            assert((8 * k + i) % 8 == i as int);
            assert(cells[c] == mfm_cell(data, c));
            assert(cells[c] == (x > 0));
            assert((c + 1) / 2 == 8 * k + i);
            assert(cells[c + 1] == mfm_cell(data, c + 1));
            if i < 7 {
                assert((8 * k + i + 1) / 8 == k);
                assert((8 * k + i + 1) % 8 == i as int + 1);
            } else {
                assert((8 * k + i + 1) / 8 == k + 1);
                assert((8 * k + i + 1) % 8 == 0);
                assert(!bit_of(0u8, 0));
            }
            assert(data_bit(data, 8 * k + i + 1) == (y > 0));
            assert(cells[c + 1] == (x == 0 && y == 0));
            lemma_flux_prefix_within(cells, c + 1);
            lemma_flux_prefix_within(cells, c + 2);
        }
        // The data cell.
        if x > 0 && sym >= 0 {
            flux_signals[count] = Symbol::from(sym);
            count += 1;
            sym = -1;
        } else if x > 0 {
            sym = -1;
        } else {
            sym += 1;
        }
        assert(encoder_at(data, c + 1, sym, count, flux_signals@)) by {
            assert(flux_signals@.take(count as int) =~= flux_prefix(cells, c + 1));
        }
        // The clock cell between this data bit and the next.
        let sx: u16 = simplify(x);
        let sy: u16 = simplify(y);
        let z: u16 = !(sx | sy) & 0x1;
        assert(z == if sx == 0 && sy == 0 { 1u16 } else { 0u16 }) by (bit_vector)
            requires
                z == !(sx | sy) & 0x1,
                sx == 0 || sx == 1,
                sy == 0 || sy == 1,
        ;
        if z > 0 {
            if sym >= 0 {
                flux_signals[count] = Symbol::from(sym);
                count += 1;
            }
            sym = -1;
        } else {
            sym += 1;
        }
        assert(encoder_at(data, c + 2, sym, count, flux_signals@)) by {
            assert(flux_signals@.take(count as int) =~= flux_prefix(cells, c + 2));
        }
        bitmask = bitmask >> 1;
        i += 1;
    }
    (sym, count)
}

/// Encodes a lead-in byte and a payload into flux symbols.
///
/// The stream is the MFM expansion of `prefix_byte` followed by `bytes`, with
/// a zero byte assumed after the last one for the final clock bit. A symbol is
/// written for every run of zero cells that a transition closes, counted from
/// a transition taken to stand just before the first cell, and for the run
/// left open at the end. The symbols go to the front of `flux_signals`; the
/// rest of the buffer keeps what it held.
#[verifier::rlimit(40)]
pub fn mfm_prepare_write(prefix_byte: u8, bytes: &[u8], flux_signals: &mut [Symbol]) -> (count:
    usize)
    requires
        encoded(prefix_byte, bytes@).len() <= old(flux_signals)@.len(),
    ensures
        count == encoded(prefix_byte, bytes@).len(),
        final(flux_signals)@.len() == old(flux_signals)@.len(),
        final(flux_signals)@.take(count as int) == encoded(prefix_byte, bytes@),
        forall|j: int|
            count <= j < old(flux_signals)@.len() ==> final(flux_signals)@[j] == old(
                flux_signals,
            )@[j],
{
    let ghost data = seq![prefix_byte] + bytes@;
    let ghost cells = mfm_cells(data);
    let n: usize = bytes.len();
    let first_next: u8 = if n > 0 {
        bytes[0]
    } else {
        0
    };
    assert(flux_signals@.take(0) =~= flux_prefix(cells, 0));
    let (mut sym, mut count) = encode_byte(
        prefix_byte,
        first_next,
        -1,
        0,
        flux_signals,
        Ghost(data),
        Ghost(0),
    );
    let mut ind: usize = 0;
    while ind < n
        invariant
            0 <= ind <= n,
            n == bytes@.len(),
            data == seq![prefix_byte] + bytes@,
            cells == mfm_cells(data),
            flux_signals@.len() == old(flux_signals)@.len(),
            flux_of_cells(cells).len() <= flux_signals@.len(),
            encoder_at(data, 16 * (ind + 1), sym, count, flux_signals@),
            forall|j: int|
                count <= j < old(flux_signals)@.len() ==> flux_signals@[j] == old(flux_signals)@[j],
        decreases n - ind,
    {
        let byte: u8 = bytes[ind];
        let next: u8 = if ind + 1 < n {
            bytes[ind + 1]
        } else {
            0
        };
        let (s, c) = encode_byte(
            byte,
            next,
            sym,
            count,
            flux_signals,
            Ghost(data),
            Ghost(ind as int + 1),
        );
        sym = s;
        count = c;
        ind += 1;
    }
    assert(16 * (n + 1) == cells.len());
    if sym >= 0 {
        flux_signals[count] = Symbol::from(sym);
        count += 1;
    }
    assert(flux_signals@.take(count as int) =~= flux_of_cells(cells));
    count
}

/// Classifies one measured edge-to-edge interval of `cycles` CPU cycles on a
/// core that runs `cycles_per_micro` cycles each microsecond.
pub fn mfm_read_sym(cycles: u32, cycles_per_micro: u32) -> (sym: Symbol)
    ensures
        sym == classify(cycles as int, cycles_per_micro as int),
{
    let doubled: u64 = 2 * (cycles as u64);
    let low: u64 = 5 * (cycles_per_micro as u64);
    let high: u64 = 7 * (cycles_per_micro as u64);
    if doubled < low {
        Symbol::Pulse10
    } else if doubled > high {
        Symbol::Pulse1000
    } else {
        Symbol::Pulse100
    }
}

/// How often each class of symbol occurs in a stretch of flux.
#[derive(Copy, Clone, Debug, PartialEq, Eq, Structural)]
pub struct FluxStats {
    pub pulse_10: usize,
    pub pulse_100: usize,
    pub pulse_1000: usize,
}

/// Number of occurrences of `sym` in `flux`.
pub open spec fn count_of(flux: Seq<Symbol>, sym: Symbol) -> nat
    decreases flux.len(),
{
    if flux.len() == 0 {
        0
    } else {
        count_of(flux.drop_last(), sym) + if flux.last() == sym {
            1nat
        } else {
            0nat
        }
    }
}

/// No symbol occurs more often than the flux is long.
pub proof fn lemma_count_of_len(flux: Seq<Symbol>, sym: Symbol)
    ensures
        count_of(flux, sym) <= flux.len(),
    decreases flux.len(),
{
    if flux.len() > 0 {
        lemma_count_of_len(flux.drop_last(), sym);
    }
}

/// Buckets the symbols of one revolution by class.
pub fn mfm_dump_stats(flux: &[Symbol]) -> (stats: FluxStats)
    ensures
        stats.pulse_10 == count_of(flux@, Symbol::Pulse10),
        stats.pulse_100 == count_of(flux@, Symbol::Pulse100),
        stats.pulse_1000 == count_of(flux@, Symbol::Pulse1000),
{
    let mut pulse_10: usize = 0;
    let mut pulse_100: usize = 0;
    let mut pulse_1000: usize = 0;
    let n: usize = flux.len();
    let mut i: usize = 0;
    while i < n
        invariant
            0 <= i <= n,
            n == flux@.len(),
            pulse_10 == count_of(flux@.take(i as int), Symbol::Pulse10),
            pulse_100 == count_of(flux@.take(i as int), Symbol::Pulse100),
            pulse_1000 == count_of(flux@.take(i as int), Symbol::Pulse1000),
        decreases n - i,
    {
        proof {
            let next = flux@.take(i as int + 1);
            assert(next.drop_last() =~= flux@.take(i as int));
            assert(next.last() == flux@[i as int]);
            lemma_count_of_len(next, Symbol::Pulse10);
            lemma_count_of_len(next, Symbol::Pulse100);
            lemma_count_of_len(next, Symbol::Pulse1000);
        }
        match flux[i] {
            Symbol::Pulse10 => {
                pulse_10 += 1;
            },
            Symbol::Pulse100 => {
                pulse_100 += 1;
            },
            Symbol::Pulse1000 => {
                pulse_1000 += 1;
            },
        }
        i += 1;
    }
    assert(flux@.take(n as int) =~= flux@);
    FluxStats { pulse_10, pulse_100, pulse_1000 }
}

/// Turns the first `len` raw class indices of a capture into symbols.
pub fn mfm_read_flux(raw: &[i16], dst: &mut [Symbol; 4096], len: usize)
    requires
        len <= 4096,
        len <= raw@.len(),
    ensures
        forall|i: int| 0 <= i < len ==> final(dst)@[i] == Symbol::of_count(raw@[i] as int),
        forall|i: int| len <= i < 4096 ==> final(dst)@[i] == old(dst)@[i],
{
    let mut i: usize = 0;
    while i < len
        invariant
            0 <= i <= len,
            len <= 4096,
            len <= raw@.len(),
            forall|j: int| 0 <= j < i ==> dst@[j] == Symbol::of_count(raw@[j] as int),
            forall|j: int| i <= j < 4096 ==> dst@[j] == old(dst)@[j],
        decreases len - i,
    {
        dst[i] = Symbol::from(raw[i]);
        i += 1;
    }
}

/// A captured stretch of flux that is read from front to back. Running off
/// its end stands for the INDEX pulse cutting the read short.
pub struct FluxStream<'a> {
    symbols: &'a [Symbol],
    pos: usize,
}

impl<'a> FluxStream<'a> {
    /// The whole capture.
    pub closed spec fn symbols(&self) -> Seq<Symbol> {
        self.symbols@
    }

    /// Number of symbols read so far.
    pub closed spec fn pos(&self) -> int {
        self.pos as int
    }

    /// The read position lies within the capture.
    pub open spec fn wf(&self) -> bool {
        0 <= self.pos() <= self.symbols().len()
    }

    /// The symbols still to be read.
    pub open spec fn rest(&self) -> Seq<Symbol> {
        self.symbols().skip(self.pos())
    }

    /// A stream at the start of `symbols`.
    pub fn new(symbols: &'a [Symbol]) -> (stream: Self)
        ensures
            stream.wf(),
            stream.symbols() == symbols@,
            stream.pos() == 0,
    {
        FluxStream { symbols, pos: 0 }
    }

    /// Number of symbols read so far.
    pub fn position(&self) -> (pos: usize)
        requires
            self.wf(),
        ensures
            pos == self.pos(),
            pos <= self.symbols().len(),
    {
        self.pos
    }

    /// Reads the next symbol, or nothing at the end of the capture.
    pub fn next(&mut self) -> (sym: Option<Symbol>)
        requires
            old(self).wf(),
        ensures
            final(self).wf(),
            final(self).symbols() == old(self).symbols(),
            old(self).pos() < old(self).symbols().len() ==> sym == Some(
                old(self).symbols()[old(self).pos()],
            ) && final(self).pos() == old(self).pos() + 1,
            old(self).pos() >= old(self).symbols().len() ==> sym.is_none() && final(self).pos()
                == old(self).pos(),
    {
        if self.pos < self.symbols.len() {
            let sym = self.symbols[self.pos];
            self.pos = self.pos + 1;
            Some(sym)
        } else {
            None
        }
    }
}

/// Fills `arr` with the bytes that follow a sync mark.
///
/// The stream must stand just behind the mark. Symbols are read until the
/// last byte of `arr` is complete; the call then returns `true` and the
/// stream stands behind the symbol that completed it. If the stream ends
/// first, the call returns `false`: all of the stream is read, the bytes that
/// were completed are in `arr`, and the rest of `arr` is as it was. An empty
/// `arr` is full from the start.
#[verifier::rlimit(40)]
pub fn mfm_read_bytes(stream: &mut FluxStream, arr: &mut [u8]) -> (ok: bool)
    requires
        old(stream).wf(),
    ensures
        final(stream).wf(),
        final(stream).symbols() == old(stream).symbols(),
        old(stream).pos() <= final(stream).pos() <= old(stream).symbols().len(),
        final(arr)@.len() == old(arr)@.len(),
        ok == decoded(old(stream).rest(), old(arr)@.len()).is_some(),
        ok ==> final(arr)@ == decoded(old(stream).rest(), old(arr)@.len()).unwrap(),
        ok ==> symbols_used(
            old(stream).rest(),
            old(arr)@.len(),
            final(stream).pos() - old(stream).pos(),
        ),
        ok ==> final(stream).pos() == old(stream).pos() + field_end(
            old(stream).rest(),
            old(arr)@.len(),
        ),
        !ok ==> final(stream).pos() == old(stream).symbols().len(),
        !ok ==> forall|i: int|
            0 <= i < old(arr)@.len() ==> final(arr)@[i] == if i < bytes_complete(
                flux_span(old(stream).rest()),
            ) {
                byte_at(flux_cells(old(stream).rest()), 16 * i) as u8
            } else {
                old(arr)@[i]
            },
{
    let ghost flux = stream.rest();
    let ghost start = stream.pos();
    let n: usize = arr.len();
    if n == 0 {
        proof {
            assert(arr@ =~= decoded(flux, 0).unwrap());
            lemma_field_end(flux, 0, 0);
        }
        return true;
    }
    let first = match stream.next() {
        Some(sym) => sym,
        None => {
            assert(flux =~= Seq::<Symbol>::empty());
            return false;
        },
    };
    let mut decoder = ByteDecoder::start(first);
    let mut k: usize = 0;
    proof {
        assert(flux.take(1) =~= seq![first]);
        lemma_symbol_cells(first);
        lemma_flux_cells_push(Seq::<Symbol>::empty(), first);
        assert(Seq::<Symbol>::empty().push(first) =~= seq![first]);
    }
    loop
        invariant
            stream.wf(),
            stream.symbols() == old(stream).symbols(),
            flux == old(stream).rest(),
            start == old(stream).pos(),
            start < stream.pos() <= stream.symbols().len(),
            arr@.len() == n,
            n == old(arr)@.len(),
            n > 0,
            decoder.wf(),
            decoder.seen() == flux.take(stream.pos() - start),
            k == bytes_complete(flux_span(decoder.seen())),
            k < n,
            forall|i: int| 0 <= i < k ==> arr@[i] == byte_at(flux_cells(flux), 16 * i) as u8,
            forall|i: int| k <= i < n ==> arr@[i] == old(arr)@[i],
        decreases stream.symbols().len() - stream.pos(),
    {
        let ghost used = stream.pos() - start;
        let ghost seen = decoder.seen();
        let sym = match stream.next() {
            Some(sym) => sym,
            None => {
                assert(flux.take(used) =~= flux);
                return false;
            },
        };
        proof {
            assert(flux.take(used).push(sym) =~= flux.take(used + 1));
            lemma_flux_cells_push(seen, sym);
            lemma_symbol_cells(sym);
            lemma_flux_cells_take(flux, used + 1);
        }
        match decoder.push(sym) {
            Some(byte) => {
                proof {
                    let cells2 = flux_cells(seen.push(sym));
                    assert(cells2 == flux_cells(flux).take(cells2.len() as int));
                    assert(byte_at(cells2, 16 * k) == byte_at(flux_cells(flux), 16 * k));
                }
                arr[k] = byte;
                k += 1;
                if k == n {
                    proof {
                        lemma_flux_cells_take(flux, used);
                        assert(arr@ =~= decoded(flux, n as nat).unwrap());
                        lemma_field_end(flux, n as nat, used + 1);
                    }
                    return true;
                }
            },
            None => {},
        }
    }
}

/// Whether the first `used` symbols of `flux` are just enough to complete
/// `n` bytes: they span the cells of those bytes and the clock cell after
/// them, and one symbol fewer does not.
pub open spec fn symbols_used(flux: Seq<Symbol>, n: nat, used: int) -> bool {
    if n == 0 {
        used == 0
    } else {
        &&& 0 < used <= flux.len()
        &&& flux_span(flux.take(used)) >= 16 * n + 1
        &&& flux_span(flux.take(used - 1)) < 16 * n + 1
    }
}

/// Reads symbols until a sync mark has gone by.
///
/// Returns `true` with the stream behind the last symbol of the first mark
/// that the detector reports, or `false` with the stream at its end if it
/// reports none.
pub fn mfm_sync(stream: &mut FluxStream) -> (found: bool)
    requires
        old(stream).wf(),
    ensures
        final(stream).wf(),
        final(stream).symbols() == old(stream).symbols(),
        old(stream).pos() <= final(stream).pos() <= old(stream).symbols().len(),
        found ==> sync_ends_at(old(stream).rest(), final(stream).pos() - old(stream).pos()),
        found ==> sync_end(old(stream).rest()) == Some(final(stream).pos() - old(stream).pos()),
        !found ==> sync_missing(old(stream).rest()),
        !found ==> sync_end(old(stream).rest()).is_none(),
        !found ==> final(stream).pos() == old(stream).symbols().len(),
{
    let ghost flux = stream.rest();
    let ghost start = stream.pos();
    let mut scanner = SyncScanner::new();
    assert(flux.take(0) =~= Seq::<Symbol>::empty());
    loop
        invariant
            stream.wf(),
            stream.symbols() == old(stream).symbols(),
            flux == old(stream).rest(),
            start == old(stream).pos(),
            start <= stream.pos() <= stream.symbols().len(),
            scanner.wf(),
            scanner.seen() == flux.take(stream.pos() - start),
            forall|k: int| 0 <= k <= stream.pos() - start ==> !sync_found(#[trigger] flux.take(k)),
        decreases stream.symbols().len() - stream.pos(),
    {
        let ghost used = stream.pos() - start;
        let sym = match stream.next() {
            Some(sym) => sym,
            None => {
                proof {
                    lemma_sync_end_none(flux);
                }
                return false;
            },
        };
        assert(flux.take(used).push(sym) =~= flux.take(used + 1));
        if scanner.push(sym) {
            proof {
                lemma_sync_end(flux, used + 1);
            }
            return true;
        }
    }
}

/// The script that writes `flux` to the medium: WRITE GATE low, one pulse a
/// symbol, WRITE GATE high, and the data line left high.
pub open spec fn write_script(flux: Seq<Symbol>) -> Seq<PinOp> {
    seq![PinOp::Out { pin: GATE_PIN, power: Power::Low }] + Seq::new(
        flux.len(),
        |i: int| PinOp::Pulse { cycles: pulse_width(flux[i]) },
    ) + seq![
        PinOp::Out { pin: GATE_PIN, power: Power::High },
        PinOp::Out { pin: WRITE_PIN, power: Power::High },
    ]
}

/// Plans the emission of one field: WRITE GATE stays asserted from before
/// the first pulse until after the last symbol's dwell.
pub fn mfm_write_bytes(flux_signals: &[Symbol]) -> (script: Vec<PinOp>)
    ensures
        script@ == write_script(flux_signals@),
{
    let mut script: Vec<PinOp> = Vec::new();
    script.push(PinOp::Out { pin: GATE_PIN, power: Power::Low });
    let n: usize = flux_signals.len();
    let mut i: usize = 0;
    while i < n
        invariant
            0 <= i <= n,
            n == flux_signals@.len(),
            script@.len() == i + 1,
            script@[0] == (PinOp::Out { pin: GATE_PIN, power: Power::Low }),
            forall|j: int|
                0 <= j < i ==> script@[j + 1] == (PinOp::Pulse {
                    cycles: pulse_width(flux_signals@[j]),
                }),
        decreases n - i,
    {
        script.push(PinOp::Pulse { cycles: pulse_cycles(flux_signals[i]) });
        i += 1;
    }
    script.push(PinOp::Out { pin: GATE_PIN, power: Power::High });
    script.push(PinOp::Out { pin: WRITE_PIN, power: Power::High });
    assert(script@ =~= write_script(flux_signals@));
    script
}

/// Number of symbols that reading `n` bytes from the front of `flux` takes.
pub open spec fn field_end(flux: Seq<Symbol>, n: nat) -> int {
    choose|used: int| symbols_used(flux, n, used)
}

/// Reading `n` bytes takes one number of symbols only.
pub proof fn lemma_field_end(flux: Seq<Symbol>, n: nat, used: int)
    requires
        symbols_used(flux, n, used),
    ensures
        field_end(flux, n) == used,
{
    let other = choose|u: int| symbols_used(flux, n, u);
    if n > 0 {
        if other < used {
            lemma_flux_cells_take(flux.take(used - 1), other);
            assert(flux.take(used - 1).take(other) =~= flux.take(other));
        } else if used < other {
            lemma_flux_cells_take(flux.take(other - 1), used);
            assert(flux.take(other - 1).take(used) =~= flux.take(used));
        }
    }
}

} // verus!
