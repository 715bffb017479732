//! The bit-cell model of MFM: how bytes expand to clock and data cells, how a
//! cell stream turns into flux symbols, and how symbols turn back into cells.
//!
//! A cell is `true` where the medium carries a flux transition. Data bits are
//! numbered most significant first; data bit `j` sits in cell `2 * j` and the
//! clock bit that follows it in cell `2 * j + 1`.

use crate::mfm::Symbol;
use vstd::prelude::*;

verus! {

/// The value of bit `i` of a byte, most significant first: 128 for bit 0 down
/// to 1 for bit 7.
pub open spec fn bit_weight(i: int) -> int {
    if i == 0 {
        128
    } else if i == 1 {
        64
    } else if i == 2 {
        32
    } else if i == 3 {
        16
    } else if i == 4 {
        8
    } else if i == 5 {
        4
    } else if i == 6 {
        2
    } else {
        1
    }
}

/// Whether bit `i` of `b` is set, most significant first.
pub open spec fn bit_of(b: u8, i: int) -> bool {
    (b as int / bit_weight(i)) % 2 == 1
}

/// Data bit `j` of a byte stream; every bit past the end reads as zero.
pub open spec fn data_bit(data: Seq<u8>, j: int) -> bool {
    0 <= j < 8 * data.len() && bit_of(data[j / 8], j % 8)
}

/// Cell `c` of the MFM expansion of `data`: a data cell repeats its data bit,
/// a clock cell is set exactly between two zero data bits.
pub open spec fn mfm_cell(data: Seq<u8>, c: int) -> bool {
    if c % 2 == 0 {
        data_bit(data, c / 2)
    } else {
        !data_bit(data, c / 2) && !data_bit(data, c / 2 + 1)
    }
}

/// The MFM expansion of `data`: sixteen cells a byte.
pub open spec fn mfm_cells(data: Seq<u8>) -> Seq<bool> {
    Seq::new(16 * data.len(), |c: int| mfm_cell(data, c))
}

/// Number of zero cells at the end of the first `k` cells.
pub open spec fn pending_zeros(cells: Seq<bool>, k: int) -> nat
    decreases k,
{
    if k <= 0 {
        0
    } else if cells[k - 1] {
        0
    } else {
        pending_zeros(cells, k - 1) + 1
    }
}

/// The symbol that closes a run of `zeros` zero cells: one zero is short, two
/// are medium, three or more are long.
pub open spec fn gap_symbol(zeros: nat) -> Symbol {
    Symbol::of_count(zeros - 1)
}

/// The symbols that the first `k` cells complete. A transition is taken to
/// stand just before the first cell; a set cell closes the run of zeros
/// before it and yields that run's symbol, or nothing if the run is empty.
pub open spec fn flux_prefix(cells: Seq<bool>, k: int) -> Seq<Symbol>
    decreases k,
{
    if k <= 0 {
        Seq::empty()
    } else {
        let before = flux_prefix(cells, k - 1);
        if cells[k - 1] && pending_zeros(cells, k - 1) > 0 {
            before.push(gap_symbol(pending_zeros(cells, k - 1)))
        } else {
            before
        }
    }
}

/// The flux image of a whole cell stream: the completed symbols, and one more
/// for the zeros left open at the end.
pub open spec fn flux_of_cells(cells: Seq<bool>) -> Seq<Symbol> {
    let n = cells.len() as int;
    if pending_zeros(cells, n) > 0 {
        flux_prefix(cells, n).push(gap_symbol(pending_zeros(cells, n)))
    } else {
        flux_prefix(cells, n)
    }
}

/// The flux image of a lead-in byte followed by a payload.
pub open spec fn encoded(prefix_byte: u8, bytes: Seq<u8>) -> Seq<Symbol> {
    flux_of_cells(mfm_cells(seq![prefix_byte] + bytes))
}

/// The cells of one symbol: its zeros, then the transition that ends it.
pub open spec fn symbol_cells(sym: Symbol) -> Seq<bool> {
    match sym {
        Symbol::Pulse10 => seq![false, true],
        Symbol::Pulse100 => seq![false, false, true],
        Symbol::Pulse1000 => seq![false, false, false, true],
    }
}

/// The cells that follow a transition when `flux` is read after it.
pub open spec fn flux_cells(flux: Seq<Symbol>) -> Seq<bool>
    decreases flux.len(),
{
    if flux.len() == 0 {
        Seq::empty()
    } else {
        flux_cells(flux.drop_last()) + symbol_cells(flux.last())
    }
}

/// Number of cells that `flux` spans.
pub open spec fn flux_span(flux: Seq<Symbol>) -> nat {
    flux_cells(flux).len()
}

/// The next longer class of symbol; a long one has none.
pub open spec fn longer(sym: Symbol) -> Symbol {
    match sym {
        Symbol::Pulse10 => Symbol::Pulse100,
        _ => Symbol::Pulse1000,
    }
}

/// What the head reads behind a sync mark when the encoding `flux` of a
/// field is on the medium there.
///
/// The encoding counts its first run of zeros from the cell just before the
/// field. Behind a mark that cell is a clock cell without a transition, and
/// the run starts one cell earlier, at the mark's last data bit. So the run
/// that ends in the field's first transition is one cell longer: where the
/// field starts with a set bit, `first_bit`, that run had no zeros and gave no
/// symbol, and is now a short one; else the first symbol becomes the next
/// longer one.
pub open spec fn behind_mark(first_bit: bool, flux: Seq<Symbol>) -> Seq<Symbol> {
    if first_bit {
        seq![Symbol::Pulse10] + flux
    } else if flux.len() > 0 {
        flux.update(0, longer(flux[0]))
    } else {
        flux
    }
}

/// The byte whose eight data bits sit in the cells after `base`, where the
/// cell at `base` is a clock cell: bit `i` is cell `base + 2 * i + 1`.
pub open spec fn byte_at(cells: Seq<bool>, base: int) -> int {
    (if cells[base + 1] { 128int } else { 0 })
    + (if cells[base + 3] { 64int } else { 0 })
    + (if cells[base + 5] { 32int } else { 0 })
    + (if cells[base + 7] { 16int } else { 0 })
    + (if cells[base + 9] { 8int } else { 0 })
    + (if cells[base + 11] { 4int } else { 0 })
    + (if cells[base + 13] { 2int } else { 0 })
    + (if cells[base + 15] { 1int } else { 0 })
}

/// Number of bytes that `span` cells of flux complete: byte `k` is complete
/// once a transition has arrived in or after the clock cell that follows its
/// last data bit.
pub open spec fn bytes_complete(span: nat) -> nat {
    if span == 0 {
        0
    } else {
        ((span - 1) / 16) as nat
    }
}

/// The first `n` bytes that `flux` holds when it is read after a sync mark,
/// if it spans enough cells to complete them.
pub open spec fn decoded(flux: Seq<Symbol>, n: nat) -> Option<Seq<u8>> {
    if n == 0 || flux_span(flux) >= 16 * n + 1 {
        Some(Seq::new(n, |i: int| byte_at(flux_cells(flux), 16 * i) as u8))
    } else {
        None
    }
}

// ---------------------------------------------------------------------------
// Facts about bytes and bits
// ---------------------------------------------------------------------------

/// A byte is the sum of the weights of its set bits.
pub proof fn lemma_byte_is_sum_of_bits(b: u8)
    ensures
        b as int == (if bit_of(b, 0) { 128int } else { 0 })
            + (if bit_of(b, 1) { 64int } else { 0 })
            + (if bit_of(b, 2) { 32int } else { 0 })
            + (if bit_of(b, 3) { 16int } else { 0 })
            + (if bit_of(b, 4) { 8int } else { 0 })
            + (if bit_of(b, 5) { 4int } else { 0 })
            + (if bit_of(b, 6) { 2int } else { 0 })
            + (if bit_of(b, 7) { 1int } else { 0 }),
{
    assert(b == (if (b / 128) % 2 == 1 { 128u8 } else { 0u8 })
        + (if (b / 64) % 2 == 1 { 64u8 } else { 0u8 })
        + (if (b / 32) % 2 == 1 { 32u8 } else { 0u8 })
        + (if (b / 16) % 2 == 1 { 16u8 } else { 0u8 })
        + (if (b / 8) % 2 == 1 { 8u8 } else { 0u8 })
        + (if (b / 4) % 2 == 1 { 4u8 } else { 0u8 })
        + (if (b / 2) % 2 == 1 { 2u8 } else { 0u8 })
        + (if (b / 1) % 2 == 1 { 1u8 } else { 0u8 })) by (bit_vector);
}

/// Masking a byte with the weight of bit `i` tells whether that bit is set.
pub proof fn lemma_mask_reads_bit(b: u8, i: int)
    requires
        0 <= i < 8,
    ensures
        (b & (bit_weight(i) as u8) != 0) == bit_of(b, i),
{
    let w: u8 = bit_weight(i) as u8;
    assert((w == 128 || w == 64 || w == 32 || w == 16 || w == 8 || w == 4 || w == 2 || w == 1)
        ==> ((b & w != 0) == ((b / w) % 2 == 1))) by (bit_vector);
}

// ---------------------------------------------------------------------------
// Facts about the flux image of a cell stream
// ---------------------------------------------------------------------------

/// The symbols completed by fewer cells are the first of those completed by
/// more cells.
pub proof fn lemma_flux_prefix_grows(cells: Seq<bool>, a: int, b: int)
    requires
        a <= b,
    ensures
        flux_prefix(cells, a).len() <= flux_prefix(cells, b).len(),
        flux_prefix(cells, b).take(flux_prefix(cells, a).len() as int) == flux_prefix(cells, a),
    decreases b - a,
{
    if a < b {
        lemma_flux_prefix_grows(cells, a, b - 1);
        if b <= 0 {
            assert(flux_prefix(cells, a) =~= flux_prefix(cells, b));
        } else {
            let mid = flux_prefix(cells, b - 1);
            if cells[b - 1] && pending_zeros(cells, b - 1) > 0 {
                assert(flux_prefix(cells, b) == mid.push(gap_symbol(pending_zeros(cells, b - 1))));
                assert(flux_prefix(cells, b).take(flux_prefix(cells, a).len() as int) =~= mid.take(
                    flux_prefix(cells, a).len() as int,
                ));
            }
        }
    } else {
        assert(flux_prefix(cells, b).take(flux_prefix(cells, a).len() as int) =~= flux_prefix(
            cells,
            a,
        ));
    }
}

/// The whole flux image starts with the symbols that any number of its cells
/// complete.
pub proof fn lemma_flux_prefix_within(cells: Seq<bool>, k: int)
    requires
        k <= cells.len(),
    ensures
        flux_prefix(cells, k).len() <= flux_of_cells(cells).len(),
        flux_of_cells(cells).take(flux_prefix(cells, k).len() as int) == flux_prefix(cells, k),
{
    let n = cells.len() as int;
    lemma_flux_prefix_grows(cells, k, n);
    assert(flux_of_cells(cells).take(flux_prefix(cells, k).len() as int) =~= flux_prefix(
        cells,
        n,
    ).take(flux_prefix(cells, k).len() as int));
}

/// No more symbols are completed than cells were read, and no more zeros are
/// pending.
pub proof fn lemma_flux_prefix_len(cells: Seq<bool>, k: int)
    requires
        0 <= k,
    ensures
        flux_prefix(cells, k).len() <= k,
        pending_zeros(cells, k) <= k,
    decreases k,
{
    if k > 0 {
        lemma_flux_prefix_len(cells, k - 1);
    }
}

// ---------------------------------------------------------------------------
// Run lengths of an MFM expansion
// ---------------------------------------------------------------------------

/// Two neighbouring cells of an MFM expansion are never both set.
pub proof fn lemma_mfm_no_adjacent_ones(data: Seq<u8>, c: int)
    ensures
        !(mfm_cell(data, c) && mfm_cell(data, c + 1)),
{
    if c % 2 == 0 {
        assert((c + 1) / 2 == c / 2);
    } else {
        assert((c + 1) / 2 == c / 2 + 1);
    }
}

/// Any four consecutive cells of an MFM expansion hold a set cell: no run of
/// zeros is longer than three.
pub proof fn lemma_mfm_one_in_four(data: Seq<u8>, c: int)
    ensures
        mfm_cell(data, c) || mfm_cell(data, c + 1) || mfm_cell(data, c + 2) || mfm_cell(
            data,
            c + 3,
        ),
{
    if c % 2 == 0 {
        assert((c + 1) / 2 == c / 2);
        assert((c + 2) / 2 == c / 2 + 1);
    } else {
        assert((c + 1) / 2 == c / 2 + 1);
        assert((c + 2) / 2 == c / 2 + 1);
        assert((c + 3) / 2 == c / 2 + 2);
    }
}

/// At no point of an MFM expansion are more than three zeros pending, and a
/// set cell past the first always closes at least one zero.
#[verifier::rlimit(40)]
pub proof fn lemma_mfm_pending_bounds(data: Seq<u8>, k: int)
    requires
        0 <= k <= 16 * data.len(),
    ensures
        pending_zeros(mfm_cells(data), k) <= 3,
        0 < k < 16 * data.len() && mfm_cells(data)[k] ==> pending_zeros(mfm_cells(data), k) >= 1,
{
    let cells = mfm_cells(data);
    if 0 < k < 16 * data.len() && cells[k] {
        lemma_mfm_no_adjacent_ones(data, k - 1);
        assert(cells[k - 1] == mfm_cell(data, k - 1));
        assert(cells[k] == mfm_cell(data, k));
    }
    if k >= 4 {
        lemma_mfm_one_in_four(data, k - 4);
        assert(cells[k - 1] == mfm_cell(data, k - 1));
        assert(cells[k - 2] == mfm_cell(data, k - 2));
        assert(cells[k - 3] == mfm_cell(data, k - 3));
        assert(cells[k - 4] == mfm_cell(data, k - 4));
        assert(pending_zeros(cells, k - 3) <= pending_zeros(cells, k - 4) + 1);
        assert(pending_zeros(cells, k - 2) <= pending_zeros(cells, k - 3) + 1);
        assert(pending_zeros(cells, k - 1) <= pending_zeros(cells, k - 2) + 1);
        assert(pending_zeros(cells, k) <= pending_zeros(cells, k - 1) + 1);
        if cells[k - 1] {
            assert(pending_zeros(cells, k) == 0);
        } else if cells[k - 2] {
            assert(pending_zeros(cells, k - 1) == 0);
        } else if cells[k - 3] {
            assert(pending_zeros(cells, k - 2) == 0);
        } else {
            assert(pending_zeros(cells, k - 3) == 0);
        }
    } else {
        lemma_flux_prefix_len(cells, k);
    }
}

/// In an MFM expansion a symbol is completed by at most every second cell.
pub proof fn lemma_mfm_flux_prefix_len(data: Seq<u8>, j: int)
    requires
        0 <= j <= 8 * data.len(),
    ensures
        flux_prefix(mfm_cells(data), 2 * j).len() <= j,
    decreases j,
{
    if j > 0 {
        let cells = mfm_cells(data);
        lemma_mfm_flux_prefix_len(data, j - 1);
        lemma_mfm_no_adjacent_ones(data, 2 * j - 2);
        assert(cells[2 * j - 2] == mfm_cell(data, 2 * j - 2));
        assert(cells[2 * j - 1] == mfm_cell(data, 2 * j - 1));
        assert(flux_prefix(cells, 2 * j - 1).len() <= flux_prefix(cells, 2 * j - 2).len() + (
        if cells[2 * j - 2] {
            1int
        } else {
            0int
        }));
    }
}

/// A lead-in byte and `n` payload bytes never encode to more than
/// `8 * (n + 1) + 1` symbols.
pub proof fn lemma_encoded_len(prefix_byte: u8, bytes: Seq<u8>)
    ensures
        encoded(prefix_byte, bytes).len() <= 8 * (bytes.len() + 1) + 1,
{
    let data = seq![prefix_byte] + bytes;
    lemma_mfm_flux_prefix_len(data, 8 * data.len() as int);
}

// ---------------------------------------------------------------------------
// From flux back to cells
// ---------------------------------------------------------------------------

/// A run of `n` zero cells.
pub open spec fn zero_cells(n: nat) -> Seq<bool> {
    Seq::new(n, |i: int| false)
}

/// Appending a symbol appends its cells.
pub proof fn lemma_flux_cells_push(flux: Seq<Symbol>, sym: Symbol)
    ensures
        flux_cells(flux.push(sym)) == flux_cells(flux) + symbol_cells(sym),
        flux_span(flux.push(sym)) == flux_span(flux) + sym.span(),
{
    assert(flux.push(sym).drop_last() =~= flux);
}

/// The cells of two stretches of flux, one after the other.
pub proof fn lemma_flux_cells_concat(a: Seq<Symbol>, b: Seq<Symbol>)
    ensures
        flux_cells(a + b) == flux_cells(a) + flux_cells(b),
    decreases b.len(),
{
    if b.len() == 0 {
        assert(a + b =~= a);
        assert(flux_cells(a) + flux_cells(b) =~= flux_cells(a));
    } else {
        lemma_flux_cells_concat(a, b.drop_last());
        assert((a + b).drop_last() =~= a + b.drop_last());
        assert(flux_cells(a + b) =~= flux_cells(a) + flux_cells(b));
    }
}

/// The cells of the first `k` symbols are the first cells of the whole.
pub proof fn lemma_flux_cells_take(flux: Seq<Symbol>, k: int)
    requires
        0 <= k <= flux.len(),
    ensures
        flux_span(flux.take(k)) <= flux_span(flux),
        flux_cells(flux).take(flux_span(flux.take(k)) as int) == flux_cells(flux.take(k)),
{
    lemma_flux_cells_concat(flux.take(k), flux.skip(k));
    assert(flux.take(k) + flux.skip(k) =~= flux);
    assert(flux_cells(flux).take(flux_span(flux.take(k)) as int) =~= flux_cells(flux.take(k)));
}

/// Every symbol spans at least two cells and at most four; its last cell is
/// the only one set.
pub proof fn lemma_symbol_cells(sym: Symbol)
    ensures
        symbol_cells(sym).len() == sym.span(),
        2 <= sym.span() <= 4,
        forall|i: int| 0 <= i < sym.span() ==> symbol_cells(sym)[i] == (i == sym.span() - 1),
{
}

/// Where the first `k` cells of an MFM expansion end, the completed symbols
/// and the pending zeros spell out those cells exactly: no run was cut short
/// or stretched. A leading set cell coincides with the transition before the
/// stream and is not repeated.
#[verifier::rlimit(40)]
pub proof fn lemma_mfm_flux_is_faithful(data: Seq<u8>, k: int)
    requires
        data.len() > 0,
        1 <= k <= 16 * data.len(),
    ensures
        flux_cells(flux_prefix(mfm_cells(data), k)) + zero_cells(
            pending_zeros(mfm_cells(data), k),
        ) == mfm_cells(data).subrange(if mfm_cells(data)[0] { 1int } else { 0int }, k),
    decreases k,
{
    let cells = mfm_cells(data);
    let lead = if cells[0] { 1int } else { 0int };
    if k == 1 {
        assert(flux_prefix(cells, 0) =~= Seq::<Symbol>::empty());
        assert(flux_prefix(cells, 1) =~= Seq::<Symbol>::empty());
        assert(flux_cells(flux_prefix(cells, 1)) =~= Seq::<bool>::empty());
        assert(flux_cells(flux_prefix(cells, k)) + zero_cells(pending_zeros(cells, k))
            =~= cells.subrange(lead, k));
    } else {
        lemma_mfm_flux_is_faithful(data, k - 1);
        lemma_mfm_pending_bounds(data, k - 1);
        let before = flux_prefix(cells, k - 1);
        let z = pending_zeros(cells, k - 1);
        if cells[k - 1] {
            let sym = gap_symbol(z);
            lemma_flux_cells_push(before, sym);
            assert(symbol_cells(sym) =~= zero_cells(z).push(true));
            assert(flux_cells(flux_prefix(cells, k)) + zero_cells(pending_zeros(cells, k))
                =~= (flux_cells(before) + zero_cells(z)).push(true));
            assert(cells.subrange(lead, k) =~= cells.subrange(lead, k - 1).push(true));
        } else {
            assert(flux_cells(flux_prefix(cells, k)) + zero_cells(pending_zeros(cells, k))
                =~= (flux_cells(before) + zero_cells(z)).push(false));
            assert(cells.subrange(lead, k) =~= cells.subrange(lead, k - 1).push(false));
        }
    }
}

/// The cells of the whole flux image of an MFM expansion: the expansion
/// itself, without a leading set cell, and closed by one more transition if
/// it ends in zeros.
pub proof fn lemma_mfm_flux_cells(data: Seq<u8>)
    requires
        data.len() > 0,
    ensures
        flux_cells(flux_of_cells(mfm_cells(data))) == mfm_cells(data).subrange(
            if mfm_cells(data)[0] { 1int } else { 0int },
            16 * data.len() as int,
        ) + (if mfm_cells(data)[16 * data.len() - 1] {
            Seq::<bool>::empty()
        } else {
            seq![true]
        }),
{
    let cells = mfm_cells(data);
    let n = 16 * data.len() as int;
    lemma_mfm_flux_is_faithful(data, n);
    lemma_mfm_pending_bounds(data, n);
    let z = pending_zeros(cells, n);
    let lead = if cells[0] { 1int } else { 0int };
    if z > 0 {
        lemma_flux_cells_push(flux_prefix(cells, n), gap_symbol(z));
        assert(symbol_cells(gap_symbol(z)) =~= zero_cells(z).push(true));
        assert(flux_cells(flux_of_cells(cells)) =~= (flux_cells(flux_prefix(cells, n))
            + zero_cells(z)).push(true));
        assert(cells.subrange(lead, n).push(true) =~= cells.subrange(lead, n) + seq![true]);
    } else {
        assert(flux_cells(flux_prefix(cells, n)) + zero_cells(z) =~= flux_cells(
            flux_prefix(cells, n),
        ));
        assert(cells.subrange(lead, n) + Seq::<bool>::empty() =~= cells.subrange(lead, n));
    }
}

/// Making the first symbol the next longer one puts one zero cell in front.
pub proof fn lemma_longer_first_symbol(flux: Seq<Symbol>)
    requires
        flux.len() > 0,
        flux[0] != Symbol::Pulse1000,
    ensures
        flux_cells(flux.update(0, longer(flux[0]))) == seq![false] + flux_cells(flux),
    decreases flux.len(),
{
    let bumped = flux.update(0, longer(flux[0]));
    if flux.len() == 1 {
        lemma_flux_cells_push(Seq::<Symbol>::empty(), flux[0]);
        lemma_flux_cells_push(Seq::<Symbol>::empty(), longer(flux[0]));
        assert(Seq::<Symbol>::empty().push(flux[0]) =~= flux);
        assert(Seq::<Symbol>::empty().push(longer(flux[0])) =~= bumped);
        assert(flux_cells(flux) =~= symbol_cells(flux[0]));
        assert(flux_cells(bumped) =~= symbol_cells(longer(flux[0])));
        assert(symbol_cells(longer(flux[0])) =~= seq![false] + symbol_cells(flux[0]));
    } else {
        lemma_longer_first_symbol(flux.drop_last());
        assert(bumped.drop_last() =~= flux.drop_last().update(0, longer(flux[0])));
        assert(bumped.last() == flux.last());
        assert(flux_cells(bumped) =~= seq![false] + flux_cells(flux));
    }
}

/// The cells of flux start with the cells of its first symbol.
pub proof fn lemma_first_symbol_cells(flux: Seq<Symbol>)
    requires
        flux.len() > 0,
    ensures
        flux_span(flux) >= flux[0].span(),
        flux_cells(flux).take(flux[0].span() as int) == symbol_cells(flux[0]),
{
    lemma_flux_cells_take(flux, 1);
    assert(flux.take(1) =~= seq![flux[0]]);
    lemma_flux_cells_push(Seq::<Symbol>::empty(), flux[0]);
    assert(Seq::<Symbol>::empty().push(flux[0]) =~= seq![flux[0]]);
    assert(flux_cells(seq![flux[0]]) =~= symbol_cells(flux[0]));
    lemma_symbol_cells(flux[0]);
}

} // verus!
