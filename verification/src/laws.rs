//! What holds of the codec as a whole.

use crate::cells::{
    behind_mark, bit_of, byte_at, data_bit, decoded, encoded, flux_cells, flux_span,
    lemma_byte_is_sum_of_bits, lemma_first_symbol_cells, lemma_flux_cells_concat,
    lemma_flux_cells_push, lemma_longer_first_symbol, lemma_mfm_flux_cells,
    lemma_mfm_no_adjacent_ones, lemma_mfm_one_in_four, mfm_cell, mfm_cells, symbol_cells,
};
use crate::mfm::Symbol;
use vstd::prelude::*;

verus! {

/// Behind a sync mark the encoding of a lead-in byte and a payload spells
/// out the cells of their MFM expansion, one cell late: the first cell
/// behind the mark is the clock cell before the first data bit.
#[verifier::rlimit(40)]
pub proof fn lemma_cells_behind_mark(prefix_byte: u8, bytes: Seq<u8>)
    ensures
        ({
            let data = seq![prefix_byte] + bytes;
            let flux = behind_mark(bit_of(prefix_byte, 0), encoded(prefix_byte, bytes));
            &&& flux_span(flux) >= 16 * data.len() + 1
            &&& forall|c: int|
                0 <= c < 16 * data.len() ==> flux_cells(flux)[c + 1] == mfm_cell(data, c)
        }),
{
    let data = seq![prefix_byte] + bytes;
    let cells = mfm_cells(data);
    let plain = encoded(prefix_byte, bytes);
    let flux = behind_mark(bit_of(prefix_byte, 0), plain);
    let n = 16 * data.len() as int;
    assert(data[0] == prefix_byte);
    assert(cells[0] == mfm_cell(data, 0));
    assert(cells[0] == bit_of(prefix_byte, 0));
    lemma_mfm_flux_cells(data);
    if cells[0] {
        lemma_flux_cells_concat(seq![Symbol::Pulse10], plain);
        lemma_flux_cells_push(Seq::<Symbol>::empty(), Symbol::Pulse10);
        assert(Seq::<Symbol>::empty().push(Symbol::Pulse10) =~= seq![Symbol::Pulse10]);
        assert(flux_cells(seq![Symbol::Pulse10]) =~= symbol_cells(Symbol::Pulse10));
        assert forall|c: int| 0 <= c < n implies flux_cells(flux)[c + 1] == mfm_cell(data, c) by {
            if c > 0 {
                assert(cells.subrange(1, n)[c - 1] == cells[c]);
            }
        }
    } else {
        assert(flux_cells(plain).len() >= n);
        assert(plain.len() > 0);
        // One of the two cells behind a clear first data bit is set, so the
        // first run has at most two zeros.
        assert(cells[1] == mfm_cell(data, 1));
        assert(cells[2] == mfm_cell(data, 2));
        assert(cells[1] || cells[2]);
        lemma_first_symbol_cells(plain);
        if plain[0] == Symbol::Pulse1000 {
            assert(flux_cells(plain).take(4)[1] == symbol_cells(plain[0])[1]);
            assert(flux_cells(plain).take(4)[2] == symbol_cells(plain[0])[2]);
            assert(cells.subrange(0, n)[1] == cells[1]);
            assert(cells.subrange(0, n)[2] == cells[2]);
            assert(false);
        }
        lemma_longer_first_symbol(plain);
        assert forall|c: int| 0 <= c < n implies flux_cells(flux)[c + 1] == mfm_cell(data, c) by {
            assert(cells.subrange(0, n)[c] == cells[c]);
        }
    }
}

/// Round trip. What is encoded and put behind a sync mark decodes to itself:
/// reading `n` bytes there yields the first `n` bytes of the lead-in byte
/// and the payload, for every `n` up to the whole of them. No byte has to
/// follow the payload; the encoder closes the last clock cell as if a zero
/// byte did.
#[verifier::rlimit(40)]
pub proof fn lemma_round_trip(prefix_byte: u8, bytes: Seq<u8>, n: nat)
    requires
        n <= bytes.len() + 1,
    ensures
        decoded(behind_mark(bit_of(prefix_byte, 0), encoded(prefix_byte, bytes)), n) == Some(
            (seq![prefix_byte] + bytes).take(n as int),
        ),
{
    let data = seq![prefix_byte] + bytes;
    let flux = behind_mark(bit_of(prefix_byte, 0), encoded(prefix_byte, bytes));
    let cells = flux_cells(flux);
    lemma_cells_behind_mark(prefix_byte, bytes);
    let out = Seq::new(n, |i: int| byte_at(cells, 16 * i) as u8);
    assert forall|i: int| 0 <= i < n implies out[i] == data[i] by {
        let b = data[i];
        lemma_byte_is_sum_of_bits(b);
        assert forall|t: int| 0 <= t < 8 implies cells[16 * i + 2 * t + 1] == bit_of(b, t) by {
            let c = 16 * i + 2 * t;
            assert(cells[c + 1] == mfm_cell(data, c));
            assert(c / 2 == 8 * i + t);
            assert((8 * i + t) / 8 == i);
            assert((8 * i + t) % 8 == t);
            assert(mfm_cell(data, c) == data_bit(data, 8 * i + t));
        }
        assert(cells[16 * i + 2 * 0 + 1] == bit_of(b, 0));
        assert(cells[16 * i + 2 * 1 + 1] == bit_of(b, 1));
        assert(cells[16 * i + 2 * 2 + 1] == bit_of(b, 2));
        assert(cells[16 * i + 2 * 3 + 1] == bit_of(b, 3));
        assert(cells[16 * i + 2 * 4 + 1] == bit_of(b, 4));
        assert(cells[16 * i + 2 * 5 + 1] == bit_of(b, 5));
        assert(cells[16 * i + 2 * 6 + 1] == bit_of(b, 6));
        assert(cells[16 * i + 2 * 7 + 1] == bit_of(b, 7));
        assert(byte_at(cells, 16 * i) == b as int);
    }
    assert(out =~= data.take(n as int));
}

/// Round trip with a byte behind. Where a field is followed by one more
/// byte, the field is read back whatever that byte is: the byte only settles
/// the field's last clock bit.
pub proof fn lemma_round_trip_with_follower(prefix_byte: u8, bytes: Seq<u8>, follower: u8)
    ensures
        decoded(
            behind_mark(bit_of(prefix_byte, 0), encoded(prefix_byte, bytes.push(follower))),
            bytes.len() + 1,
        ) == Some(seq![prefix_byte] + bytes),
{
    lemma_round_trip(prefix_byte, bytes.push(follower), bytes.len() + 1);
    assert((seq![prefix_byte] + bytes.push(follower)).take(bytes.len() as int + 1)
        =~= seq![prefix_byte] + bytes);
}

/// Encoder legality. The expansion that the encoder works from never sets
/// two neighbouring cells and never leaves more than three zero cells in a
/// row, so each emitted symbol stands for a run of exactly one, two or three
/// zeros: read back as cells, the encoding is the expansion itself, without
/// a leading set cell, and closed by one transition if it ends in zeros.
pub proof fn lemma_encoding_is_legal(prefix_byte: u8, bytes: Seq<u8>)
    ensures
        ({
            let data = seq![prefix_byte] + bytes;
            let cells = mfm_cells(data);
            let n = 16 * data.len() as int;
            &&& forall|c: int| 0 <= c && c + 1 < n ==> !(#[trigger] cells[c] && cells[c + 1])
            &&& forall|c: int|
                0 <= c && c + 3 < n ==> #[trigger] cells[c] || cells[c + 1] || cells[c + 2]
                    || cells[c + 3]
            &&& flux_cells(encoded(prefix_byte, bytes)) == cells.subrange(
                if cells[0] { 1int } else { 0int },
                n,
            ) + (if cells[n - 1] {
                Seq::<bool>::empty()
            } else {
                seq![true]
            })
        }),
{
    let data = seq![prefix_byte] + bytes;
    let cells = mfm_cells(data);
    let n = 16 * data.len() as int;
    assert forall|c: int| 0 <= c && c + 1 < n implies !(#[trigger] cells[c] && cells[c + 1]) by {
        lemma_mfm_no_adjacent_ones(data, c);
    }
    assert forall|c: int| 0 <= c && c + 3 < n implies #[trigger] cells[c] || cells[c + 1]
        || cells[c + 2] || cells[c + 3] by {
        lemma_mfm_one_in_four(data, c);
    }
    lemma_mfm_flux_cells(data);
}

} // verus!
