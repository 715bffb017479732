//! The byte decoder: a state machine that takes the flux symbols after a sync
//! mark one at a time and hands out a byte whenever one is complete.
//!
//! The last transition of the sync mark is the last data bit of the mark; the
//! cells that follow it are a clock cell, then the first data cell of the
//! first byte, and so on in turn. The decoder keeps a 16-bit window whose
//! high half collects the data bits of the current byte, a one-bit pointer
//! into that window, and the parity that tells whether the latest transition
//! fell on a data cell or on a clock cell.

use crate::cells::{
    byte_at, bytes_complete, flux_cells, flux_span, lemma_flux_cells_push, lemma_symbol_cells,
    symbol_cells,
};
use crate::mfm::{Parity, Symbol};
use vstd::prelude::*;

verus! {

/// The weight of data position `j` in the decoder's window: `0x8000` for the
/// first bit of the current byte, halved for each later one.
pub open spec fn window_weight(j: int) -> int {
    if j <= 0 {
        0x8000
    } else if j == 1 {
        0x4000
    } else if j == 2 {
        0x2000
    } else if j == 3 {
        0x1000
    } else if j == 4 {
        0x800
    } else if j == 5 {
        0x400
    } else if j == 6 {
        0x200
    } else if j == 7 {
        0x100
    } else if j == 8 {
        0x80
    } else {
        0x40
    }
}

/// The window once the first `p` data bits after the clock cell at `base`
/// are merged into it.
pub open spec fn window_value(cells: Seq<bool>, base: int, p: int) -> int
    decreases p,
{
    if p <= 0 {
        0
    } else {
        window_value(cells, base, p - 1) + if cells[base + 2 * (p - 1) + 1] {
            window_weight(p - 1)
        } else {
            0
        }
    }
}

/// The byte that `sym` completes when it arrives after `seen`, if it
/// completes one.
pub open spec fn completed_byte(seen: Seq<Symbol>, sym: Symbol) -> Option<u8> {
    let before = bytes_complete(flux_span(seen));
    let after = bytes_complete(flux_span(seen.push(sym)));
    if after > before {
        Some(byte_at(flux_cells(seen.push(sym)), 16 * (before as int)) as u8)
    } else {
        None
    }
}

/// The window depends only on the cells below its pointer.
pub proof fn lemma_window_same_cells(a: Seq<bool>, b: Seq<bool>, base: int, p: int)
    requires
        forall|i: int| base <= i < base + 2 * p ==> a[i] == b[i],
    ensures
        window_value(a, base, p) == window_value(b, base, p),
    decreases p,
{
    if p > 0 {
        lemma_window_same_cells(a, b, base, p - 1);
    }
}

/// With eight bits merged, the high half of the window is the byte.
pub proof fn lemma_window_full(cells: Seq<bool>, base: int)
    ensures
        window_value(cells, base, 8) == 256 * byte_at(cells, base),
        0 <= byte_at(cells, base) < 256,
        window_value(cells, base, 9) == window_value(cells, base, 8) + if cells[base + 17] {
            0x80int
        } else {
            0
        },
        window_value(cells, base, 0) == 0,
        window_value(cells, base, 1) == if cells[base + 1] { 0x8000int } else { 0 },
{
    assert(window_value(cells, base, 1) == window_value(cells, base, 0) + if cells[base + 1] {
        0x8000int
    } else {
        0
    });
    assert(window_value(cells, base, 2) == window_value(cells, base, 1) + if cells[base + 3] {
        0x4000int
    } else {
        0
    });
    assert(window_value(cells, base, 3) == window_value(cells, base, 2) + if cells[base + 5] {
        0x2000int
    } else {
        0
    });
    assert(window_value(cells, base, 4) == window_value(cells, base, 3) + if cells[base + 7] {
        0x1000int
    } else {
        0
    });
    assert(window_value(cells, base, 5) == window_value(cells, base, 4) + if cells[base + 9] {
        0x800int
    } else {
        0
    });
    assert(window_value(cells, base, 6) == window_value(cells, base, 5) + if cells[base + 11] {
        0x400int
    } else {
        0
    });
    assert(window_value(cells, base, 7) == window_value(cells, base, 6) + if cells[base + 13] {
        0x200int
    } else {
        0
    });
    assert(window_value(cells, base, 8) == window_value(cells, base, 7) + if cells[base + 15] {
        0x100int
    } else {
        0
    });
    assert(window_value(cells, base, 9) == window_value(cells, base, 8) + if cells[base + 17] {
        0x80int
    } else {
        0
    });
}

/// Flux that is not empty spans at least two cells and ends in a transition.
pub proof fn lemma_flux_cells_end(flux: Seq<Symbol>)
    requires
        flux.len() > 0,
    ensures
        flux_span(flux) >= 2,
        flux_cells(flux)[flux_span(flux) - 1],
{
    match flux.last() {
        Symbol::Pulse10 => {},
        Symbol::Pulse100 => {},
        Symbol::Pulse1000 => {},
    }
}

/// Whether no bit of the window `b` is set at or below the pointer `w`.
pub open spec fn aligned(b: u16, w: u16) -> bool {
    b & (w | (w >> 1) | (w >> 2) | (w >> 3) | (w >> 4) | (w >> 5) | (w >> 6) | (w >> 7) | (w >> 8)
        | (w >> 9) | (w >> 10) | (w >> 11) | (w >> 12) | (w >> 13) | (w >> 14) | (w >> 15)) == 0
}

/// Merging the pointer's bit into an aligned window adds its weight, and the
/// window stays aligned for the next position.
proof fn lemma_merge_bit(b: u16, w: u16)
    by (bit_vector)
    requires
        w == 0x8000 || w == 0x4000 || w == 0x2000 || w == 0x1000 || w == 0x800 || w == 0x400 || w
            == 0x200 || w == 0x100,
        aligned(b, w),
    ensures
        (b | (w & 0xFFFFu16)) as u32 == (b as u32) + (w as u32),
        (b | (w & 0x0000u16)) == b,
        aligned(b | (w & 0xFFFFu16), w >> 1),
        aligned(b, w >> 1),
{
}

/// Moving the pointer one more place keeps the window aligned.
proof fn lemma_skip_bit(b: u16, w: u16)
    by (bit_vector)
    requires
        w == 0x4000 || w == 0x2000 || w == 0x1000 || w == 0x800 || w == 0x400 || w == 0x200 || w
            == 0x100 || w == 0x80,
        aligned(b, w),
    ensures
        aligned(b, w >> 1),
{
}

/// Moving the low half of the window up keeps it aligned.
proof fn lemma_next_byte(b: u16, w: u16)
    by (bit_vector)
    requires
        w == 0x80 || w == 0x40,
        aligned(b, w),
    ensures
        (w << 8) as u32 == (w as u32) * 256,
        aligned(b << 8, w << 8),
{
}

/// What the shifts of the decoder do to a number.
proof fn lemma_shifts(b: u16)
    by (bit_vector)
    ensures
        b >> 1 == b / 2,
        b >> 8 == b / 256,
        (b >> 8) < 256,
        (b << 8) as u32 == ((b as u32) % 256) * 256,
{
}

/// The decoder's state between two symbols.
pub struct ByteDecoder {
    byte: u16,
    weight: u16,
    state: Parity,
    seen: Ghost<Seq<Symbol>>,
}

impl ByteDecoder {
    /// The symbols taken in since the sync mark.
    pub closed spec fn seen(&self) -> Seq<Symbol> {
        self.seen@
    }

    /// The window, the pointer and the parity agree with the symbols taken in.
    pub closed spec fn wf(&self) -> bool {
        let cells = flux_cells(self.seen@);
        let span = cells.len() as int;
        let done = (span - 1) / 16;
        let p = ((span - 1) % 16) / 2;
        &&& self.seen@.len() > 0
        &&& self.weight as int == window_weight(p)
        &&& (self.state == Parity::Even) == (span % 2 == 0)
        &&& self.byte as int == window_value(cells, 16 * done, p)
        &&& aligned(self.byte, self.weight)
    }

    /// Starts decoding with the first symbol after a sync mark.
    ///
    /// The mark's last transition already stands for a data bit, so the first
    /// symbol is not merged like the others: a medium one sets the parity to
    /// odd and moves the pointer on, a long one moves the pointer on, a short
    /// one changes nothing.
    pub fn start(first: Symbol) -> (decoder: ByteDecoder)
        ensures
            decoder.wf(),
            decoder.seen() == seq![first],
    {
        let mut state: Parity = Parity::Even;
        let mut weight: u16 = 0x8000;
        match first {
            Symbol::Pulse100 => {
                state = Parity::Odd;
                weight = weight >> 1;
            },
            Symbol::Pulse1000 => {
                weight = weight >> 1;
            },
            Symbol::Pulse10 => {},
        }
        proof {
            assert(0x8000u16 >> 1 == 0x4000u16) by (bit_vector);
            let seen = seq![first];
            lemma_flux_cells_push(Seq::<Symbol>::empty(), first);
            assert(Seq::<Symbol>::empty().push(first) =~= seen);
            assert(flux_cells(seen) =~= symbol_cells(first));
            let cells = flux_cells(seen);
            lemma_window_full(cells, 0);
            assert(aligned(0u16, weight)) by (bit_vector)
                requires
                    weight == 0x8000 || weight == 0x4000,
            ;
        }
        let ghost first_seen = seq![first];
        ByteDecoder { byte: 0, weight, state, seen: Ghost(first_seen) }
    }

    /// Takes in the next symbol and returns the byte that it completes, if any.
    ///
    /// The bit under the pointer is merged first: a one under even parity, a
    /// zero under odd parity. Then the pointer moves on by one place, and by
    /// one more for a long symbol or for a medium one under even parity; a
    /// medium symbol also flips the parity. Once the pointer has left the high
    /// half of the window, that half is the finished byte.
    #[verifier::rlimit(40)]
    pub fn push(&mut self, sym: Symbol) -> (out: Option<u8>)
        requires
            old(self).wf(),
        ensures
            final(self).wf(),
            final(self).seen() == old(self).seen().push(sym),
            out == completed_byte(old(self).seen(), sym),
    {
        let ghost seen = self.seen@;
        let ghost cells = flux_cells(seen);
        let ghost span = cells.len() as int;
        let ghost done = (span - 1) / 16;
        let ghost p = ((span - 1) % 16) / 2;
        let ghost base = 16 * done;
        let ghost seen2 = seen.push(sym);
        let ghost cells2 = flux_cells(seen2);
        let ghost span2 = cells2.len() as int;
        let ghost q = pointer_after(span, sym);
        let ghost byte0 = self.byte;
        let ghost weight0 = self.weight;
        proof {
            lemma_flux_cells_push(seen, sym);
            lemma_flux_cells_end(seen);
            lemma_pointer_step(span, sym);
            lemma_push_window(seen, sym);
            lemma_merge_bit(self.byte, self.weight);
            lemma_shifts(self.weight);
        }
        let mask: u16 = self.state.as_mask();
        self.byte = self.byte | (self.weight & mask);
        self.weight = self.weight >> 1;
        assert(self.byte as int == window_value(cells2, base, q));
        assert(aligned(self.byte, self.weight));
        assert(self.weight as int == window_weight(p + 1));
        match sym {
            Symbol::Pulse1000 => {
                proof {
                    lemma_skip_bit(self.byte, self.weight);
                    lemma_shifts(self.weight);
                }
                self.weight = self.weight >> 1;
            },
            Symbol::Pulse100 => {
                if self.state.is(&Parity::Even) {
                    proof {
                        lemma_skip_bit(self.byte, self.weight);
                        lemma_shifts(self.weight);
                    }
                    self.weight = self.weight >> 1;
                }
                self.state = self.state.flip();
            },
            Symbol::Pulse10 => {},
        }
        self.seen = Ghost(seen2);
        assert(self.weight as int == window_weight(q));
        assert((self.state == Parity::Even) == (span2 % 2 == 0));
        if self.weight <= 0x80 {
            proof {
                lemma_next_byte(self.byte, self.weight);
                lemma_shifts(self.byte);
                lemma_window_full(cells2, base);
                lemma_window_full(cells2, base + 16);
            }
            let out: u8 = (self.byte >> 8) as u8;
            self.byte = self.byte << 8;
            self.weight = self.weight << 8;
            Some(out)
        } else {
            None
        }
    }
}

/// Where the pointer stands, counted from the start of the byte that was
/// current before, once `sym` has arrived after `span` cells.
pub open spec fn pointer_after(span: int, sym: Symbol) -> int {
    (span + sym.span() - 1) / 2 - 8 * ((span - 1) / 16)
}

/// How one symbol moves the pointer, and when it completes a byte.
#[verifier::rlimit(40)]
proof fn lemma_pointer_step(span: int, sym: Symbol)
    requires
        span >= 2,
    ensures
        ({
            let done = (span - 1) / 16;
            let p = ((span - 1) % 16) / 2;
            let q = pointer_after(span, sym);
            let span2 = span + sym.span();
            &&& 0 <= p < 8
            &&& span % 2 == 0 ==> 16 * done + 2 * p + 1 == span - 1
            &&& span % 2 != 0 ==> 16 * done + 2 * p + 1 == span
            &&& q == p + 1 + if sym == Symbol::Pulse1000 || (sym == Symbol::Pulse100 && span % 2
                == 0) {
                1int
            } else {
                0int
            }
            &&& (span2 % 2 == 0) == (if sym == Symbol::Pulse100 {
                span % 2 != 0
            } else {
                span % 2 == 0
            })
            &&& q >= 8 ==> (span2 - 1) / 16 == done + 1 && ((span2 - 1) % 16) / 2 == q - 8
            &&& q < 8 ==> (span2 - 1) / 16 == done && ((span2 - 1) % 16) / 2 == q
        }),
{
}

/// What the window holds once `sym` has arrived: the bits merged before, the
/// bit that was under the pointer, and a zero where the pointer skips a place.
#[verifier::rlimit(40)]
proof fn lemma_push_window(seen: Seq<Symbol>, sym: Symbol)
    requires
        seen.len() > 0,
    ensures
        ({
            let cells = flux_cells(seen);
            let cells2 = flux_cells(seen.push(sym));
            let span = cells.len() as int;
            let base = 16 * ((span - 1) / 16);
            let p = ((span - 1) % 16) / 2;
            let q = pointer_after(span, sym);
            &&& window_value(cells2, base, p) == window_value(cells, base, p)
            &&& window_value(cells2, base, q) == window_value(cells, base, p) + if span % 2 == 0 {
                window_weight(p)
            } else {
                0
            }
        }),
{
    let cells = flux_cells(seen);
    let cells2 = flux_cells(seen.push(sym));
    let span = cells.len() as int;
    let base = 16 * ((span - 1) / 16);
    let p = ((span - 1) % 16) / 2;
    let q = pointer_after(span, sym);
    lemma_flux_cells_push(seen, sym);
    lemma_flux_cells_end(seen);
    lemma_pointer_step(span, sym);
    lemma_symbol_cells(sym);
    assert forall|i: int| 0 <= i < span implies cells2[i] == cells[i] by {}
    assert forall|i: int| 0 <= i < sym.span() implies cells2[span + i] == symbol_cells(sym)[i] by {}
    lemma_window_same_cells(cells, cells2, base, p);
    if span % 2 == 0 {
        assert(cells2[base + 2 * p + 1]);
    } else {
        assert(cells2[span + 0] == symbol_cells(sym)[0]);
        assert(!cells2[base + 2 * p + 1]);
    }
    assert(window_value(cells2, base, p + 1) == window_value(cells2, base, p) + if cells2[base + 2
        * p + 1] {
        window_weight(p)
    } else {
        0
    });
    if q == p + 2 {
        if span % 2 == 0 {
            assert(cells2[span + 1] == symbol_cells(sym)[1]);
        } else {
            assert(cells2[span + 2] == symbol_cells(sym)[2]);
        }
        assert(!cells2[base + 2 * (p + 1) + 1]);
        assert(window_value(cells2, base, p + 2) == window_value(cells2, base, p + 1));
    }
}

} // verus!
