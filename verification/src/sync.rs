//! The sync detector: finds the address mark in a flux stream.
//!
//! An address or data field starts with three `0xA1` bytes written with a
//! missing clock bit. On the flux level they are a fixed run of fifteen
//! symbols that no legal MFM data produces. To keep random data from
//! triggering it, the detector looks for the mark only behind a gap of at
//! least eighty short symbols.

use crate::mfm::Symbol;
use vstd::prelude::*;

verus! {

/// Number of consecutive short symbols that must come before a mark.
pub const SYNC_GAP: usize = 80;

/// Number of symbols in the mark.
pub const SYNC_LEN: usize = 15;

/// The mark: `M L M L M S L M L M S L M L M`.
pub open spec fn sync_mark() -> Seq<Symbol> {
    seq![
        Symbol::Pulse100,
        Symbol::Pulse1000,
        Symbol::Pulse100,
        Symbol::Pulse1000,
        Symbol::Pulse100,
        Symbol::Pulse10,
        Symbol::Pulse1000,
        Symbol::Pulse100,
        Symbol::Pulse1000,
        Symbol::Pulse100,
        Symbol::Pulse10,
        Symbol::Pulse1000,
        Symbol::Pulse100,
        Symbol::Pulse1000,
        Symbol::Pulse100,
    ]
}

/// Symbol `i` of the mark.
pub fn sync_symbol(i: usize) -> (sym: Symbol)
    requires
        i < SYNC_LEN,
    ensures
        sym == sync_mark()[i as int],
{
    if i == 5 || i == 10 {
        Symbol::Pulse10
    } else if i == 1 || i == 3 || i == 6 || i == 8 || i == 11 || i == 13 {
        Symbol::Pulse1000
    } else {
        Symbol::Pulse100
    }
}

/// One step of the detector. The state is the number of short symbols
/// counted in the gap and the number of symbols of the mark matched so far.
///
/// In the gap a short symbol is counted. Any other symbol starts the match
/// if the gap is long enough and the symbol is the first of the mark, and
/// otherwise empties the gap. In the match a symbol that continues the
/// mark is taken, and any other symbol, a short one too, empties the gap and
/// ends the match. A complete match stays complete.
pub open spec fn scan_step(state: (nat, nat), sym: Symbol) -> (nat, nat) {
    let (run, matched) = state;
    if matched >= SYNC_LEN {
        state
    } else if matched == 0 {
        if sym == Symbol::Pulse10 {
            (run + 1, 0)
        } else if run >= SYNC_GAP && sym == sync_mark()[0] {
            (run, 1)
        } else {
            (0, 0)
        }
    } else if sym == sync_mark()[matched as int] {
        (run, matched + 1)
    } else {
        (0, 0)
    }
}

/// The detector's state once it has taken in `flux`.
pub open spec fn scan_state(flux: Seq<Symbol>) -> (nat, nat)
    decreases flux.len(),
{
    if flux.len() == 0 {
        (0, 0)
    } else {
        scan_step(scan_state(flux.drop_last()), flux.last())
    }
}

/// Whether the detector has seen a whole mark once it has taken in `flux`.
pub open spec fn sync_found(flux: Seq<Symbol>) -> bool {
    scan_state(flux).1 == SYNC_LEN
}

/// Whether the detector, started at the front of `flux`, reports the mark
/// with symbol number `used` and not before.
pub open spec fn sync_ends_at(flux: Seq<Symbol>, used: int) -> bool {
    &&& 0 < used <= flux.len()
    &&& sync_found(flux.take(used))
    &&& forall|k: int| 0 <= k < used ==> !sync_found(#[trigger] flux.take(k))
}

/// Whether the detector, started at the front of `flux`, reaches its end
/// without a mark.
pub open spec fn sync_missing(flux: Seq<Symbol>) -> bool {
    forall|k: int| 0 <= k <= flux.len() ==> !sync_found(#[trigger] flux.take(k))
}

/// Number of consecutive short symbols just before position `k`.
pub open spec fn run_before(flux: Seq<Symbol>, k: int) -> nat
    decreases k,
{
    if k <= 0 || k > flux.len() {
        0
    } else if flux[k - 1] == Symbol::Pulse10 {
        run_before(flux, k - 1) + 1
    } else {
        0
    }
}

/// The detector between two symbols.
pub struct SyncScanner {
    run: usize,
    matched: usize,
    seen: Ghost<Seq<Symbol>>,
}

impl SyncScanner {
    /// The symbols taken in so far.
    pub closed spec fn seen(&self) -> Seq<Symbol> {
        self.seen@
    }

    /// The counters agree with the symbols taken in; the gap counter stops
    /// at the length it has to reach.
    pub closed spec fn wf(&self) -> bool {
        let (run, matched) = scan_state(self.seen@);
        &&& self.matched == matched
        &&& self.matched <= SYNC_LEN
        &&& self.run == if run < SYNC_GAP { run } else { SYNC_GAP as nat }
    }

    /// A detector that has seen nothing.
    pub fn new() -> (scanner: SyncScanner)
        ensures
            scanner.wf(),
            scanner.seen() == Seq::<Symbol>::empty(),
    {
        let ghost nothing = Seq::<Symbol>::empty();
        SyncScanner { run: 0, matched: 0, seen: Ghost(nothing) }
    }

    /// Takes in the next symbol and tells whether it completes the mark.
    pub fn push(&mut self, sym: Symbol) -> (found: bool)
        requires
            old(self).wf(),
        ensures
            final(self).wf(),
            final(self).seen() == old(self).seen().push(sym),
            found == sync_found(final(self).seen()),
    {
        proof {
            assert(self.seen@.push(sym).drop_last() =~= self.seen@);
        }
        if self.matched >= SYNC_LEN {
        } else if self.matched == 0 {
            match sym {
                Symbol::Pulse10 => {
                    if self.run < SYNC_GAP {
                        self.run = self.run + 1;
                    }
                },
                Symbol::Pulse100 => {
                    if self.run >= SYNC_GAP {
                        self.matched = 1;
                    } else {
                        self.run = 0;
                    }
                },
                Symbol::Pulse1000 => {
                    self.run = 0;
                },
            }
        } else if sym == sync_symbol(self.matched) {
            self.matched = self.matched + 1;
        } else {
            self.run = 0;
            self.matched = 0;
        }
        self.seen = Ghost(self.seen@.push(sym));
        self.matched == SYNC_LEN
    }
}

/// While no symbol other than a short one comes behind a gap of full length,
/// the detector stays in the gap and its count is the run of short symbols
/// before it.
proof fn lemma_scan_in_gap(flux: Seq<Symbol>, p: int, k: int)
    requires
        0 <= k <= p <= flux.len(),
        forall|q: int|
            0 <= q < p && flux[q] != Symbol::Pulse10 ==> #[trigger] run_before(flux, q) < SYNC_GAP,
    ensures
        scan_state(flux.take(k)) == (run_before(flux, k), 0nat),
    decreases k,
{
    if k > 0 {
        lemma_scan_in_gap(flux, p, k - 1);
        assert(flux.take(k).drop_last() =~= flux.take(k - 1));
        assert(flux.take(k).last() == flux[k - 1]);
        if flux[k - 1] != Symbol::Pulse10 {
            assert(run_before(flux, k - 1) < SYNC_GAP);
        }
    }
}

/// Behind a full gap, each symbol of the mark moves the match on by one.
proof fn lemma_scan_in_mark(flux: Seq<Symbol>, p: int, j: int)
    requires
        0 <= p,
        p + SYNC_LEN <= flux.len(),
        0 <= j <= SYNC_LEN,
        flux.subrange(p, p + SYNC_LEN) == sync_mark(),
        run_before(flux, p) >= SYNC_GAP,
        scan_state(flux.take(p)) == (run_before(flux, p), 0nat),
    ensures
        scan_state(flux.take(p + j)) == (run_before(flux, p), j as nat),
    decreases j,
{
    if j > 0 {
        lemma_scan_in_mark(flux, p, j - 1);
        assert(flux.take(p + j).drop_last() =~= flux.take(p + j - 1));
        assert(flux.take(p + j).last() == flux[p + j - 1]);
        assert(flux.subrange(p, p + SYNC_LEN)[j - 1] == flux[p + j - 1]);
    }
}

/// Sync detection stops at the mark. If a mark stands at position `p` behind
/// at least eighty short symbols, and no symbol before `p` other than a short
/// one comes behind eighty short symbols, the detector reports the mark with
/// its fifteenth symbol: it takes in exactly the `p + 15` symbols up to the
/// end of the mark.
pub proof fn lemma_sync_stops_at_mark(flux: Seq<Symbol>, p: int)
    requires
        0 <= p,
        p + SYNC_LEN <= flux.len(),
        flux.subrange(p, p + SYNC_LEN) == sync_mark(),
        run_before(flux, p) >= SYNC_GAP,
        forall|q: int|
            0 <= q < p && flux[q] != Symbol::Pulse10 ==> #[trigger] run_before(flux, q) < SYNC_GAP,
    ensures
        sync_ends_at(flux, p + SYNC_LEN),
{
    lemma_scan_in_gap(flux, p, p);
    lemma_scan_in_mark(flux, p, SYNC_LEN as int);
    assert forall|k: int| 0 <= k < p + SYNC_LEN implies !sync_found(#[trigger] flux.take(k)) by {
        if k <= p {
            lemma_scan_in_gap(flux, p, k);
        } else {
            lemma_scan_in_mark(flux, p, k - p);
        }
    }
}

/// Number of symbols up to the end of the first sync mark that the detector
/// reports in `flux`, if it reports one.
pub open spec fn sync_end(flux: Seq<Symbol>) -> Option<int> {
    if exists|used: int| sync_ends_at(flux, used) {
        Some(choose|used: int| sync_ends_at(flux, used))
    } else {
        None
    }
}

/// The detector reports the first mark at one place only.
pub proof fn lemma_sync_end(flux: Seq<Symbol>, used: int)
    requires
        sync_ends_at(flux, used),
    ensures
        sync_end(flux) == Some(used),
{
    let other = choose|u: int| sync_ends_at(flux, u);
    if other < used {
        assert(!sync_found(flux.take(other)));
    } else if used < other {
        assert(!sync_found(flux.take(used)));
    }
}

/// Where the detector reports no mark, there is no first mark.
pub proof fn lemma_sync_end_none(flux: Seq<Symbol>)
    requires
        sync_missing(flux),
    ensures
        sync_end(flux).is_none(),
{
    assert forall|used: int| !sync_ends_at(flux, used) by {
        if 0 < used <= flux.len() {
            assert(!sync_found(flux.take(used)));
        }
    }
}

} // verus!
