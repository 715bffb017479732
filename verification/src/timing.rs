//! Cycle budgets of the flux timer and the pulse emitter.

use crate::mfm::Symbol;
use vstd::prelude::*;

verus! {

/// Cycles from one write pulse to the next for a short symbol.
pub const T2: u32 = 544 * 2 / 3;

/// Cycles from one write pulse to the next for a medium symbol.
pub const T3: u32 = 940 / 2;

/// Cycles from one write pulse to the next for a long symbol.
pub const T4: u32 = 1336 * 2 / 3;

/// The class of an interval of `cycles` CPU cycles on a core that runs
/// `cycles_per_micro` cycles each microsecond: short below 2.5 µs, long above
/// 3.5 µs, medium from one boundary to the other.
pub open spec fn classify(cycles: int, cycles_per_micro: int) -> Symbol {
    if 2 * cycles < 5 * cycles_per_micro {
        Symbol::Pulse10
    } else if 2 * cycles > 7 * cycles_per_micro {
        Symbol::Pulse1000
    } else {
        Symbol::Pulse100
    }
}

/// The cycle budget of one emitted symbol.
pub open spec fn pulse_width(sym: Symbol) -> u32 {
    match sym {
        Symbol::Pulse10 => T2,
        Symbol::Pulse100 => T3,
        Symbol::Pulse1000 => T4,
    }
}

/// The cycle budget that the pulse emitter spends on `sym`.
pub fn pulse_cycles(sym: Symbol) -> (cycles: u32)
    ensures
        cycles == pulse_width(sym),
        cycles == 362 || cycles == 470 || cycles == 890,
{
    match sym {
        Symbol::Pulse10 => T2,
        Symbol::Pulse100 => T3,
        Symbol::Pulse1000 => T4,
    }
}

/// A longer interval never falls into a shorter class.
pub proof fn lemma_classify_monotone(c1: int, c2: int, cycles_per_micro: int)
    requires
        c1 <= c2,
    ensures
        classify(c1, cycles_per_micro).rank() <= classify(c2, cycles_per_micro).rank(),
{
}

/// One more cycle moves an interval up by at most one class: no class is
/// skipped at either boundary.
pub proof fn lemma_classify_no_skip(cycles: int, cycles_per_micro: int)
    requires
        0 <= cycles,
        0 <= cycles_per_micro,
    ensures
        classify(cycles + 1, cycles_per_micro).rank() - classify(cycles, cycles_per_micro).rank()
            <= 1,
{
}

/// Intervals strictly inside the three bands get the band's class.
pub proof fn lemma_classify_bands(c: int, c1: int, c2: int, cycles_per_micro: int)
    requires
        2 * c < 5 * cycles_per_micro,
        5 * cycles_per_micro < 2 * c1,
        2 * c1 < 7 * cycles_per_micro,
        7 * cycles_per_micro < 2 * c2,
    ensures
        classify(c, cycles_per_micro) == Symbol::Pulse10,
        classify(c1, cycles_per_micro) == Symbol::Pulse100,
        classify(c2, cycles_per_micro) == Symbol::Pulse1000,
{
}

} // verus!
