//! The transposition table's entries: a prior search result for a position
//! hash — the bound kind, the depth it was searched to, and its value.

use vstd::prelude::*;

verus! {

/// How a stored value bounds the true search value of the node.
pub enum Flag {
    /// The stored value is the node's exact search value.
    Exact,
    /// The search was cut off from below: the value is a lower bound.
    LowerBound,
    /// The search failed low: the value is an upper bound.
    UpperBound,
}

/// A prior search result, overwritten unconditionally on each store.
pub struct Entry {
    /// The bound kind of `value`.
    pub flag: Flag,
    /// The remaining depth the node was searched with.
    pub depth: i64,
    /// The (possibly bounding) negamax value recorded for the node.
    pub value: i64,
}

/// Every stored entry carries a non-negative depth and a value within the
/// terminal-score range, so a probed value can always be negated and
/// compared without overflow.
pub open spec fn tt_wf(t: Map<u64, Entry>) -> bool {
    forall|h: u64| t.contains_key(h) ==> 0 <= (#[trigger] t[h]).depth && -100 <= t[h].value <= 100
}

/// What probing key `h` with the caller's `(depth, alpha, beta)` yields.
pub ghost struct ProbeOutcome {
    /// The probe answers outright and no children are expanded.
    pub cut: bool,
    /// The stored value; meaningful only when `cut`.
    pub value: int,
    /// Alpha, possibly raised by a stored lower bound.
    pub alpha: int,
    /// Beta, possibly lowered by a stored upper bound.
    pub beta: int,
}

/// The probe rule: an entry searched at least as deep as asked tightens the
/// caller's window by its bound kind — an exact value answers at once, a
/// lower bound raises alpha, an upper bound lowers beta — and the stored
/// value answers outright when the tightened window closes. A missing or
/// too-shallow entry changes nothing.
pub open spec fn spec_probe(
    t: Map<u64, Entry>,
    h: u64,
    depth: int,
    alpha: int,
    beta: int,
) -> ProbeOutcome {
    if t.contains_key(h) && t[h].depth >= depth {
        let e = t[h];
        match e.flag {
            Flag::Exact => ProbeOutcome { cut: true, value: e.value as int, alpha, beta },
            Flag::LowerBound => {
                let a2 = if e.value > alpha {
                    e.value as int
                } else {
                    alpha
                };
                ProbeOutcome { cut: a2 >= beta, value: e.value as int, alpha: a2, beta }
            },
            Flag::UpperBound => {
                let b2 = if (e.value as int) < beta {
                    e.value as int
                } else {
                    beta
                };
                ProbeOutcome { cut: alpha >= b2, value: e.value as int, alpha, beta: b2 }
            },
        }
    } else {
        ProbeOutcome { cut: false, value: 0, alpha, beta }
    }
}

} // verus!
