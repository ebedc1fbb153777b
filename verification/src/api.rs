//! The read surface: tip, balance at a height, and balance history, computed
//! from the states of a script's outputs. The balance over time is a
//! piecewise-constant function whose steps are the generation and spend
//! heights; history lists one point per height at which the balance changed.

use vstd::prelude::*;

use crate::store::{Store, unique_txo_keys};
use crate::types::{Amount, BlockHeight, OutPoint, ScriptHash, TXOState};

verus! {

/// Σ value over the states that hold their value at height `h`.
pub open spec fn spec_states_balance_at(states: Seq<TXOState>, h: int) -> int
    decreases states.len(),
{
    if states.len() == 0 {
        0
    } else {
        spec_states_balance_at(states.drop_last(), h) + if states.last().active_at(h) {
            states.last().value.satoshis as int
        } else {
            0
        }
    }
}

/// Σ value over the states never spent.
pub open spec fn spec_states_recent(states: Seq<TXOState>) -> int
    decreases states.len(),
{
    if states.len() == 0 {
        0
    } else {
        spec_states_recent(states.drop_last()) + match states.last().spent_height {
            None => states.last().value.satoshis as int,
            Some(_) => 0,
        }
    }
}

/// Σ value over all the states.
pub open spec fn spec_states_total(states: Seq<TXOState>) -> int
    decreases states.len(),
{
    if states.len() == 0 {
        0
    } else {
        spec_states_total(states.drop_last()) + states.last().value.satoshis as int
    }
}

/// The states of the outputs locked to script hash `s`, in table order.
pub open spec fn spec_script_states(rows: Seq<(OutPoint, TXOState)>, s: ScriptHash) -> Seq<TXOState>
    decreases rows.len(),
{
    if rows.len() == 0 {
        Seq::empty()
    } else {
        let rest = spec_script_states(rows.drop_last(), s);
        if rows.last().1.locker_script_hash == s {
            rest.push(rows.last().1)
        } else {
            rest
        }
    }
}

/// Σ value over outputs locked to `s`, generated at or before `h` and not
/// spent at or before `h`: the balance of `s` at height `h`.
pub open spec fn spec_balance_at(rows: Seq<(OutPoint, TXOState)>, s: ScriptHash, h: int) -> int {
    spec_states_balance_at(spec_script_states(rows, s), h)
}

/// Σ value over outputs locked to `s` that are unspent: the recent balance.
pub open spec fn spec_recent_balance(rows: Seq<(OutPoint, TXOState)>, s: ScriptHash) -> int {
    spec_states_recent(spec_script_states(rows, s))
}

/// Σ value over all outputs locked to `s`, spent or not.
pub open spec fn spec_script_total(rows: Seq<(OutPoint, TXOState)>, s: ScriptHash) -> int {
    spec_states_total(spec_script_states(rows, s))
}

/// The value a history reports at height `h`: the balance of the last point
/// at or before `h`, or 0 before the first point.
pub open spec fn spec_history_value_at(hist: Seq<(BlockHeight, Amount)>, h: int) -> int
    decreases hist.len(),
{
    if hist.len() == 0 {
        0
    } else if hist.last().0 <= h {
        hist.last().1.satoshis as int
    } else {
        spec_history_value_at(hist.drop_last(), h)
    }
}

/// Whether some output of `states` is generated or spent exactly at `x`.
pub open spec fn spec_is_event_height(states: Seq<TXOState>, x: u32) -> bool {
    exists|i: int|
        0 <= i < states.len() && ((#[trigger] states[i]).generated_height == x
            || states[i].spent_height == Some(x))
}

/// Balances never exceed the total locked value.
proof fn lemma_balance_le_total(states: Seq<TXOState>, h: int)
    ensures
        0 <= spec_states_balance_at(states, h) <= spec_states_total(states),
    decreases states.len(),
{
    if states.len() > 0 {
        lemma_balance_le_total(states.drop_last(), h);
    }
}

proof fn lemma_recent_le_total(states: Seq<TXOState>)
    ensures
        0 <= spec_states_recent(states) <= spec_states_total(states),
    decreases states.len(),
{
    if states.len() > 0 {
        lemma_recent_le_total(states.drop_last());
    }
}

/// Between two heights with no generation and no spend, the balance does not
/// move.
proof fn lemma_balance_constant(states: Seq<TXOState>, a: int, b: int)
    requires
        a <= b,
        forall|i: int|
            0 <= i < states.len() ==> !(a < (#[trigger] states[i]).generated_height <= b),
        forall|i: int|
            0 <= i < states.len() ==> match (#[trigger] states[i]).spent_height {
                Some(sp) => !(a < sp <= b),
                None => true,
            },
    ensures
        spec_states_balance_at(states, b) == spec_states_balance_at(states, a),
    decreases states.len(),
{
    if states.len() > 0 {
        lemma_balance_constant(states.drop_last(), a, b);
        let st = states.last();
        assert(st == states[states.len() - 1]);
        assert(st.active_at(b) == st.active_at(a));
    }
}

/// Before anything is generated the balance is 0.
proof fn lemma_balance_zero_before(states: Seq<TXOState>, h: int)
    requires
        forall|i: int| 0 <= i < states.len() ==> (#[trigger] states[i]).generated_height > h,
    ensures
        spec_states_balance_at(states, h) == 0,
    decreases states.len(),
{
    if states.len() > 0 {
        lemma_balance_zero_before(states.drop_last(), h);
    }
}

/// Σ value over the states that hold their value at height `h`.
pub fn sum_active_at(states: &Vec<TXOState>, h: BlockHeight) -> (r: u64)
    requires
        spec_states_total(states@) <= u64::MAX,
    ensures
        r == spec_states_balance_at(states@, h as int),
{
    let n = states.len();
    let mut sum: u64 = 0;
    let mut i: usize = 0;
    proof {
        lemma_subrange_total_le(states@, 0);
    }
    while i < n
        invariant
            0 <= i <= n,
            n == states@.len(),
            spec_states_total(states@) <= u64::MAX,
            sum == spec_states_balance_at(states@.subrange(0, i as int), h as int),
            spec_states_total(states@.subrange(0, i as int)) <= spec_states_total(states@),
        decreases n - i,
    {
        let st = states[i];
        proof {
            assert(states@.subrange(0, i + 1).drop_last() =~= states@.subrange(0, i as int));
            assert(states@.subrange(0, i + 1).last() == states@[i as int]);
            lemma_balance_le_total(states@.subrange(0, i as int), h as int);
            lemma_subrange_total_le(states@, i + 1);
        }
        let active = st.generated_height <= h && match st.spent_height {
            Some(sp) => sp > h,
            None => true,
        };
        if active {
            sum = sum + st.value.satoshis;
        }
        i = i + 1;
    }
    proof {
        assert(states@.subrange(0, n as int) =~= states@);
    }
    sum
}

/// The total of a prefix never exceeds the total.
proof fn lemma_subrange_total_le(states: Seq<TXOState>, i: int)
    requires
        0 <= i <= states.len(),
    ensures
        spec_states_total(states.subrange(0, i)) <= spec_states_total(states),
    decreases states.len() - i,
{
    if i == states.len() {
        assert(states.subrange(0, i) =~= states);
    } else {
        lemma_subrange_total_le(states, i + 1);
        assert(states.subrange(0, i + 1).drop_last() =~= states.subrange(0, i));
    }
}

/// Σ value over the unspent states.
pub fn sum_unspent(states: &Vec<TXOState>) -> (r: u64)
    requires
        spec_states_total(states@) <= u64::MAX,
    ensures
        r == spec_states_recent(states@),
{
    let n = states.len();
    let mut sum: u64 = 0;
    let mut i: usize = 0;
    proof {
        lemma_subrange_total_le(states@, 0);
    }
    while i < n
        invariant
            0 <= i <= n,
            n == states@.len(),
            spec_states_total(states@) <= u64::MAX,
            sum == spec_states_recent(states@.subrange(0, i as int)),
            spec_states_total(states@.subrange(0, i as int)) <= spec_states_total(states@),
        decreases n - i,
    {
        let st = states[i];
        proof {
            assert(states@.subrange(0, i + 1).drop_last() =~= states@.subrange(0, i as int));
            assert(states@.subrange(0, i + 1).last() == states@[i as int]);
            lemma_recent_le_total(states@.subrange(0, i as int));
            lemma_subrange_total_le(states@, i + 1);
        }
        let unspent = match st.spent_height {
            Some(_) => false,
            None => true,
        };
        if unspent {
            sum = sum + st.value.satoshis;
        }
        i = i + 1;
    }
    proof {
        assert(states@.subrange(0, n as int) =~= states@);
    }
    sum
}

/// The smallest generation or spend height of `states` strictly above
/// `bound`, if any.
fn find_next_event(states: &Vec<TXOState>, bound: Option<BlockHeight>) -> (r: Option<BlockHeight>)
    ensures
        match r {
            Some(m) => {
                &&& spec_is_event_height(states@, m)
                &&& match bound {
                    Some(b) => m > b,
                    None => true,
                }
                &&& forall|e: u32|
                    spec_is_event_height(states@, e) && (match bound {
                        Some(b) => e > b,
                        None => true,
                    }) ==> m <= e
            },
            None => forall|e: u32|
                spec_is_event_height(states@, e) ==> match bound {
                    Some(b) => e <= b,
                    None => false,
                },
        },
{
    let n = states.len();
    let mut best: Option<BlockHeight> = None;
    let mut i: usize = 0;
    while i < n
        invariant
            0 <= i <= n,
            n == states@.len(),
            match best {
                Some(m) => {
                    &&& spec_is_event_height(states@, m)
                    &&& match bound {
                        Some(b) => m > b,
                        None => true,
                    }
                    &&& forall|e: u32|
                        spec_is_event_height(states@.subrange(0, i as int), e) && (match bound {
                            Some(b) => e > b,
                            None => true,
                        }) ==> m <= e
                },
                None => forall|e: u32|
                    spec_is_event_height(states@.subrange(0, i as int), e) ==> match bound {
                        Some(b) => e <= b,
                        None => false,
                    },
            },
        decreases n - i,
    {
        let st = states[i];
        let ghost pre = states@.subrange(0, i as int);
        let ghost cur = states@.subrange(0, i + 1);
        proof {
            assert(cur[i as int] == states@[i as int]);
            assert forall|e: u32| spec_is_event_height(cur, e) implies (e
                == states@[i as int].generated_height || states@[i as int].spent_height == Some(e)
                || spec_is_event_height(pre, e)) by {
                let j = choose|j: int|
                    0 <= j < cur.len() && ((#[trigger] cur[j]).generated_height == e
                        || cur[j].spent_height == Some(e));
                if j < i {
                    assert(pre[j] == cur[j]);
                }
            }
            assert forall|e: u32| spec_is_event_height(pre, e) implies spec_is_event_height(
                cur,
                e,
            ) by {
                let j = choose|j: int|
                    0 <= j < pre.len() && ((#[trigger] pre[j]).generated_height == e
                        || pre[j].spent_height == Some(e));
                assert(cur[j] == pre[j]);
            }
        }
        let g = st.generated_height;
        let above_g = match bound {
            Some(b) => g > b,
            None => true,
        };
        if above_g {
            best = match best {
                None => Some(g),
                Some(m) => if g < m {
                    Some(g)
                } else {
                    Some(m)
                },
            };
        }
        match st.spent_height {
            Some(sp) => {
                let above_sp = match bound {
                    Some(b) => sp > b,
                    None => true,
                };
                if above_sp {
                    best = match best {
                        None => Some(sp),
                        Some(m) => if sp < m {
                            Some(sp)
                        } else {
                            Some(m)
                        },
                    };
                }
            },
            None => {},
        }
        proof {
            assert(spec_is_event_height(states@, states@[i as int].generated_height));
            match states@[i as int].spent_height {
                Some(sp) => {
                    assert(spec_is_event_height(states@, sp));
                },
                None => {},
            }
        }
        i = i + 1;
    }
    proof {
        assert(states@.subrange(0, n as int) =~= states@);
    }
    best
}

/// The next bound the history loop has settled everything below: the next
/// event height, or one past the largest height once all events are done.
pub open spec fn spec_next_bound(heights: Seq<BlockHeight>, k: int) -> int {
    if k < heights.len() {
        heights[k] as int
    } else {
        0x1_0000_0000
    }
}

/// The balance history of the given output states: one point per height at
/// which the balance changed, strictly ascending, each point carrying the
/// balance at its height; at any height the balance equals the value of the
/// last point at or before it.
#[verifier::loop_isolation(false)]
#[verifier::rlimit(60)]
pub fn balance_history_from_states(states: &Vec<TXOState>) -> (r: Vec<(BlockHeight, Amount)>)
    requires
        forall|i: int| 0 <= i < states@.len() ==> (#[trigger] states@[i]).wf(),
        spec_states_total(states@) <= u64::MAX,
    ensures
        forall|i: int, j: int| 0 <= i < j < r@.len() ==> r@[i].0 < r@[j].0,
        forall|i: int|
            0 <= i < r@.len() ==> (#[trigger] r@[i]).1.satoshis == spec_states_balance_at(
                states@,
                r@[i].0 as int,
            ),
        forall|h: int|
            0 <= h <= u32::MAX ==> spec_states_balance_at(states@, h) == spec_history_value_at(
                r@,
                h,
            ),
        forall|i: int| 0 < i < r@.len() ==> (#[trigger] r@[i]).1 != r@[i - 1].1,
        r@.len() > 0 ==> r@[0].1.satoshis != 0,
{
    let mut heights: Vec<BlockHeight> = Vec::new();
    let mut next = find_next_event(states, None);
    while next.is_some()
        invariant
            forall|i: int|
                0 <= i < heights@.len() ==> spec_is_event_height(
                    states@,
                    #[trigger] heights@[i],
                ),
            forall|i: int, j: int| 0 <= i < j < heights@.len() ==> heights@[i] < heights@[j],
            match next {
                Some(m) => {
                    &&& spec_is_event_height(states@, m)
                    &&& forall|i: int| 0 <= i < heights@.len() ==> heights@[i] < m
                    &&& forall|e: u32|
                        spec_is_event_height(states@, e) ==> heights@.contains(e) || e >= m
                },
                None => forall|e: u32| spec_is_event_height(states@, e) ==> heights@.contains(e),
            },
        decreases (match next {
            Some(m) => 0x1_0000_0000 - m as int,
            None => 0int,
        }),
    {
        let m = next.unwrap();
        let ghost prev_heights = heights@;
        heights.push(m);
        next = find_next_event(states, Some(m));
        proof {
            crate::store::lemma_push_preserves_contains(prev_heights, m);
        }
    }

    let hn = heights.len();
    let mut hist: Vec<(BlockHeight, Amount)> = Vec::new();
    let mut prev: u64 = 0;
    let mut k: usize = 0;
    proof {
        if hn == 0 {
            if states@.len() > 0 {
                assert(spec_is_event_height(states@, states@[0].generated_height));
            }
            assert(states@.len() == 0);
        } else {
            assert forall|h: int| 0 <= h < spec_next_bound(heights@, 0) implies
                spec_states_balance_at(states@, h) == spec_history_value_at(
                Seq::<(BlockHeight, Amount)>::empty(),
                h,
            ) by {
                assert forall|i: int| 0 <= i < states@.len() implies (
                #[trigger] states@[i]).generated_height > h by {
                    let g = states@[i].generated_height;
                    assert(spec_is_event_height(states@, g));
                    if g <= h {
                        let j = choose|j: int| 0 <= j < heights@.len() && heights@[j] == g;
                        if j > 0 {
                            assert(heights@[0] < heights@[j]);
                        }
                        assert(heights@[0] as int <= g);
                    }
                }
                lemma_balance_zero_before(states@, h);
            }
        }
    }
    while k < hn
        invariant
            0 <= k <= hn,
            forall|i: int, j: int| 0 <= i < j < hist@.len() ==> hist@[i].0 < hist@[j].0,
            forall|i: int|
                0 <= i < hist@.len() ==> (#[trigger] hist@[i]).1.satoshis
                    == spec_states_balance_at(states@, hist@[i].0 as int),
            forall|i: int|
                0 <= i < hist@.len() ==> exists|j: int|
                    0 <= j < k && (#[trigger] hist@[i]).0 == heights@[j],
            prev == if hist@.len() == 0 {
                0int
            } else {
                hist@.last().1.satoshis as int
            },
            forall|h: int|
                0 <= h < spec_next_bound(heights@, k as int) ==> spec_states_balance_at(
                    states@,
                    h,
                ) == spec_history_value_at(hist@, h),
            forall|i: int| 0 < i < hist@.len() ==> (#[trigger] hist@[i]).1 != hist@[i - 1].1,
            hist@.len() > 0 ==> hist@[0].1.satoshis != 0,
        decreases hn - k,
    {
        let h = heights[k];
        let b = sum_active_at(states, h);
        let ghost prev_hist = hist@;
        let ghost prev_prev = prev;
        if b != prev {
            hist.push((h, Amount { satoshis: b }));
            prev = b;
        }
        proof {
            // Points so far sit strictly below heights[k].
            assert forall|i: int| 0 <= i < prev_hist.len() implies (#[trigger] prev_hist[i]).0
                < heights@[k as int] by {
                let j = choose|j: int| 0 <= j < k && prev_hist[i].0 == heights@[j];
                assert(heights@[j] < heights@[k as int]);
            }
            // The balance is flat from heights[k] up to the next bound.
            assert forall|hh: int|
                heights@[k as int] <= hh < spec_next_bound(heights@, k + 1) implies
                spec_states_balance_at(states@, hh) == b by {
                assert forall|i: int| 0 <= i < states@.len() implies !((h as int) < (
                #[trigger] states@[i]).generated_height <= hh) by {
                    let g = states@[i].generated_height;
                    if (h as int) < (g as int) <= hh {
                        assert(spec_is_event_height(states@, g));
                        let j = choose|j: int| 0 <= j < heights@.len() && heights@[j] == g;
                        if j <= k {
                            assert(heights@[j] <= heights@[k as int]);
                        } else {
                            assert(heights@[k + 1] <= heights@[j]);
                        }
                    }
                }
                assert forall|i: int| 0 <= i < states@.len() implies match (
                #[trigger] states@[i]).spent_height {
                    Some(sp) => !((h as int) < sp <= hh),
                    None => true,
                } by {
                    match states@[i].spent_height {
                        Some(sp) => {
                            if (h as int) < (sp as int) <= hh {
                                assert(spec_is_event_height(states@, sp));
                                let j = choose|j: int|
                                    0 <= j < heights@.len() && heights@[j] == sp;
                                if j <= k {
                                    assert(heights@[j] <= heights@[k as int]);
                                } else {
                                    assert(heights@[k + 1] <= heights@[j]);
                                }
                            }
                        },
                        None => {},
                    }
                }
                lemma_balance_constant(states@, h as int, hh);
            }
            // The new history answers every height below the new bound.
            assert forall|hh: int| 0 <= hh < spec_next_bound(heights@, k + 1) implies
                spec_states_balance_at(states@, hh) == spec_history_value_at(hist@, hh) by {
                if hh < heights@[k as int] {
                    if b != prev_prev {
                        assert(hist@.drop_last() =~= prev_hist);
                    }
                } else {
                    if b != prev_prev {
                        assert(hist@.last() == (heights@[k as int], Amount { satoshis: b }));
                    } else {
                        if prev_hist.len() > 0 {
                            assert(prev_hist.last().0 <= hh);
                        }
                    }
                }
            }
            if b != prev_prev {
                assert(hist@.drop_last() =~= prev_hist);
                assert(hist@[hist@.len() - 1].1.satoshis == b);
            }
        }
        k = k + 1;
    }
    proof {
        assert(spec_next_bound(heights@, hn as int) == 0x1_0000_0000);
    }
    hist
}

/// Σ value of the unspent outputs among the given states.
pub fn recent_balance_from_states(states: &Vec<TXOState>) -> (r: Amount)
    requires
        spec_states_total(states@) <= u64::MAX,
    ensures
        r.satoshis == spec_states_recent(states@),
{
    Amount { satoshis: sum_unspent(states) }
}

/// The outpoints recorded under script hash `s` in the per-script index, in
/// index order.
pub open spec fn spec_script_outpoints(index: Seq<(ScriptHash, OutPoint)>, s: ScriptHash) -> Seq<OutPoint>
    decreases index.len(),
{
    if index.len() == 0 {
        Seq::empty()
    } else {
        let rest = spec_script_outpoints(index.drop_last(), s);
        if index.last().0 == s {
            rest.push(index.last().1)
        } else {
            rest
        }
    }
}

/// A read was refused.
#[derive(Clone, Copy, Debug, PartialEq, Eq, Structural)]
pub enum ReadError {
    /// A batched lookup was handed outpoints out of key order.
    UnsortedOutpoints,
    /// A script given in hex held a non-digit or an odd number of digits.
    InvalidHex,
}

/// The value of one hex digit, or -1 for any other byte.
pub open spec fn spec_hex_val(c: u8) -> int {
    if 0x30 <= c <= 0x39 {
        c - 0x30
    } else if 0x61 <= c <= 0x66 {
        c - 0x61 + 10
    } else if 0x41 <= c <= 0x46 {
        c - 0x41 + 10
    } else {
        -1
    }
}

/// An even run of hex digits.
pub open spec fn spec_hex_valid(s: Seq<u8>) -> bool {
    s.len() % 2 == 0 && forall|i: int| 0 <= i < s.len() ==> spec_hex_val(#[trigger] s[i]) >= 0
}

/// The bytes an even run of hex digits spells.
pub open spec fn spec_hex_decoded(s: Seq<u8>) -> Seq<u8> {
    Seq::new((s.len() / 2) as nat, |i: int| (spec_hex_val(s[2 * i]) * 16 + spec_hex_val(s[2 * i + 1])) as u8)
}

fn hex_val(c: u8) -> (r: Option<u8>)
    ensures
        match r {
            Some(v) => v == spec_hex_val(c) && v < 16,
            None => spec_hex_val(c) < 0,
        },
{
    if 0x30 <= c && c <= 0x39 {
        Some(c - 0x30)
    } else if 0x61 <= c && c <= 0x66 {
        Some(c - 0x61 + 10)
    } else if 0x41 <= c && c <= 0x46 {
        Some(c - 0x41 + 10)
    } else {
        None
    }
}

/// Decode a script given as hex digits.
pub fn decode_hex(s: &[u8]) -> (r: Result<Vec<u8>, ReadError>)
    ensures
        match r {
            Ok(bytes) => spec_hex_valid(s@) && bytes@ == spec_hex_decoded(s@),
            Err(e) => e == ReadError::InvalidHex && !spec_hex_valid(s@),
        },
{
    let n = s.len();
    if n % 2 != 0 {
        return Err(ReadError::InvalidHex);
    }
    let mut out: Vec<u8> = Vec::new();
    let mut i: usize = 0;
    while i < n
        invariant
            0 <= i <= n,
            i % 2 == 0,
            n % 2 == 0,
            n == s@.len(),
            out@.len() == i / 2,
            forall|j: int| 0 <= j < i ==> spec_hex_val(#[trigger] s@[j]) >= 0,
            forall|j: int|
                0 <= j < out@.len() ==> out@[j] == (spec_hex_val(s@[2 * j]) * 16 + spec_hex_val(
                    s@[2 * j + 1],
                )) as u8,
        decreases n - i,
    {
        let hi = match hex_val(s[i]) {
            Some(v) => v,
            None => {
                return Err(ReadError::InvalidHex);
            },
        };
        let lo = match hex_val(s[i + 1]) {
            Some(v) => v,
            None => {
                return Err(ReadError::InvalidHex);
            },
        };
        out.push(hi * 16 + lo);
        i = i + 2;
    }
    proof {
        assert(out@ =~= spec_hex_decoded(s@));
    }
    Ok(out)
}

/// Resolve a locking script given in hex to the account key the index uses:
/// the script's hash160.
pub fn locker_script_from_hex(hex_digits: &[u8]) -> (r: Result<ScriptHash, ReadError>)
    ensures
        match r {
            Ok(h) => spec_hex_valid(hex_digits@) && h.bytes == crate::block::hash160_of(
                spec_hex_decoded(hex_digits@),
            ),
            Err(e) => e == ReadError::InvalidHex && !spec_hex_valid(hex_digits@),
        },
{
    let bytes = match decode_hex(hex_digits) {
        Ok(bytes) => bytes,
        Err(e) => {
            return Err(e);
        },
    };
    Ok(crate::block::script_hash160(&crate::block::Script { bytes }))
}

/// The key order of the output-state table: txid bytes lexicographically,
/// then the output index.
pub open spec fn spec_outpoint_le(a: OutPoint, b: OutPoint) -> bool {
    if a.txid.bytes@ == b.txid.bytes@ {
        a.vout <= b.vout
    } else {
        crate::codec::spec_lex_lt(a.txid.bytes@, b.txid.bytes@)
    }
}

/// Equal-length byte strings with a first difference at `i` order by it.
proof fn lemma_lex_lt_at_first_difference(a: Seq<u8>, b: Seq<u8>, i: int)
    requires
        a.len() == b.len(),
        0 <= i < a.len(),
        forall|j: int| 0 <= j < i ==> a[j] == b[j],
        a[i] != b[i],
    ensures
        crate::codec::spec_lex_lt(a, b) == (a[i] < b[i]),
    decreases i,
{
    if i == 0 {
    } else {
        lemma_lex_lt_at_first_difference(a.drop_first(), b.drop_first(), i - 1);
        assert(a[0] == b[0]);
    }
}

/// Whether `a` comes at or before `b` in the table's key order.
pub fn outpoint_le(a: &OutPoint, b: &OutPoint) -> (r: bool)
    ensures
        r == spec_outpoint_le(*a, *b),
{
    let mut i: usize = 0;
    while i < 32
        invariant
            0 <= i <= 32,
            forall|j: int| 0 <= j < i ==> a.txid.bytes[j] == b.txid.bytes[j],
        decreases 32 - i,
    {
        if a.txid.bytes[i] != b.txid.bytes[i] {
            proof {
                lemma_lex_lt_at_first_difference(a.txid.bytes@, b.txid.bytes@, i as int);
                assert(a.txid.bytes@ != b.txid.bytes@) by {
                    assert(a.txid.bytes@[i as int] != b.txid.bytes@[i as int]);
                }
            }
            return a.txid.bytes[i] < b.txid.bytes[i];
        }
        i = i + 1;
    }
    proof {
        assert(a.txid.bytes@ =~= b.txid.bytes@);
    }
    a.vout <= b.vout
}

impl Store {
    /// Scan of the per-script presence index: every outpoint recorded under
    /// `locker_script_hash`, in index order.
    pub fn get_locker_script_txos(&self, locker_script_hash: &ScriptHash) -> (r: Vec<OutPoint>)
        ensures
            r@ == spec_script_outpoints(self.script_index@, *locker_script_hash),
    {
        let n = self.script_index.len();
        let mut out: Vec<OutPoint> = Vec::new();
        let mut i: usize = 0;
        while i < n
            invariant
                0 <= i <= n,
                n == self.script_index@.len(),
                out@ == spec_script_outpoints(
                    self.script_index@.subrange(0, i as int),
                    *locker_script_hash,
                ),
            decreases n - i,
        {
            let entry = self.script_index[i];
            proof {
                assert(self.script_index@.subrange(0, i + 1).drop_last() =~= self.script_index@.subrange(0, i as int));
                assert(self.script_index@.subrange(0, i + 1).last() == self.script_index@[i as int]);
            }
            if crate::store::script_hash_eq(&entry.0, locker_script_hash) {
                out.push(entry.1);
            }
            i = i + 1;
        }
        proof {
            assert(self.script_index@.subrange(0, n as int) =~= self.script_index@);
        }
        out
    }

    /// Batched point lookups of the output-state table, one per requested
    /// outpoint, in request order. The outpoints must arrive in key order, as
    /// the engine's coalesced multi-get wants them.
    pub fn get_txos(&self, outpoints: &Vec<OutPoint>) -> (r: Result<Vec<Option<TXOState>>, ReadError>)
        requires
            unique_txo_keys(self.txos@),
        ensures
            match r {
                Ok(states) => {
                    &&& forall|i: int|
                        0 <= i < outpoints@.len() - 1 ==> spec_outpoint_le(
                            #[trigger] outpoints@[i],
                            outpoints@[i + 1],
                        )
                    &&& states@.len() == outpoints@.len()
                    &&& forall|i: int|
                        0 <= i < states@.len() ==> states@[i] == (if self.txo_map().dom().contains(
                            outpoints@[i],
                        ) {
                            Some(self.txo_map()[outpoints@[i]])
                        } else {
                            None
                        })
                },
                Err(e) => {
                    &&& e == ReadError::UnsortedOutpoints
                    &&& exists|i: int|
                        0 <= i < outpoints@.len() - 1 && !spec_outpoint_le(
                            #[trigger] outpoints@[i],
                            outpoints@[i + 1],
                        )
                },
            },
    {
        let n = outpoints.len();
        let m = if n == 0 {
            0
        } else {
            n - 1
        };
        let mut i: usize = 0;
        while i < m
            invariant
                0 <= i <= m,
                m == if n == 0 {
                    0int
                } else {
                    n - 1
                },
                n == outpoints@.len(),
                forall|j: int|
                    0 <= j < i ==> spec_outpoint_le(#[trigger] outpoints@[j], outpoints@[j + 1]),
            decreases m - i,
        {
            if !outpoint_le(&outpoints[i], &outpoints[i + 1]) {
                return Err(ReadError::UnsortedOutpoints);
            }
            i = i + 1;
        }

        let mut out: Vec<Option<TXOState>> = Vec::new();
        let mut i: usize = 0;
        while i < n
            invariant
                0 <= i <= n,
                n == outpoints@.len(),
                unique_txo_keys(self.txos@),
                out@.len() == i,
                forall|j: int|
                    0 <= j < i ==> out@[j] == (if self.txo_map().dom().contains(
                        outpoints@[j],
                    ) {
                        Some(self.txo_map()[outpoints@[j]])
                    } else {
                        None
                    }),
            decreases n - i,
        {
            let op = outpoints[i];
            match crate::store::find_txo(&self.txos, &op) {
                Some(ix) => {
                    proof {
                        crate::store::lemma_txo_map_index(self.txos@, ix as int);
                    }
                    let st = self.txos[ix].1;
                    out.push(Some(st));
                },
                None => {
                    proof {
                        crate::store::lemma_txo_map_absent(self.txos@, op);
                    }
                    out.push(None);
                },
            }
            i = i + 1;
        }
        Ok(out)
    }

    /// The states of all outputs locked to `s`, in table order.
    fn script_states(&self, s: &ScriptHash) -> (r: Vec<TXOState>)
        requires
            self.wf(),
        ensures
            r@ == spec_script_states(self.txos@, *s),
            forall|i: int| 0 <= i < r@.len() ==> (#[trigger] r@[i]).wf(),
    {
        let n = self.txos.len();
        let mut out: Vec<TXOState> = Vec::new();
        let mut i: usize = 0;
        while i < n
            invariant
                0 <= i <= n,
                n == self.txos@.len(),
                self.wf(),
                out@ == spec_script_states(self.txos@.subrange(0, i as int), *s),
                forall|j: int| 0 <= j < out@.len() ==> (#[trigger] out@[j]).wf(),
            decreases n - i,
        {
            let row = self.txos[i];
            proof {
                assert(self.txos@.subrange(0, i + 1).drop_last() =~= self.txos@.subrange(0, i as int));
                assert(self.txos@.subrange(0, i + 1).last() == self.txos@[i as int]);
            }
            if crate::store::script_hash_eq(&row.1.locker_script_hash, s) {
                out.push(row.1);
            }
            i = i + 1;
        }
        proof {
            assert(self.txos@.subrange(0, n as int) =~= self.txos@);
        }
        out
    }

    /// The unspent outputs locked to `s`, in table order.
    pub fn gen_unspent_txos(&self, locker_script_hash: &ScriptHash) -> (r: Vec<TXOState>)
        requires
            self.wf(),
        ensures
            r@ == spec_script_states(self.txos@, *locker_script_hash).filter(
                (|st: TXOState| st.spent_height is None),
            ),
    {
        let states = self.script_states(locker_script_hash);
        let n = states.len();
        let mut out: Vec<TXOState> = Vec::new();
        let mut i: usize = 0;
        while i < n
            invariant
                0 <= i <= n,
                n == states@.len(),
                states@ == spec_script_states(self.txos@, *locker_script_hash),
                out@ == states@.subrange(0, i as int).filter(
                    (|st: TXOState| st.spent_height is None),
                ),
            decreases n - i,
        {
            let st = states[i];
            proof {
                assert(states@.subrange(0, i + 1).drop_last() =~= states@.subrange(0, i as int));
                assert(states@.subrange(0, i + 1).last() == states@[i as int]);
                reveal(Seq::filter);
            }
            let unspent = match st.spent_height {
                Some(_) => false,
                None => true,
            };
            if unspent {
                out.push(st);
            }
            i = i + 1;
        }
        proof {
            assert(states@.subrange(0, n as int) =~= states@);
        }
        out
    }

    /// The recent balance of `s`: Σ value over its unspent outputs.
    pub fn recent_balance(&self, locker_script_hash: &ScriptHash) -> (r: Amount)
        requires
            self.wf(),
            spec_script_total(self.txos@, *locker_script_hash) <= u64::MAX,
        ensures
            r.satoshis == spec_recent_balance(self.txos@, *locker_script_hash),
    {
        let states = self.script_states(locker_script_hash);
        recent_balance_from_states(&states)
    }

    /// The balance of `s` at the given height, or its recent balance when no
    /// height is given.
    pub fn balance(&self, locker_script_hash: &ScriptHash, height: Option<BlockHeight>) -> (r: Amount)
        requires
            self.wf(),
            spec_script_total(self.txos@, *locker_script_hash) <= u64::MAX,
        ensures
            r.satoshis == match height {
                Some(h) => spec_balance_at(self.txos@, *locker_script_hash, h as int),
                None => spec_recent_balance(self.txos@, *locker_script_hash),
            },
    {
        match height {
            Some(h) => {
                let states = self.script_states(locker_script_hash);
                Amount { satoshis: sum_active_at(&states, h) }
            },
            None => self.recent_balance(locker_script_hash),
        }
    }

    /// The balance history of `s`: one point per height at which its balance
    /// changed, strictly ascending; each point carries the balance at its
    /// height, and the balance at any height is the value of the last point
    /// at or before it.
    pub fn balance_history(&self, locker_script_hash: &ScriptHash) -> (r: Vec<(BlockHeight, Amount)>)
        requires
            self.wf(),
            spec_script_total(self.txos@, *locker_script_hash) <= u64::MAX,
        ensures
            forall|i: int, j: int| 0 <= i < j < r@.len() ==> r@[i].0 < r@[j].0,
            forall|i: int|
                0 <= i < r@.len() ==> (#[trigger] r@[i]).1.satoshis == spec_balance_at(
                    self.txos@,
                    *locker_script_hash,
                    r@[i].0 as int,
                ),
            forall|h: int|
                0 <= h <= u32::MAX ==> spec_balance_at(self.txos@, *locker_script_hash, h)
                    == spec_history_value_at(r@, h),
    {
        let states = self.script_states(locker_script_hash);
        balance_history_from_states(&states)
    }
}

} // verus!
