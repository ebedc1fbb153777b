//! Write-time account bookkeeping: one account per locking-script hash, its
//! recent balance and its height-keyed balance history, folded forward by
//! the net change of each committed height.

use vstd::prelude::*;

use crate::sorted_vec::{spec_entries_sorted, SortedEntry, SortedMap};
use crate::types::{Amount, BlockHeight};

verus! {

/// The account could not absorb a change.
#[derive(Clone, Copy, Debug, PartialEq, Eq, Structural)]
pub enum AccountError {
    /// A change would drive the balance below zero: the invariants were
    /// already broken upstream.
    NegativeBalance,
}

/// The durable state of one account: its recent balance and one history
/// point per height at which the balance changed.
pub struct AccountState {
    pub recent_balance: Amount,
    pub balance_history: SortedMap<Amount>,
}

impl AccountState {
    pub open spec fn wf(&self) -> bool {
        spec_entries_sorted(self.balance_history.spec_entries())
    }

    /// An account that never held anything.
    pub fn empty() -> (r: AccountState)
        ensures
            r.wf(),
            r.recent_balance.satoshis == 0,
            r.balance_history.spec_entries().len() == 0,
    {
        AccountState { recent_balance: Amount { satoshis: 0 }, balance_history: SortedMap::empty() }
    }
}

/// The net change of one account at one height, in satoshis; spends make it
/// negative.
#[derive(Clone, Copy, Debug, PartialEq, Eq, Structural)]
pub struct BalanceChange {
    pub height: BlockHeight,
    pub delta: i64,
}

/// The balance after the first `k` changes.
pub open spec fn spec_running_balance(start: int, changes: Seq<BalanceChange>, k: int) -> int
    decreases k,
{
    if k <= 0 {
        start
    } else {
        spec_running_balance(start, changes, k - 1) + changes[k - 1].delta
    }
}

/// Fold a height-ordered run of net changes into an account: the balance
/// after each change becomes one history point at that change's height, and
/// the last one becomes the recent balance. A change that would drive the
/// balance below zero is refused, and signals broken invariants upstream.
#[verifier::loop_isolation(false)]
pub fn apply_balance_changes(state: AccountState, changes: &Vec<BalanceChange>) -> (r: Result<
    AccountState,
    AccountError,
>)
    requires
        state.wf(),
        state.recent_balance.satoshis <= i64::MAX,
        forall|i: int, j: int|
            0 <= i < j < changes@.len() ==> (#[trigger] changes@[i]).height < (
            #[trigger] changes@[j]).height,
        forall|i: int, j: int|
            0 <= i < state.balance_history.spec_entries().len() && 0 <= j < changes@.len() ==> (
            #[trigger] state.balance_history.spec_entries()[i]).key < (
            #[trigger] changes@[j]).height,
        forall|k: int|
            0 <= k <= changes@.len() ==> spec_running_balance(
                state.recent_balance.satoshis as int,
                changes@,
                k,
            ) <= i64::MAX,
    ensures
        match r {
            Ok(st) => {
                &&& forall|k: int|
                    0 <= k <= changes@.len() ==> spec_running_balance(
                        state.recent_balance.satoshis as int,
                        changes@,
                        k,
                    ) >= 0
                &&& st.wf()
                &&& st.recent_balance.satoshis == spec_running_balance(
                    state.recent_balance.satoshis as int,
                    changes@,
                    changes@.len() as int,
                )
                &&& st.balance_history.spec_entries() == state.balance_history.spec_entries()
                    + Seq::new(
                    changes@.len(),
                    |i: int|
                        SortedEntry {
                            key: changes@[i].height as u64,
                            value: Amount {
                                satoshis: spec_running_balance(
                                    state.recent_balance.satoshis as int,
                                    changes@,
                                    i + 1,
                                ) as u64,
                            },
                        },
                )
            },
            Err(e) => {
                &&& e == AccountError::NegativeBalance
                &&& exists|k: int|
                    0 < k <= changes@.len() && spec_running_balance(
                        state.recent_balance.satoshis as int,
                        changes@,
                        k,
                    ) < 0
            },
        },
{
    let n = changes.len();
    let mut balance: i64 = state.recent_balance.satoshis as i64;
    let mut history = state.balance_history;
    let mut k: usize = 0;
    while k < n
        invariant
            0 <= k <= n,
            balance == spec_running_balance(state.recent_balance.satoshis as int, changes@, k as int),
            balance >= 0,
            forall|j: int|
                0 <= j <= k ==> spec_running_balance(
                    state.recent_balance.satoshis as int,
                    changes@,
                    j,
                ) >= 0,
            history.spec_entries() == state.balance_history.spec_entries() + Seq::new(
                k as nat,
                |i: int|
                    SortedEntry {
                        key: changes@[i].height as u64,
                        value: Amount {
                            satoshis: spec_running_balance(
                                state.recent_balance.satoshis as int,
                                changes@,
                                i + 1,
                            ) as u64,
                        },
                    },
            ),
            spec_entries_sorted(history.spec_entries()),
        decreases n - k,
    {
        let change = changes[k];
        let next = match balance.checked_add(change.delta) {
            Some(next) => next,
            None => {
                // The running balance stays within i64 by precondition; only
                // a negative sum can escape the checked step.
                proof {
                    assert(spec_running_balance(
                        state.recent_balance.satoshis as int,
                        changes@,
                        k + 1,
                    ) < 0);
                }
                return Err(AccountError::NegativeBalance);
            },
        };
        if next < 0 {
            proof {
                assert(spec_running_balance(
                    state.recent_balance.satoshis as int,
                    changes@,
                    k + 1,
                ) < 0);
            }
            return Err(AccountError::NegativeBalance);
        }
        let ghost prev_entries = history.spec_entries();
        proof {
            assert forall|i: int| 0 <= i < prev_entries.len() implies (
            #[trigger] prev_entries[i]).key < change.height as u64 by {
                if i < state.balance_history.spec_entries().len() {
                } else {
                    let j = i - state.balance_history.spec_entries().len();
                    assert(prev_entries[i].key == changes@[j].height as u64);
                    assert(changes@[j].height < changes@[k as int].height);
                }
            }
        }
        history.append(change.height as u64, Amount { satoshis: next as u64 });
        proof {
            assert(history.spec_entries() =~= state.balance_history.spec_entries() + Seq::new(
                (k + 1) as nat,
                |i: int|
                    SortedEntry {
                        key: changes@[i].height as u64,
                        value: Amount {
                            satoshis: spec_running_balance(
                                state.recent_balance.satoshis as int,
                                changes@,
                                i + 1,
                            ) as u64,
                        },
                    },
            ));
        }
        balance = next;
        k = k + 1;
    }
    Ok(AccountState { recent_balance: Amount { satoshis: balance as u64 }, balance_history: history })
}

} // verus!
