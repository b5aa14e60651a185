//! Per-participant account records with lazy reward accrual.
//!
//! An account never observes reward pushes: whenever it is touched, the
//! delta between the global reward accumulator and the account's snapshot,
//! multiplied by the pixels it owns, is pulled into its spendable balance.

use vstd::prelude::*;

use crate::types::{AccountId, AccountIndex, FarmRatio, LedgerError, TokenBalance};
use crate::{
    account_measure, conserved, distinct_ids, has_id, id_index, lemma_id_index,
    lemma_measure_touched, lemma_sum_l_push, lemma_sum_l_update, lemma_sum_measure_push,
    lemma_sum_measure_update, sum_l, sum_measure, Contract, Stats,
};

verus! {

/// One participant's ledger record.
#[derive(Debug)]
pub struct Account {
    /// Unique externally visible identifier.
    pub account_id: AccountId,
    /// Dense index, assigned once in allocation order; 0 is the application.
    pub account_index: AccountIndex,
    /// Value of the global reward accumulator last observed by this account.
    pub last_ft_farmed_per_pixel: FarmRatio,
    /// Spendable balance of the fungible credit.
    pub ft_balance: TokenBalance,
    /// Balance of the liquidity-share token.
    pub l_balance: TokenBalance,
    /// Number of board pixels currently owned by this account.
    pub num_pixels: u32,
}

/// Reward earned by `a` but not yet pulled into its balance, relative to the
/// global accumulator value `acc`.
pub open spec fn pending_reward(a: Account, acc: FarmRatio) -> int {
    (acc - a.last_ft_farmed_per_pixel) * a.num_pixels
}

/// The record `a` after accruing against accumulator value `acc`.
pub open spec fn spec_touched(a: Account, acc: FarmRatio) -> Account {
    Account {
        last_ft_farmed_per_pixel: acc,
        ft_balance: (a.ft_balance + pending_reward(a, acc)) as u128,
        ..a
    }
}

/// The accrual of `a` against `acc` is well defined and fits the balance
/// width: the snapshot never runs ahead of the accumulator, and the accrued
/// balance does not overflow.
pub open spec fn accrual_fits(a: Account, acc: FarmRatio) -> bool {
    &&& a.last_ft_farmed_per_pixel <= acc
    &&& a.ft_balance + pending_reward(a, acc) <= u128::MAX
}

impl Account {
    /// A fresh record: zero balances, no pixels, and the snapshot set to the
    /// current accumulator so that a new account owes no back-dated reward.
    pub fn new(
        account_id: AccountId,
        account_index: AccountIndex,
        ft_farmed_per_pixel: FarmRatio,
    ) -> (r: Self)
        ensures
            r == (Account {
                account_id,
                account_index,
                last_ft_farmed_per_pixel: ft_farmed_per_pixel,
                ft_balance: 0,
                l_balance: 0,
                num_pixels: 0,
            }),
    {
        Self {
            account_id,
            account_index,
            last_ft_farmed_per_pixel: ft_farmed_per_pixel,
            ft_balance: 0,
            l_balance: 0,
            num_pixels: 0,
        }
    }

    /// Pull the reward earned since the last snapshot into the balance and
    /// advance the snapshot; returns the accrued delta.
    pub fn touch(&mut self, ft_farmed_per_pixel: FarmRatio) -> (r: TokenBalance)
        requires
            accrual_fits(*old(self), ft_farmed_per_pixel),
        ensures
            r == pending_reward(*old(self), ft_farmed_per_pixel),
            *final(self) == spec_touched(*old(self), ft_farmed_per_pixel),
    {
        let ft_farmed_diff = ft_farmed_per_pixel - self.last_ft_farmed_per_pixel;
        let ft_farmed_amount = ft_farmed_diff * (self.num_pixels as u128);
        self.ft_balance = self.ft_balance + ft_farmed_amount;
        self.last_ft_farmed_per_pixel = ft_farmed_per_pixel;
        ft_farmed_amount
    }

    /// Deduct `ft_amount` from the spendable balance; fails, changing
    /// nothing, when the balance is insufficient.
    pub fn charge(&mut self, ft_amount: TokenBalance) -> (r: Result<(), LedgerError>)
        ensures
            match r {
                Ok(()) => {
                    &&& old(self).ft_balance >= ft_amount
                    &&& *final(self) == (Account {
                        ft_balance: (old(self).ft_balance - ft_amount) as u128,
                        ..*old(self)
                    })
                },
                Err(e) => {
                    &&& e == LedgerError::InsufficientBalance
                    &&& old(self).ft_balance < ft_amount
                    &&& *final(self) == *old(self)
                },
            },
    {
        if self.ft_balance < ft_amount {
            return Err(LedgerError::InsufficientBalance);
        }
        self.ft_balance = self.ft_balance - ft_amount;
        Ok(())
    }

    /// An owned copy of this record.
    pub fn duplicate(&self) -> (r: Self)
        ensures
            r == *self,
    {
        Self {
            account_id: self.account_id.clone(),
            account_index: self.account_index,
            last_ft_farmed_per_pixel: self.last_ft_farmed_per_pixel,
            ft_balance: self.ft_balance,
            l_balance: self.l_balance,
            num_pixels: self.num_pixels,
        }
    }
}

/// Accrual is idempotent: immediately after an accrual against `acc`, a
/// second accrual against the same `acc` yields a zero delta and changes
/// nothing.
pub proof fn lemma_accrue_idempotent(a: Account, acc: FarmRatio)
    requires
        accrual_fits(a, acc),
    ensures
        pending_reward(spec_touched(a, acc), acc) == 0,
        spec_touched(spec_touched(a, acc), acc) == spec_touched(a, acc),
{
    let t = spec_touched(a, acc);
    assert((acc - acc) * (t.num_pixels as int) == 0) by (nonlinear_arith);
    assert(pending_reward(t, acc) == 0);
    assert(spec_touched(t, acc) == t);
}

/// Versioned persistence envelope for an account record.
#[derive(Debug)]
pub enum UpgradableAccount {
    Last(Account),
}

impl From<UpgradableAccount> for Account {
    fn from(account: UpgradableAccount) -> (r: Self) {
        match account {
            UpgradableAccount::Last(account) => account,
        }
    }
}

impl vstd::std_specs::convert::FromSpecImpl<UpgradableAccount> for Account {
    open spec fn obeys_from_spec() -> bool {
        true
    }

    open spec fn from_spec(account: UpgradableAccount) -> Self {
        match account {
            UpgradableAccount::Last(account) => account,
        }
    }
}

impl From<Account> for UpgradableAccount {
    fn from(account: Account) -> (r: Self) {
        UpgradableAccount::Last(account)
    }
}

impl vstd::std_specs::convert::FromSpecImpl<Account> for UpgradableAccount {
    open spec fn obeys_from_spec() -> bool {
        true
    }

    open spec fn from_spec(account: Account) -> Self {
        UpgradableAccount::Last(account)
    }
}

/// A snapshot whose accrual snapshot already equals the accumulator owes
/// nothing.
pub proof fn lemma_pending_zero(a: Account, acc: FarmRatio)
    requires
        a.last_ft_farmed_per_pixel == acc,
    ensures
        pending_reward(a, acc) == 0,
{
    assert((acc - acc) * (a.num_pixels as int) == 0) by (nonlinear_arith);
}

/// Read-only projection of an account for public queries.
#[derive(Debug)]
pub struct HumanAccount {
    pub account_id: AccountId,
    pub account_index: AccountIndex,
    pub ft_balance: TokenBalance,
    pub l_balance: TokenBalance,
    pub num_pixels: u32,
}

/// The public projection of a record.
pub open spec fn spec_human(a: Account) -> HumanAccount {
    HumanAccount {
        account_id: a.account_id,
        account_index: a.account_index,
        ft_balance: a.ft_balance,
        l_balance: a.l_balance,
        num_pixels: a.num_pixels,
    }
}

impl From<Account> for HumanAccount {
    fn from(account: Account) -> (r: Self) {
        Self {
            account_id: account.account_id,
            account_index: account.account_index,
            ft_balance: account.ft_balance,
            l_balance: account.l_balance,
            num_pixels: account.num_pixels,
        }
    }
}

impl vstd::std_specs::convert::FromSpecImpl<Account> for HumanAccount {
    open spec fn obeys_from_spec() -> bool {
        true
    }

    open spec fn from_spec(account: Account) -> Self {
        spec_human(account)
    }
}

/// The record an identity resolves to: the stored record when the identity
/// is registered, otherwise a fresh record slotted at the next index.
pub open spec fn spec_resolve(c: Contract, account_id: AccountId) -> Account {
    if has_id(c.accounts@, account_id@) {
        c.accounts@[id_index(c.accounts@, account_id@)]
    } else {
        Account {
            account_id: account_id,
            account_index: c.accounts@.len() as u32,
            last_ft_farmed_per_pixel: c.ft_farmed_per_pixel,
            ft_balance: 0,
            l_balance: 0,
            num_pixels: 0,
        }
    }
}

impl Contract {
    /// Number of allocated account indices, which is also the next index.
    pub fn get_num_accounts(&self) -> (r: u32)
        requires
            self.wf(),
        ensures
            r == self.accounts@.len(),
    {
        self.accounts.len() as u32
    }

    /// Position of the record carrying `account_id`, if any.
    fn lookup_index(&self, account_id: &AccountId) -> (r: Option<usize>)
        ensures
            match r {
                Some(i) => i < self.accounts@.len() && self.accounts@[i as int].account_id@
                    == account_id@,
                None => !has_id(self.accounts@, account_id@),
            },
    {
        let n = self.accounts.len();
        for i in 0..n
            invariant
                n == self.accounts@.len(),
                forall|j: int| 0 <= j < i ==> self.accounts@[j].account_id@ != account_id@,
        {
            if self.accounts[i].account_id == *account_id {
                return Some(i);
            }
        }
        None
    }

    /// Whether `account_id` has a record.
    pub fn account_exists(&self, account_id: &AccountId) -> (r: bool)
        ensures
            r == has_id(self.accounts@, account_id@),
    {
        self.lookup_index(account_id).is_some()
    }

    /// The stored record at `account_index`, if allocated.
    pub fn get_internal_account_by_index(&self, account_index: AccountIndex) -> (r: Option<
        Account,
    >)
        ensures
            match r {
                Some(a) => account_index < self.accounts@.len() && a
                    == self.accounts@[account_index as int],
                None => account_index >= self.accounts@.len(),
            },
    {
        if (account_index as usize) < self.accounts.len() {
            Some(self.accounts[account_index as usize].duplicate())
        } else {
            None
        }
    }

    /// The stored record carrying `account_id`, if any.
    pub fn get_internal_account_by_id(&self, account_id: &AccountId) -> (r: Option<Account>)
        requires
            self.wf(),
        ensures
            match r {
                Some(a) => has_id(self.accounts@, account_id@) && a == self.accounts@[id_index(
                    self.accounts@,
                    account_id@,
                )],
                None => !has_id(self.accounts@, account_id@),
            },
    {
        match self.lookup_index(account_id) {
            Some(i) => {
                proof {
                    lemma_id_index(self.accounts@, i as int);
                }
                Some(self.accounts[i].duplicate())
            },
            None => None,
        }
    }

    /// Accrue `account` against the current accumulator, folding the delta
    /// into the cumulative farmed counter.
    pub fn touch_account(&mut self, account: &mut Account)
        requires
            accrual_fits(*old(account), old(self).ft_farmed_per_pixel),
            old(self).stats.ft_farmed + pending_reward(
                *old(account),
                old(self).ft_farmed_per_pixel,
            ) <= u128::MAX,
        ensures
            *final(account) == spec_touched(*old(account), old(self).ft_farmed_per_pixel),
            *final(self) == (Contract {
                stats: (Stats {
                    ft_farmed: (old(self).stats.ft_farmed + pending_reward(
                        *old(account),
                        old(self).ft_farmed_per_pixel,
                    )) as u128,
                    ..old(self).stats
                }),
                ..*old(self)
            }),
    {
        let ft_farmed = account.touch(self.ft_farmed_per_pixel);
        if ft_farmed > 0 {
            self.stats.ft_farmed = self.stats.ft_farmed + ft_farmed;
        }
    }

    /// Resolve `account_id` without accruing or persisting: the stored
    /// record, or a fresh one slotted at the next index.
    pub fn resolve_account(&self, account_id: AccountId) -> (r: Account)
        requires
            self.wf(),
        ensures
            r == spec_resolve(*self, account_id),
    {
        match self.get_internal_account_by_id(&account_id) {
            Some(a) => a,
            None => Account::new(account_id, self.get_num_accounts(), self.ft_farmed_per_pixel),
        }
    }

    /// Resolve `account_id` and accrue it. The record is not persisted, but
    /// the accrued delta is already folded into the farmed counter.
    pub fn get_mut_account(&mut self, account_id: AccountId) -> (r: Account)
        requires
            old(self).wf(),
            old(self).stats.ft_farmed + pending_reward(
                spec_resolve(*old(self), account_id),
                old(self).ft_farmed_per_pixel,
            ) <= u128::MAX,
        ensures
            r == spec_touched(spec_resolve(*old(self), account_id), old(self).ft_farmed_per_pixel),
            *final(self) == (Contract {
                stats: (Stats {
                    ft_farmed: (old(self).stats.ft_farmed + pending_reward(
                        spec_resolve(*old(self), account_id),
                        old(self).ft_farmed_per_pixel,
                    )) as u128,
                    ..old(self).stats
                }),
                ..*old(self)
            }),
            final(self).wf(),
    {
        proof {
            if !has_id(self.accounts@, account_id@) {
                lemma_pending_zero(spec_resolve(*self, account_id), self.ft_farmed_per_pixel);
            }
        }
        let mut account = self.resolve_account(account_id);
        self.touch_account(&mut account);
        account
    }

    /// Resolve and accrue the application account (index 0).
    pub fn get_app_account(&mut self) -> (r: Account)
        requires
            old(self).wf(),
            old(self).stats.ft_farmed + pending_reward(
                old(self).accounts@[0],
                old(self).ft_farmed_per_pixel,
            ) <= u128::MAX,
        ensures
            r == spec_touched(old(self).accounts@[0], old(self).ft_farmed_per_pixel),
            *final(self) == (Contract {
                stats: (Stats {
                    ft_farmed: (old(self).stats.ft_farmed + pending_reward(
                        old(self).accounts@[0],
                        old(self).ft_farmed_per_pixel,
                    )) as u128,
                    ..old(self).stats
                }),
                ..*old(self)
            }),
            final(self).wf(),
    {
        let looked_up = self.get_internal_account_by_index(0);
        let mut account = match looked_up {
            Some(a) => a,
            None => {
                proof {
                    assert(false);
                }
                Account::new(String::new(), 0, 0)
            },
        };
        self.touch_account(&mut account);
        account
    }

    /// Persist a record. A record whose index equals the current account
    /// count registers a new identity and extends the ledger; any other
    /// index overwrites the record already stored there.
    pub fn save_account(&mut self, account: Account)
        requires
            old(self).wf(),
            accrual_fits(account, old(self).ft_farmed_per_pixel),
            account.account_index as int <= old(self).accounts@.len(),
            account.account_index as int == old(self).accounts@.len() ==> !has_id(
                old(self).accounts@,
                account.account_id@,
            ) && old(self).accounts@.len() < u32::MAX,
            (account.account_index as int) < old(self).accounts@.len() ==> account.account_id@
                == old(self).accounts@[account.account_index as int].account_id@,
        ensures
            final(self).accounts@ == (if account.account_index as int == old(
                self,
            ).accounts@.len() {
                old(self).accounts@.push(account)
            } else {
                old(self).accounts@.update(account.account_index as int, account)
            }),
            final(self).config == old(self).config,
            final(self).stats == old(self).stats,
            final(self).ft_farmed_per_pixel == old(self).ft_farmed_per_pixel,
            final(self).last_timestamp_touched == old(self).last_timestamp_touched,
            final(self).ft_pool == old(self).ft_pool,
            final(self).l_pool == old(self).l_pool,
            final(self).wf(),
    {
        let account_index = account.account_index;
        if (account_index as usize) >= self.accounts.len() {
            self.accounts.push(account);
            proof {
                let s = old(self).accounts@;
                let t = self.accounts@;
                assert forall|i: int, j: int|
                    0 <= i < j < t.len() implies t[i].account_id@ != t[j].account_id@ by {
                    if j == t.len() - 1 {
                        assert(t[i] == s[i]);
                    }
                }
            }
        } else {
            let slot = &mut self.accounts[account_index as usize];
            *slot = account;
        }
    }

    /// The public projection of the record at `account_index`, with its
    /// accrual reconciled for display; the stored state is not changed.
    pub fn get_account_by_index(&self, account_index: AccountIndex) -> (r: Option<HumanAccount>)
        requires
            self.wf(),
        ensures
            match r {
                Some(h) => account_index < self.accounts@.len() && h == spec_human(
                    spec_touched(
                        self.accounts@[account_index as int],
                        self.ft_farmed_per_pixel,
                    ),
                ),
                None => account_index >= self.accounts@.len(),
            },
    {
        match self.get_internal_account_by_index(account_index) {
            Some(mut account) => {
                account.touch(self.ft_farmed_per_pixel);
                Some(HumanAccount::from(account))
            },
            None => None,
        }
    }

    /// The public projection of the record carrying `account_id`, with its
    /// accrual reconciled for display; the stored state is not changed.
    pub fn get_account(&self, account_id: &AccountId) -> (r: Option<HumanAccount>)
        requires
            self.wf(),
        ensures
            match r {
                Some(h) => has_id(self.accounts@, account_id@) && h == spec_human(
                    spec_touched(
                        self.accounts@[id_index(self.accounts@, account_id@)],
                        self.ft_farmed_per_pixel,
                    ),
                ),
                None => !has_id(self.accounts@, account_id@),
            },
    {
        match self.get_internal_account_by_id(account_id) {
            Some(mut account) => {
                account.touch(self.ft_farmed_per_pixel);
                Some(HumanAccount::from(account))
            },
            None => None,
        }
    }

    /// Withdraw `amount` of the credit (the whole balance when `None`),
    /// after accrual. On success the balance is already deducted and the
    /// returned pair names the recipient and amount the host must transfer
    /// out; on failure nothing changes.
    pub fn withdraw_ft(&mut self, account_id: AccountId, amount: Option<TokenBalance>) -> (r:
        Result<TokenBalance, LedgerError>)
        requires
            old(self).wf(),
            old(self).stats.ft_farmed + pending_reward(
                spec_resolve(*old(self), account_id),
                old(self).ft_farmed_per_pixel,
            ) <= u128::MAX,
            !has_id(old(self).accounts@, account_id@) ==> old(self).accounts@.len() < u32::MAX,
        ensures
            ({
                let t = spec_touched(
                    spec_resolve(*old(self), account_id),
                    old(self).ft_farmed_per_pixel,
                );
                let requested = if amount is Some {
                    amount->0
                } else {
                    t.ft_balance
                };
                match r {
                    Ok(a) => {
                        &&& a == requested
                        &&& t.ft_balance >= requested
                        &&& final(self).accounts@ == (if has_id(
                            old(self).accounts@,
                            account_id@,
                        ) {
                            old(self).accounts@.update(
                                id_index(old(self).accounts@, account_id@),
                                (Account {
                                    ft_balance: (t.ft_balance - requested) as u128,
                                    ..t
                                }),
                            )
                        } else {
                            old(self).accounts@.push(
                                (Account {
                                    ft_balance: (t.ft_balance - requested) as u128,
                                    ..t
                                }),
                            )
                        })
                        &&& final(self).stats == (Stats {
                            ft_farmed: (old(self).stats.ft_farmed + pending_reward(
                                spec_resolve(*old(self), account_id),
                                old(self).ft_farmed_per_pixel,
                            )) as u128,
                            ..old(self).stats
                        })
                        &&& final(self).ft_pool == old(self).ft_pool
                        &&& final(self).l_pool == old(self).l_pool
                        &&& final(self).ft_farmed_per_pixel == old(self).ft_farmed_per_pixel
                        &&& final(self).last_timestamp_touched == old(
                            self,
                        ).last_timestamp_touched
                        &&& final(self).config == old(self).config
                        &&& final(self).wf()
                        &&& conserved(*final(self)) == conserved(*old(self)) - a
                        &&& (old(self).backed() ==> final(self).backed())
                    },
                    Err(e) => {
                        &&& e == LedgerError::InsufficientBalance
                        &&& amount is Some
                        &&& t.ft_balance < requested
                        &&& *final(self) == *old(self)
                    },
                }
            }),
    {
        let ghost s0 = self.accounts@;
        let ghost acc = self.ft_farmed_per_pixel;
        let ghost resolved = spec_resolve(*self, account_id);
        let ghost is_new = !has_id(s0, account_id@);
        let mut account = self.resolve_account(account_id);
        let ft_farmed = account.touch(self.ft_farmed_per_pixel);
        let amount_due = match amount {
            Some(a) => a,
            None => account.ft_balance,
        };
        if account.ft_balance < amount_due {
            return Err(LedgerError::InsufficientBalance);
        }
        account.ft_balance = account.ft_balance - amount_due;
        if ft_farmed > 0 {
            self.stats.ft_farmed = self.stats.ft_farmed + ft_farmed;
        }
        let ghost saved = account;
        proof {
            lemma_pending_zero(saved, acc);
        }
        self.save_account(account);
        proof {
            let t = spec_touched(resolved, acc);
            lemma_measure_touched(resolved, acc);
            if is_new {
                lemma_sum_measure_push(s0, saved, acc);
                lemma_sum_l_push(s0, saved);
                lemma_pending_zero(resolved, acc);
            } else {
                let i = id_index(s0, account_id@);
                lemma_sum_measure_update(s0, i, saved, acc);
                lemma_sum_l_update(s0, i, saved);
            }
        }
        Ok(amount_due)
    }

    /// Resolve, accrue and persist the caller's record, registering the
    /// identity if it is new. Registration leaves the conserved credit
    /// untouched: a fresh record carries no balance and owes no reward.
    pub fn register_account(&mut self, account_id: AccountId)
        requires
            old(self).wf(),
            old(self).stats.ft_farmed + pending_reward(
                spec_resolve(*old(self), account_id),
                old(self).ft_farmed_per_pixel,
            ) <= u128::MAX,
            !has_id(old(self).accounts@, account_id@) ==> old(self).accounts@.len() < u32::MAX,
        ensures
            final(self).wf(),
            has_id(final(self).accounts@, account_id@),
            final(self).accounts@ == (if has_id(old(self).accounts@, account_id@) {
                old(self).accounts@.update(
                    id_index(old(self).accounts@, account_id@),
                    spec_touched(
                        spec_resolve(*old(self), account_id),
                        old(self).ft_farmed_per_pixel,
                    ),
                )
            } else {
                old(self).accounts@.push(
                    spec_touched(
                        spec_resolve(*old(self), account_id),
                        old(self).ft_farmed_per_pixel,
                    ),
                )
            }),
            final(self).ft_pool == old(self).ft_pool,
            final(self).l_pool == old(self).l_pool,
            conserved(*final(self)) == conserved(*old(self)),
            old(self).backed() ==> final(self).backed(),
    {
        let ghost s0 = self.accounts@;
        let ghost acc = self.ft_farmed_per_pixel;
        let ghost resolved = spec_resolve(*self, account_id);
        let ghost is_new = !has_id(s0, account_id@);
        let account = self.get_mut_account(account_id);
        self.save_account(account);
        proof {
            let t = spec_touched(resolved, acc);
            lemma_measure_touched(resolved, acc);
            assert(t.account_id@ == account_id@);
            if is_new {
                assert(self.accounts@[s0.len() as int].account_id@ == account_id@);
            } else {
                assert(self.accounts@[id_index(s0, account_id@)].account_id@ == account_id@);
            }
            assert(has_id(self.accounts@, account_id@));
            if is_new {
                lemma_sum_measure_push(s0, t, acc);
                lemma_sum_l_push(s0, t);
                lemma_pending_zero(resolved, acc);
            } else {
                let i = id_index(s0, account_id@);
                lemma_sum_measure_update(s0, i, t, acc);
                lemma_sum_l_update(s0, i, t);
            }
        }
    }
}

} // verus!
