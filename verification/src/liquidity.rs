//! Proportional liquidity pool: minting and burning the share token
//! against the credit pool, with a floor-pool invariant and slippage
//! guards. Rates are computed with multiply-before-divide over a widened
//! integer, so the conversion never overflows midway.

use vstd::prelude::*;

use crate::account::{lemma_pending_zero, pending_reward, spec_resolve, spec_touched, Account};
use crate::types::{mul_div, AccountId, LedgerError, TokenBalance, MIN_FT_POOL};
use crate::{
    conserved, has_id, id_index, lemma_heartbeat_effect, lemma_id_index, lemma_l_balance_le_sum_l,
    lemma_measure_touched, lemma_sum_l_push, lemma_sum_l_update, lemma_sum_measure_push,
    lemma_sum_measure_update, spec_heartbeat, Contract, Stats,
};

verus! {

/// Shares minted for `ft_amount` of credit at the given pool state: the
/// bootstrap rate is one share per credit while the pool is under its
/// floor, otherwise the pool ratio with truncation.
pub open spec fn spec_l_from_ft(
    ft_pool: TokenBalance,
    l_pool: TokenBalance,
    ft_amount: TokenBalance,
) -> int {
    if ft_pool < MIN_FT_POOL {
        ft_amount as int
    } else {
        (ft_amount as int * l_pool as int) / (ft_pool as int)
    }
}

/// Credit redeemed for `l_amount` of shares at the given pool state
/// (meaningful for a pool at or above its floor and a nonempty share
/// supply).
pub open spec fn spec_ft_from_l(
    ft_pool: TokenBalance,
    l_pool: TokenBalance,
    l_amount: TokenBalance,
) -> int {
    (l_amount as int * ft_pool as int) / (l_pool as int)
}

/// Share mint for a credit amount, over explicit pool values.
fn l_from_ft_vals(ft_pool: TokenBalance, l_pool: TokenBalance, ft_amount: TokenBalance) -> (r:
    TokenBalance)
    requires
        ft_pool >= MIN_FT_POOL ==> (ft_amount as int * l_pool as int) / (ft_pool as int) <= u128::MAX,
    ensures
        r == spec_l_from_ft(ft_pool, l_pool, ft_amount),
{
    if ft_pool < MIN_FT_POOL {
        return ft_amount;
    }
    mul_div(ft_amount, l_pool, ft_pool)
}

/// Credit redemption for a share amount, over explicit pool values.
fn ft_from_l_vals(ft_pool: TokenBalance, l_pool: TokenBalance, l_amount: TokenBalance) -> (r:
    TokenBalance)
    requires
        l_pool >= 1,
        (l_amount as int * ft_pool as int) / (l_pool as int) <= u128::MAX,
    ensures
        r == spec_ft_from_l(ft_pool, l_pool, l_amount),
{
    mul_div(l_amount, ft_pool, l_pool)
}

/// Liquidity round-trip bound: minting shares for `ft_amount` of credit
/// and then immediately burning any portion of the net mint (the mint
/// less the protocol cut) never redeems more credit than was paid in.
/// Stated for the pool states the ledger reaches: an under-floor pool is
/// still empty, and at least one share is outstanding after the mint.
pub proof fn lemma_liquidity_round_trip(
    ft_pool: TokenBalance,
    l_pool: TokenBalance,
    ft_amount: TokenBalance,
    app_liquidity_denominator: u128,
    l_burn: TokenBalance,
)
    requires
        app_liquidity_denominator >= 1,
        ft_pool < MIN_FT_POOL ==> ft_pool == 0 && l_pool == 0,
        ft_pool + ft_amount <= u128::MAX,
        l_pool + spec_l_from_ft(ft_pool, l_pool, ft_amount) <= u128::MAX,
        l_pool + spec_l_from_ft(ft_pool, l_pool, ft_amount) >= 1,
        l_burn <= spec_l_from_ft(ft_pool, l_pool, ft_amount) - spec_l_from_ft(
            ft_pool,
            l_pool,
            ft_amount,
        ) / (app_liquidity_denominator as int),
    ensures
        spec_ft_from_l(
            (ft_pool + ft_amount) as u128,
            (l_pool + spec_l_from_ft(ft_pool, l_pool, ft_amount)) as u128,
            l_burn,
        ) <= ft_amount,
{
    let l = spec_l_from_ft(ft_pool, l_pool, ft_amount);
    let fp = ft_pool as int;
    let lp = l_pool as int;
    let x = ft_amount as int;
    let b = l_burn as int;
    let newf = fp + x;
    let newl = lp + l;
    if ft_pool < MIN_FT_POOL {
        vstd::arithmetic::div_mod::lemma_div_pos_is_pos(l, app_liquidity_denominator as int);
        assert(b <= x);
        if x == 0 {
            assert(false);
        } else {
            vstd::arithmetic::div_mod::lemma_div_by_multiple(b, x);
            assert((b * x) / x == b);
            assert(spec_ft_from_l((ft_pool + ft_amount) as u128, (l_pool + l) as u128, l_burn)
                == (b * x) / x);
        }
    } else {
        vstd::arithmetic::mul::lemma_mul_nonnegative(x, lp);
        vstd::arithmetic::div_mod::lemma_div_pos_is_pos(x * lp, fp);
        vstd::arithmetic::div_mod::lemma_div_pos_is_pos(l, app_liquidity_denominator as int);
        assert(b <= l);
        vstd::arithmetic::div_mod::lemma_fundamental_div_mod(x * lp, fp);
        vstd::arithmetic::div_mod::lemma_mod_division_less_than_divisor(x * lp, fp);
        assert(l * fp <= x * lp) by (nonlinear_arith)
            requires
                x * lp == fp * l + (x * lp) % fp,
                (x * lp) % fp >= 0,
        ;
        vstd::arithmetic::mul::lemma_mul_inequality(b, l, newf);
        assert(l * newf == l * fp + l * x) by (nonlinear_arith)
            requires
                newf == fp + x,
        ;
        assert(x * newl == x * lp + x * l) by (nonlinear_arith)
            requires
                newl == lp + l,
        ;
        assert(l * x == x * l) by (nonlinear_arith);
        assert(l * newf <= x * newl);
        assert(x * newl == newl * x) by (nonlinear_arith);
        assert(b * newf <= newl * x);
        vstd::arithmetic::div_mod::lemma_multiply_divide_le(b * newf, newl, x);
        assert((b * newf) / newl <= x);
        assert(spec_ft_from_l((ft_pool + ft_amount) as u128, (l_pool + l) as u128, l_burn) == (b
            * newf) / newl);
    }
}

impl Contract {
    /// Shares minted for `ft_amount` at the current pool state.
    pub fn internal_l_from_ft(&self, ft_amount: TokenBalance) -> (r: TokenBalance)
        requires
            self.ft_pool >= MIN_FT_POOL ==> (ft_amount as int * self.l_pool as int) / (self.ft_pool as int)
                <= u128::MAX,
        ensures
            r == spec_l_from_ft(self.ft_pool, self.l_pool, ft_amount),
    {
        l_from_ft_vals(self.ft_pool, self.l_pool, ft_amount)
    }

    /// Credit redeemed for `l_amount` at the current pool state. Defined
    /// only while the credit pool is at or above its floor and shares are
    /// outstanding.
    pub fn internal_ft_from_l(&self, l_amount: TokenBalance) -> (r: TokenBalance)
        requires
            self.ft_pool >= MIN_FT_POOL,
            self.l_pool >= 1,
            (l_amount as int * self.ft_pool as int) / (self.l_pool as int) <= u128::MAX,
        ensures
            r == spec_ft_from_l(self.ft_pool, self.l_pool, l_amount),
    {
        ft_from_l_vals(self.ft_pool, self.l_pool, l_amount)
    }

    /// Deposit `ft_amount` of credit into the pool, minting shares at the
    /// current rate (one-for-one while the pool is still under its floor).
    /// A protocol cut of the minted shares goes to the application account;
    /// the remainder goes to the caller. The application account itself may
    /// not provide liquidity, the deposit must lift the pool to its floor,
    /// and the mint must meet the caller's slippage guard; on any failure
    /// nothing changes.
    pub fn add_liquidity(
        &mut self,
        account_id: AccountId,
        now: u64,
        ft_amount: TokenBalance,
        min_l_amount: TokenBalance,
    ) -> (r: Result<(), LedgerError>)
        requires
            old(self).wf(),
            old(self).last_timestamp_touched <= now,
            ({
                let h = spec_heartbeat(*old(self), now);
                let resolved = spec_resolve(h, account_id);
                let t = spec_touched(resolved, h.ft_farmed_per_pixel);
                let l_minted = spec_l_from_ft(h.ft_pool, h.l_pool, ft_amount);
                let cut = l_minted / (h.config.app_liquidity_denominator as int);
                &&& old(self).stats.ft_farmed + pending_reward(resolved, h.ft_farmed_per_pixel)
                    + pending_reward(h.accounts@[0], h.ft_farmed_per_pixel) <= u128::MAX
                &&& h.ft_pool + ft_amount <= u128::MAX
                &&& (h.ft_pool >= MIN_FT_POOL ==> (ft_amount as int * h.l_pool as int) / (
                h.ft_pool as int) <= u128::MAX)
                &&& h.l_pool + l_minted <= u128::MAX
                &&& t.l_balance + (l_minted - cut) <= u128::MAX
                &&& h.accounts@[0].l_balance + cut <= u128::MAX
                &&& (!has_id(h.accounts@, account_id@) ==> h.accounts@.len() < u32::MAX)
            }),
        ensures
            ({
                let h = spec_heartbeat(*old(self), now);
                let acc = h.ft_farmed_per_pixel;
                let s0 = h.accounts@;
                let resolved = spec_resolve(h, account_id);
                let t = spec_touched(resolved, acc);
                let l_minted = spec_l_from_ft(h.ft_pool, h.l_pool, ft_amount);
                let cut = l_minted / (h.config.app_liquidity_denominator as int);
                let is_app = account_id@ == h.config.app_owner_id@;
                let poor = !is_app && t.ft_balance < ft_amount;
                let below = !is_app && !poor && h.ft_pool + ft_amount < MIN_FT_POOL;
                let slip = !is_app && !poor && !below && l_minted < min_l_amount;
                match r {
                    Ok(()) => ({
                        let caller_saved = (Account {
                            ft_balance: (t.ft_balance - ft_amount) as u128,
                            l_balance: (t.l_balance + (l_minted - cut)) as u128,
                            ..t
                        });
                        let base = if has_id(s0, account_id@) {
                            s0.update(id_index(s0, account_id@), caller_saved)
                        } else {
                            s0.push(caller_saved)
                        };
                        let app_saved = (Account {
                            l_balance: (s0[0].l_balance + cut) as u128,
                            ..spec_touched(s0[0], acc)
                        });
                        &&& !is_app && !poor && !below && !slip
                        &&& final(self).accounts@ == base.update(0, app_saved)
                        &&& final(self).ft_pool == h.ft_pool + ft_amount
                        &&& final(self).l_pool == h.l_pool + l_minted
                        &&& final(self).stats == (Stats {
                            ft_farmed: (old(self).stats.ft_farmed + pending_reward(resolved, acc)
                                + pending_reward(s0[0], acc)) as u128,
                            ..old(self).stats
                        })
                        &&& final(self).ft_farmed_per_pixel == acc
                        &&& final(self).last_timestamp_touched == now
                        &&& final(self).config == old(self).config
                        &&& final(self).wf()
                        &&& conserved(*final(self)) == conserved(*old(self))
                        &&& (old(self).backed() ==> final(self).backed())
                    }),
                    Err(e) => {
                        &&& *final(self) == *old(self)
                        &&& (is_app || poor || below || slip)
                        &&& e == (if is_app {
                            LedgerError::NotPermitted
                        } else if poor {
                            LedgerError::InsufficientBalance
                        } else if below {
                            LedgerError::PoolBelowFloor
                        } else {
                            LedgerError::SlippageExceeded
                        })
                    },
                }
            }),
    {
        proof {
            lemma_heartbeat_effect(*old(self), now);
        }
        let ghost h = spec_heartbeat(*old(self), now);
        let ghost acc = self.ft_farmed_per_pixel;
        let ghost s0 = self.accounts@;
        let ghost resolved = spec_resolve(*old(self), account_id);
        proof {
            assert(spec_resolve(h, account_id) == resolved);
        }
        let ghost is_new = !has_id(s0, account_id@);
        let mut account = self.resolve_account(account_id);
        if account.account_index == 0 {
            proof {
                assert(!is_new);
                let j = id_index(s0, account_id@);
                assert(s0[j].account_index == j);
            }
            return Err(LedgerError::NotPermitted);
        }
        proof {
            if account_id@ == old(self).config.app_owner_id@ {
                lemma_id_index(s0, 0);
                assert(false);
            }
            if is_new {
                lemma_pending_zero(resolved, acc);
            }
        }
        let ft_farmed = account.touch(self.ft_farmed_per_pixel);
        if account.ft_balance < ft_amount {
            return Err(LedgerError::InsufficientBalance);
        }
        account.ft_balance = account.ft_balance - ft_amount;
        let new_ft_pool = self.ft_pool + ft_amount;
        if new_ft_pool < MIN_FT_POOL {
            return Err(LedgerError::PoolBelowFloor);
        }
        let l_amount = self.internal_l_from_ft(ft_amount);
        if l_amount < min_l_amount {
            return Err(LedgerError::SlippageExceeded);
        }
        let app_l_amount = l_amount / self.config.app_liquidity_denominator;
        proof {
            vstd::arithmetic::div_mod::lemma_div_pos_is_pos(
                l_amount as int,
                self.config.app_liquidity_denominator as int,
            );
            vstd::arithmetic::div_mod::lemma_div_nonincreasing(
                l_amount as int,
                self.config.app_liquidity_denominator as int,
            );
        }
        account.l_balance = account.l_balance + (l_amount - app_l_amount);
        self.touch(now);
        if ft_farmed > 0 {
            self.stats.ft_farmed = self.stats.ft_farmed + ft_farmed;
        }
        self.l_pool = self.l_pool + l_amount;
        self.ft_pool = self.ft_pool + ft_amount;
        let ghost caller_saved = account;
        proof {
            lemma_pending_zero(caller_saved, acc);
        }
        self.save_account(account);
        let ghost base = self.accounts@;
        let mut app_account = self.get_app_account();
        app_account.l_balance = app_account.l_balance + app_l_amount;
        let ghost app_saved = app_account;
        proof {
            lemma_pending_zero(app_saved, acc);
        }
        self.save_account(app_account);
        proof {
            lemma_measure_touched(resolved, acc);
            if is_new {
                lemma_sum_measure_push(s0, caller_saved, acc);
                lemma_sum_l_push(s0, caller_saved);
            } else {
                let i = id_index(s0, account_id@);
                lemma_sum_measure_update(s0, i, caller_saved, acc);
                lemma_sum_l_update(s0, i, caller_saved);
            }
            assert(base[0] == s0[0]);
            lemma_measure_touched(s0[0], acc);
            lemma_sum_measure_update(base, 0, app_saved, acc);
            lemma_sum_l_update(base, 0, app_saved);
        }
        Ok(())
    }

    /// Burn `l_amount` of the caller's shares for credit at the pool rate.
    /// The application account may not redeem, the pool must be at its
    /// floor to quote a rate and must stay at its floor after the payout,
    /// and the payout must meet the caller's slippage guard; on any failure
    /// nothing changes. On success the redeemed credit is credited to the
    /// caller's spendable balance.
    pub fn remove_liquidity(
        &mut self,
        account_id: AccountId,
        now: u64,
        l_amount: TokenBalance,
        min_ft_amount: TokenBalance,
    ) -> (r: Result<(), LedgerError>)
        requires
            old(self).wf(),
            old(self).backed(),
            old(self).last_timestamp_touched <= now,
            ({
                let h = spec_heartbeat(*old(self), now);
                let resolved = spec_resolve(h, account_id);
                let t = spec_touched(resolved, h.ft_farmed_per_pixel);
                &&& old(self).stats.ft_farmed + pending_reward(resolved, h.ft_farmed_per_pixel)
                    <= u128::MAX
                &&& (h.ft_pool >= MIN_FT_POOL ==> l_amount > 0 || h.l_pool > 0)
                &&& (h.l_pool >= 1 ==> (l_amount as int * h.ft_pool as int) / (h.l_pool as int)
                    <= u128::MAX)
                &&& (h.l_pool >= 1 ==> t.ft_balance + spec_ft_from_l(h.ft_pool, h.l_pool, l_amount)
                    <= u128::MAX)
                &&& (!has_id(h.accounts@, account_id@) ==> h.accounts@.len() < u32::MAX)
            }),
        ensures
            ({
                let h = spec_heartbeat(*old(self), now);
                let acc = h.ft_farmed_per_pixel;
                let s0 = h.accounts@;
                let resolved = spec_resolve(h, account_id);
                let t = spec_touched(resolved, acc);
                let ft_out = spec_ft_from_l(h.ft_pool, h.l_pool, l_amount);
                let is_app = account_id@ == h.config.app_owner_id@;
                let poor = !is_app && t.l_balance < l_amount;
                let below_before = !is_app && !poor && h.ft_pool < MIN_FT_POOL;
                let slip = !is_app && !poor && !below_before && ft_out < min_ft_amount;
                let below_after = !is_app && !poor && !below_before && !slip && h.ft_pool - ft_out
                    < MIN_FT_POOL;
                match r {
                    Ok(()) => ({
                        let caller_saved = (Account {
                            ft_balance: (t.ft_balance + ft_out) as u128,
                            l_balance: (t.l_balance - l_amount) as u128,
                            ..t
                        });
                        let base = if has_id(s0, account_id@) {
                            s0.update(id_index(s0, account_id@), caller_saved)
                        } else {
                            s0.push(caller_saved)
                        };
                        &&& !is_app && !poor && !below_before && !slip && !below_after
                        &&& final(self).accounts@ == base
                        &&& final(self).ft_pool == h.ft_pool - ft_out
                        &&& final(self).l_pool == h.l_pool - l_amount
                        &&& final(self).stats == (Stats {
                            ft_farmed: (old(self).stats.ft_farmed + pending_reward(
                                resolved,
                                acc,
                            )) as u128,
                            ..old(self).stats
                        })
                        &&& final(self).ft_farmed_per_pixel == acc
                        &&& final(self).last_timestamp_touched == now
                        &&& final(self).config == old(self).config
                        &&& final(self).wf()
                        &&& final(self).backed()
                        &&& conserved(*final(self)) == conserved(*old(self))
                    }),
                    Err(e) => {
                        &&& *final(self) == *old(self)
                        &&& (is_app || poor || below_before || slip || below_after)
                        &&& e == (if is_app {
                            LedgerError::NotPermitted
                        } else if poor {
                            LedgerError::InsufficientBalance
                        } else if below_before {
                            LedgerError::PoolBelowFloor
                        } else if slip {
                            LedgerError::SlippageExceeded
                        } else {
                            LedgerError::PoolBelowFloor
                        })
                    },
                }
            }),
    {
        proof {
            lemma_heartbeat_effect(*old(self), now);
        }
        let ghost h = spec_heartbeat(*old(self), now);
        let ghost acc = self.ft_farmed_per_pixel;
        let ghost s0 = self.accounts@;
        let ghost resolved = spec_resolve(*old(self), account_id);
        proof {
            assert(spec_resolve(h, account_id) == resolved);
        }
        let ghost is_new = !has_id(s0, account_id@);
        let mut account = self.resolve_account(account_id);
        if account.account_index == 0 {
            proof {
                assert(!is_new);
                let j = id_index(s0, account_id@);
                assert(s0[j].account_index == j);
            }
            return Err(LedgerError::NotPermitted);
        }
        proof {
            if account_id@ == old(self).config.app_owner_id@ {
                lemma_id_index(s0, 0);
                assert(false);
            }
            if is_new {
                lemma_pending_zero(resolved, acc);
            }
        }
        let ft_farmed = account.touch(self.ft_farmed_per_pixel);
        if account.l_balance < l_amount {
            return Err(LedgerError::InsufficientBalance);
        }
        account.l_balance = account.l_balance - l_amount;
        if self.ft_pool < MIN_FT_POOL {
            return Err(LedgerError::PoolBelowFloor);
        }
        proof {
            if !is_new {
                lemma_l_balance_le_sum_l(s0, id_index(s0, account_id@));
            }
        }
        let ft_amount = self.internal_ft_from_l(l_amount);
        if ft_amount < min_ft_amount {
            return Err(LedgerError::SlippageExceeded);
        }
        proof {
            let la = l_amount as int;
            let lp = self.l_pool as int;
            let fp = self.ft_pool as int;
            vstd::arithmetic::mul::lemma_mul_inequality(la, lp, fp);
            vstd::arithmetic::div_mod::lemma_div_is_ordered(la * fp, lp * fp, lp);
            vstd::arithmetic::div_mod::lemma_div_multiples_vanish(fp, lp);
            assert(lp * fp == fp * lp) by (nonlinear_arith);
            assert(ft_amount <= self.ft_pool);
        }
        let new_ft_pool = self.ft_pool - ft_amount;
        if new_ft_pool < MIN_FT_POOL {
            return Err(LedgerError::PoolBelowFloor);
        }
        account.ft_balance = account.ft_balance + ft_amount;
        self.touch(now);
        if ft_farmed > 0 {
            self.stats.ft_farmed = self.stats.ft_farmed + ft_farmed;
        }
        self.ft_pool = self.ft_pool - ft_amount;
        self.l_pool = self.l_pool - l_amount;
        let ghost caller_saved = account;
        proof {
            lemma_pending_zero(caller_saved, acc);
        }
        self.save_account(account);
        proof {
            lemma_measure_touched(resolved, acc);
            if is_new {
                lemma_sum_measure_push(s0, caller_saved, acc);
                lemma_sum_l_push(s0, caller_saved);
            } else {
                let i = id_index(s0, account_id@);
                lemma_sum_measure_update(s0, i, caller_saved, acc);
                lemma_sum_l_update(s0, i, caller_saved);
            }
        }
        Ok(())
    }
}

} // verus!
