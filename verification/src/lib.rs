//! Ledger and pricing engine of a tokenized shared-canvas application.
//!
//! The `Contract` value owns every per-participant account record, the
//! fungible-credit pool and liquidity-share pool backing the proportional
//! share conversion, the global reward accumulator with its heartbeat, and
//! the cumulative statistics counters. Callers resolve an identity to an
//! account, reward accrual is reconciled lazily on every touch, and each
//! public operation either commits all of its record mutations or none.
//!
//! The host runtime around the ledger supplies the caller identity, the
//! current timestamp, and the grid collaborator's reply to a claim; they
//! enter every operation as plain arguments.

use vstd::prelude::*;

pub mod account;
pub mod fungible_token;
pub mod liquidity;
pub mod types;

use crate::account::{
    accrual_fits, lemma_pending_zero, pending_reward, spec_resolve, spec_touched, Account,
};
use crate::types::{
    AccountId, AccountIndex, FarmRatio, LedgerError, TokenBalance, MIN_FT_POOL, TOTAL_NUM_PIXELS,
};
use vstd::arithmetic::div_mod::{lemma_div_nonincreasing, lemma_div_pos_is_pos};
use vstd::arithmetic::mul::lemma_mul_nonnegative;

verus! {

/// Immutable deployment configuration.
pub struct ContractConfig {
    /// Identity of the trusted external fungible-token ledger.
    pub ft_account_id: AccountId,
    /// Identity of the application account (account index 0).
    pub app_owner_id: AccountId,
    /// Divisor for the protocol share carved out of every liquidity mint.
    pub app_liquidity_denominator: u128,
    /// Divisor turning the credit pool into a per-pixel price.
    pub pixel_coef_denominator: u128,
    /// Divisor turning a pixel price into the retained fee.
    pub draw_fee_denominator: u128,
}

impl ContractConfig {
    /// The three divisors must be usable as divisors.
    pub open spec fn wf(self) -> bool {
        &&& self.app_liquidity_denominator >= 1
        &&& self.pixel_coef_denominator >= 1
        &&& self.draw_fee_denominator >= 1
    }
}

/// Cumulative counters; monotone, informational only.
pub struct Stats {
    /// Total fee retained on pixel claims.
    pub ft_draw_fee: TokenBalance,
    /// Total credit spent on pixel claims.
    pub ft_draw_spent: TokenBalance,
    /// Total reward ever accrued into account balances.
    pub ft_farmed: TokenBalance,
}

/// The whole ledger state.
pub struct Contract {
    /// Account records, densely indexed: the record at position `i` has
    /// `account_index == i`. Index 0 is the application account.
    pub accounts: Vec<Account>,
    /// Deployment configuration.
    pub config: ContractConfig,
    /// Cumulative counters.
    pub stats: Stats,
    /// Global reward-per-pixel accumulator; monotonically non-decreasing.
    pub ft_farmed_per_pixel: FarmRatio,
    /// Timestamp of the last global accrual heartbeat.
    pub last_timestamp_touched: u64,
    /// Credit reserve backing the share conversion and pixel pricing.
    pub ft_pool: TokenBalance,
    /// Share reserve backing the share conversion.
    pub l_pool: TokenBalance,
}

/// Some record in `accounts` carries the identity `id`.
pub open spec fn has_id(accounts: Seq<Account>, id: Seq<char>) -> bool {
    exists|i: int| 0 <= i < accounts.len() && accounts[i].account_id@ == id
}

/// The position of the record carrying `id` (meaningful under `has_id`).
pub open spec fn id_index(accounts: Seq<Account>, id: Seq<char>) -> int {
    choose|i: int| 0 <= i < accounts.len() && accounts[i].account_id@ == id
}

/// No two records carry the same identity.
pub open spec fn distinct_ids(accounts: Seq<Account>) -> bool {
    forall|i: int, j: int|
        0 <= i < j < accounts.len() ==> accounts[i].account_id@ != accounts[j].account_id@
}

/// Credit attributable to one account: its spendable balance plus the
/// reward it has farmed but not yet accrued.
pub open spec fn account_measure(a: Account, acc: FarmRatio) -> int {
    a.ft_balance + pending_reward(a, acc)
}

/// Sum of `account_measure` over a record sequence.
pub open spec fn sum_measure(s: Seq<Account>, acc: FarmRatio) -> int
    decreases s.len(),
{
    if s.len() == 0 {
        0
    } else {
        sum_measure(s.drop_last(), acc) + account_measure(s.last(), acc)
    }
}

/// Sum of the liquidity-share balances over a record sequence.
pub open spec fn sum_l(s: Seq<Account>) -> int
    decreases s.len(),
{
    if s.len() == 0 {
        0
    } else {
        sum_l(s.drop_last()) + s.last().l_balance
    }
}

/// All credit the ledger answers for: spendable balances, farmed but not
/// yet accrued reward, the credit pool, and the retained fee counter.
/// Every operation preserves this quantity up to its net external inflow.
pub open spec fn conserved(c: Contract) -> int {
    sum_measure(c.accounts@, c.ft_farmed_per_pixel) + c.ft_pool + c.stats.ft_draw_fee
}

impl Contract {
    /// Structural well-formedness: valid configuration, dense immutable
    /// indices, unique identities, the application account at index 0, and
    /// every record's accrual defined and in range.
    pub open spec fn wf(self) -> bool {
        &&& self.config.wf()
        &&& 1 <= self.accounts@.len() <= u32::MAX
        &&& forall|i: int|
            0 <= i < self.accounts@.len() ==> (#[trigger] self.accounts@[i]).account_index == i
        &&& forall|i: int|
            0 <= i < self.accounts@.len() ==> accrual_fits(
                #[trigger] self.accounts@[i],
                self.ft_farmed_per_pixel,
            )
        &&& distinct_ids(self.accounts@)
        &&& self.accounts@[0].account_id@ == self.config.app_owner_id@
    }

    /// The share pool equals the sum of all share balances.
    pub open spec fn backed(self) -> bool {
        sum_l(self.accounts@) == self.l_pool
    }
}

/// Per-tick reward rate from elapsed time and pool size. This is the
/// pluggable farming policy point; the policy currently in force yields
/// no reward.
pub open spec fn spec_farm_rate(time_diff: u64, ft_pool: TokenBalance) -> FarmRatio {
    0
}

/// Executable form of the farming policy.
pub fn farm_rate(time_diff: u64, ft_pool: TokenBalance) -> (r: FarmRatio)
    ensures
        r == spec_farm_rate(time_diff, ft_pool),
{
    0
}

/// The ledger after a heartbeat at time `now`: the timestamp always
/// advances; while the credit pool is above its floor, the accumulator
/// grows by the policy rate and the pool funds the implied total reward.
pub open spec fn spec_heartbeat(c: Contract, now: u64) -> Contract {
    let rate = spec_farm_rate((now - c.last_timestamp_touched) as u64, c.ft_pool);
    if c.ft_pool <= MIN_FT_POOL {
        Contract { last_timestamp_touched: now, ..c }
    } else {
        Contract {
            last_timestamp_touched: now,
            ft_farmed_per_pixel: (c.ft_farmed_per_pixel + rate) as u128,
            ft_pool: (c.ft_pool - rate * (TOTAL_NUM_PIXELS as u128)) as u128,
            ..c
        }
    }
}

impl Contract {
    /// One-time construction. The application account is allocated at
    /// index 0 and pre-assigned ownership of the whole board; pools,
    /// counters and the reward accumulator start at zero.
    pub fn new(config: ContractConfig, now: u64) -> (r: Contract)
        requires
            config.wf(),
        ensures
            r.wf(),
            r.backed(),
            conserved(r) == 0,
            r.config == config,
            r.accounts@.len() == 1,
            r.accounts@[0] == (Account {
                account_id: config.app_owner_id,
                account_index: 0,
                last_ft_farmed_per_pixel: 0,
                ft_balance: 0,
                l_balance: 0,
                num_pixels: TOTAL_NUM_PIXELS,
            }),
            r.stats.ft_draw_fee == 0 && r.stats.ft_draw_spent == 0 && r.stats.ft_farmed == 0,
            r.ft_farmed_per_pixel == 0,
            r.last_timestamp_touched == now,
            r.ft_pool == 0 && r.l_pool == 0,
    {
        let app_id = config.app_owner_id.clone();
        let mut account = Account::new(app_id, 0, 0);
        account.num_pixels = TOTAL_NUM_PIXELS;
        let mut accounts: Vec<Account> = Vec::new();
        accounts.push(account);
        let r = Contract {
            accounts,
            config,
            stats: Stats { ft_draw_fee: 0, ft_draw_spent: 0, ft_farmed: 0 },
            ft_farmed_per_pixel: 0,
            last_timestamp_touched: now,
            ft_pool: 0,
            l_pool: 0,
        };
        proof {
            let s = r.accounts@;
            assert(s.len() == 1);
            assert(s.drop_last() =~= Seq::<Account>::empty());
            assert(pending_reward(s[0], 0) == (0 - 0) * (s[0].num_pixels as int));
            assert((0 - 0) * (s[0].num_pixels as int) == 0) by (nonlinear_arith);
            assert(sum_l(Seq::<Account>::empty()) == 0);
            assert(sum_measure(Seq::<Account>::empty(), 0) == 0);
            assert(s.last() == s[0]);
            assert(sum_l(s) == 0);
            assert(sum_measure(s, 0) == account_measure(s[0], 0));
            assert(conserved(r) == 0);
        }
        r
    }

    /// Claim `num_pixels` board pixels for `account_id`. The pixels are
    /// priced sequentially against the running pool, the total is charged
    /// to the caller (whole claim or nothing), the fee share of the total
    /// is retained outside the pool, and `former_owners` — the grid
    /// collaborator's reply naming each previous owner's index and lost
    /// count — is reconciled one ledger round-trip per former owner. An
    /// entry naming the caller is self-overlap: those pixels are no net
    /// transfer.
    #[verifier::loop_isolation(false)]
    #[verifier::rlimit(100)]
    pub fn draw(
        &mut self,
        account_id: AccountId,
        num_pixels: u32,
        former_owners: Vec<(AccountIndex, u32)>,
    ) -> (r: Result<(), LedgerError>)
        requires
            old(self).wf(),
            num_pixels > 0 ==> ({
                let s0 = old(self).accounts@;
                let acc = old(self).ft_farmed_per_pixel;
                let resolved = spec_resolve(*old(self), account_id);
                let ci = resolved.account_index;
                let t = spec_touched(resolved, acc);
                let pr = spec_draw_price(
                    old(self).ft_pool as int,
                    old(self).config.pixel_coef_denominator as int,
                    old(self).config.draw_fee_denominator as int,
                    num_pixels as nat,
                );
                &&& owners_ok(s0, former_owners@, ci)
                &&& forall|m: int|
                    0 <= m < former_owners@.len() ==> ((#[trigger] former_owners@[m]).0 == ci
                        ==> former_owners@[m].1 <= num_pixels)
                &&& pr.0 <= u128::MAX
                &&& pr.2 <= u128::MAX
                &&& old(self).stats.ft_draw_spent + pr.0 <= u128::MAX
                &&& old(self).stats.ft_draw_fee + pr.1 <= u128::MAX
                &&& old(self).stats.ft_farmed + pending_reward(resolved, acc) + listed_pending(
                    s0,
                    former_owners@,
                    ci,
                    acc,
                    former_owners@.len() as int,
                ) <= u128::MAX
                &&& t.num_pixels + num_pixels - spec_replaced(former_owners@, ci) <= u32::MAX
                &&& (!has_id(s0, account_id@) ==> s0.len() < u32::MAX)
            }),
        ensures
            num_pixels == 0 ==> r == Ok::<(), LedgerError>(()) && *final(self) == *old(self),
            num_pixels > 0 ==> ({
                let s0 = old(self).accounts@;
                let acc = old(self).ft_farmed_per_pixel;
                let resolved = spec_resolve(*old(self), account_id);
                let ci = resolved.account_index;
                let t = spec_touched(resolved, acc);
                let pr = spec_draw_price(
                    old(self).ft_pool as int,
                    old(self).config.pixel_coef_denominator as int,
                    old(self).config.draw_fee_denominator as int,
                    num_pixels as nat,
                );
                let replaced = spec_replaced(former_owners@, ci);
                match r {
                    Ok(()) => ({
                        let caller_saved = (Account {
                            ft_balance: (t.ft_balance - pr.0) as u128,
                            num_pixels: (t.num_pixels + num_pixels - replaced) as u32,
                            ..t
                        });
                        let base = if has_id(s0, account_id@) {
                            s0.update(id_index(s0, account_id@), caller_saved)
                        } else {
                            s0.push(caller_saved)
                        };
                        &&& t.ft_balance >= pr.0
                        &&& final(self).accounts@ == spec_reconcile(
                            base,
                            former_owners@,
                            ci,
                            acc,
                            former_owners@.len() as int,
                        )
                        &&& final(self).accounts@[ci as int].num_pixels == t.num_pixels
                            + num_pixels - replaced
                        &&& forall|m: int|
                            0 <= m < former_owners@.len() && (#[trigger] former_owners@[m]).0
                                != ci ==> final(self).accounts@[former_owners@[m].0 as int].num_pixels
                                == s0[former_owners@[m].0 as int].num_pixels - former_owners@[m].1
                        &&& final(self).ft_pool == pr.2
                        &&& final(self).l_pool == old(self).l_pool
                        &&& final(self).stats == (Stats {
                            ft_draw_fee: (old(self).stats.ft_draw_fee + pr.1) as u128,
                            ft_draw_spent: (old(self).stats.ft_draw_spent + pr.0) as u128,
                            ft_farmed: (old(self).stats.ft_farmed + pending_reward(resolved, acc)
                                + listed_pending(
                                s0,
                                former_owners@,
                                ci,
                                acc,
                                former_owners@.len() as int,
                            )) as u128,
                        })
                        &&& final(self).ft_farmed_per_pixel == acc
                        &&& final(self).last_timestamp_touched == old(self).last_timestamp_touched
                        &&& final(self).config == old(self).config
                        &&& final(self).wf()
                        &&& conserved(*final(self)) == conserved(*old(self))
                        &&& (old(self).backed() ==> final(self).backed())
                    }),
                    Err(e) => {
                        &&& e == LedgerError::InsufficientBalance
                        &&& t.ft_balance < pr.0
                        &&& *final(self) == *old(self)
                    },
                }
            }),
    {
        if num_pixels == 0 {
            return Ok(());
        }
        let ghost s0 = old(self).accounts@;
        let ghost acc = old(self).ft_farmed_per_pixel;
        let ghost resolved = spec_resolve(*old(self), account_id);
        let ghost ci = resolved.account_index;
        let ghost t = spec_touched(resolved, acc);
        let ghost pool0 = old(self).ft_pool as int;
        let ghost coefi = old(self).config.pixel_coef_denominator as int;
        let ghost feei = old(self).config.draw_fee_denominator as int;
        let ghost pr = spec_draw_price(pool0, coefi, feei, num_pixels as nat);
        let ghost is_new = !has_id(s0, account_id@);
        let mut account = self.resolve_account(account_id);
        let caller_index = account.account_index;
        proof {
            if is_new {
                lemma_pending_zero(resolved, acc);
            }
        }
        let ft_farmed = account.touch(self.ft_farmed_per_pixel);

        let coef = self.config.pixel_coef_denominator;
        let fee_den = self.config.draw_fee_denominator;
        let mut pool: u128 = self.ft_pool;
        let mut ft_amount: u128 = 0;
        let mut ft_draw_fee: u128 = 0;
        let mut i: u32 = 0;
        while i < num_pixels
            invariant
                i <= num_pixels,
                ft_amount == spec_draw_price(pool0, coefi, feei, i as nat).0,
                ft_draw_fee == spec_draw_price(pool0, coefi, feei, i as nat).1,
                pool == spec_draw_price(pool0, coefi, feei, i as nat).2,
            decreases num_pixels - i,
        {
            proof {
                lemma_draw_price_props(pool0, coefi, feei, i as nat);
                lemma_draw_price_props(pool0, coefi, feei, (i + 1) as nat);
                lemma_draw_price_monotone(pool0, coefi, feei, (i + 1) as nat, num_pixels as nat);
                lemma_div_pos_is_pos(pool as int, coef as int);
                lemma_div_nonincreasing(pool as int, coef as int);
                lemma_div_pos_is_pos((pool as int) / (coef as int), fee_den as int);
                lemma_div_nonincreasing((pool as int) / (coef as int), fee_den as int);
            }
            let pixel_ft = pool / coef;
            let pixel_ft_draw_fee = pixel_ft / fee_den;
            ft_amount = ft_amount + pixel_ft;
            ft_draw_fee = ft_draw_fee + pixel_ft_draw_fee;
            pool = pool - pixel_ft_draw_fee + pixel_ft;
            i = i + 1;
        }
        proof {
            lemma_draw_price_props(pool0, coefi, feei, num_pixels as nat);
        }

        match account.charge(ft_amount) {
            Err(e) => {
                return Err(e);
            },
            Ok(()) => {},
        }
        proof {
            lemma_listed_pending_nonneg(
                s0,
                former_owners@,
                ci,
                acc,
                former_owners@.len() as int,
            );
        }
        if ft_farmed > 0 {
            self.stats.ft_farmed = self.stats.ft_farmed + ft_farmed;
        }
        self.stats.ft_draw_fee = self.stats.ft_draw_fee + ft_draw_fee;
        self.stats.ft_draw_spent = self.stats.ft_draw_spent + ft_amount;
        self.ft_pool = pool;

        let n_owners = former_owners.len();
        let mut replaced_pixels: u32 = 0;
        let mut k: usize = 0;
        while k < n_owners
            invariant
                k <= n_owners,
                replaced_pixels == spec_replaced(former_owners@.take(k as int), ci),
            decreases n_owners - k,
        {
            proof {
                assert(former_owners@.take(k as int + 1).drop_last() =~= former_owners@.take(
                    k as int,
                ));
                assert(former_owners@.take(k as int + 1).last() == former_owners@[k as int]);
            }
            let entry = former_owners[k];
            if entry.0 == caller_index {
                replaced_pixels = entry.1;
            }
            k = k + 1;
        }
        proof {
            assert(former_owners@.take(n_owners as int) =~= former_owners@);
            lemma_replaced_bound(former_owners@, ci, num_pixels);
        }
        account.num_pixels = account.num_pixels + (num_pixels - replaced_pixels);
        let ghost caller_saved = account;
        proof {
            lemma_pending_zero(caller_saved, acc);
        }
        self.save_account(account);
        let ghost base = self.accounts@;
        let ghost farmed_committed = self.stats.ft_farmed as int;
        let ghost fee_committed = self.stats.ft_draw_fee;
        let ghost spent_committed = self.stats.ft_draw_spent;
        proof {
            lemma_measure_touched(resolved, acc);
            if is_new {
                lemma_sum_measure_push(s0, caller_saved, acc);
                lemma_sum_l_push(s0, caller_saved);
            } else {
                let ii = id_index(s0, account_id@);
                lemma_sum_measure_update(s0, ii, caller_saved, acc);
                lemma_sum_l_update(s0, ii, caller_saved);
            }
            assert forall|m: int| 0 <= m < former_owners@.len() implies ((
            #[trigger] former_owners@[m]).0 == ci || ((former_owners@[m].0 as int) < base.len()
                && former_owners@[m].1 <= base[former_owners@[m].0 as int].num_pixels)) by {
                if former_owners@[m].0 != ci {
                    assert(base[former_owners@[m].0 as int] == s0[former_owners@[m].0 as int]);
                }
            }
            assert(owners_ok(base, former_owners@, ci));
        }

        let mut k2: usize = 0;
        while k2 < n_owners
            invariant
                k2 <= n_owners,
                self.accounts@ == spec_reconcile(base, former_owners@, ci, acc, k2 as int),
                self.stats.ft_farmed as int == farmed_committed + listed_pending(
                    s0,
                    former_owners@,
                    ci,
                    acc,
                    k2 as int,
                ),
                self.stats.ft_draw_fee == fee_committed,
                self.stats.ft_draw_spent == spent_committed,
                self.ft_pool == pool,
                self.l_pool == old(self).l_pool,
                self.ft_farmed_per_pixel == acc,
                self.last_timestamp_touched == old(self).last_timestamp_touched,
                self.config == old(self).config,
                self.wf(),
            decreases n_owners - k2,
        {
            let entry = former_owners[k2];
            if entry.0 != caller_index {
                proof {
                    lemma_reconcile_props(base, former_owners@, ci, acc, k2 as int);
                    assert forall|m: int|
                        !(0 <= m < k2 as int && (#[trigger] former_owners@[m]).0 != ci
                            && former_owners@[m].0 == entry.0) by {
                        if 0 <= m < k2 as int {
                            assert(former_owners@[m].0 != former_owners@[k2 as int].0);
                        }
                    }
                    assert(!listed_noncaller(former_owners@, ci, k2 as int, entry.0 as int));
                    assert(self.accounts@[entry.0 as int] == base[entry.0 as int]);
                    assert(base[entry.0 as int] == s0[entry.0 as int]);
                    lemma_listed_pending_props(s0, former_owners@, ci, acc, k2 as int + 1);
                }
                let looked = self.get_internal_account_by_index(entry.0);
                let mut former = match looked {
                    Some(aa) => aa,
                    None => {
                        proof {
                            assert(false);
                        }
                        Account::new(String::new(), 0, 0)
                    },
                };
                self.touch_account(&mut former);
                former.num_pixels = former.num_pixels - entry.1;
                let ghost settled = former;
                proof {
                    lemma_pending_zero(settled, acc);
                    assert(settled == spec_settled(base[entry.0 as int], acc, entry.1));
                }
                self.save_account(former);
            } else {
                proof {
                    assert(spec_reconcile(base, former_owners@, ci, acc, k2 as int + 1)
                        == spec_reconcile(base, former_owners@, ci, acc, k2 as int));
                }
            }
            k2 = k2 + 1;
        }
        proof {
            lemma_reconcile_props(base, former_owners@, ci, acc, n_owners as int);
            assert forall|m: int|
                !(0 <= m < n_owners as int && (#[trigger] former_owners@[m]).0 != ci
                    && former_owners@[m].0 == ci as int) by {}
            assert(!listed_noncaller(former_owners@, ci, n_owners as int, ci as int));
        }
        Ok(())
    }

    /// Global accrual heartbeat. Recomputes elapsed time, unconditionally
    /// advances the timestamp, and — only while the credit pool is above
    /// its floor — applies the policy rate to the accumulator, deducting
    /// the implied reward from the pool. Idempotent since the last call.
    pub fn touch(&mut self, now: u64)
        requires
            old(self).last_timestamp_touched <= now,
        ensures
            *final(self) == spec_heartbeat(*old(self), now),
            old(self).wf() ==> final(self).wf(),
            old(self).backed() ==> final(self).backed(),
            conserved(*final(self)) == conserved(*old(self)),
    {
        let timestamp = now;
        let time_diff = timestamp - self.last_timestamp_touched;
        self.last_timestamp_touched = timestamp;
        if self.ft_pool <= MIN_FT_POOL {
            return;
        }
        let added_ft_farmed_per_pixel = farm_rate(time_diff, self.ft_pool);
        let ft_amount = added_ft_farmed_per_pixel * (TOTAL_NUM_PIXELS as u128);
        self.ft_farmed_per_pixel = self.ft_farmed_per_pixel + added_ft_farmed_per_pixel;
        self.ft_pool = self.ft_pool - ft_amount;
    }

    /// The deployment configuration.
    pub fn get_config(self) -> (r: ContractConfig)
        ensures
            r == self.config,
    {
        self.config
    }

    /// The cumulative counters.
    pub fn get_stats(self) -> (r: Stats)
        ensures
            r == self.stats,
    {
        self.stats
    }
}

/// Totals of the sequential pixel pricing pass: cumulative price,
/// cumulative fee, and the pool value after pricing `n` pixels. Each pixel
/// is priced against the pool the previous pixel left behind: unit price
/// is the running pool over the pixel coefficient, the unit fee is the
/// unit price over the fee denominator, and the pool grows by their
/// difference.
pub open spec fn spec_draw_price(pool: int, coef_den: int, fee_den: int, n: nat) -> (int, int, int)
    decreases n,
{
    if n == 0 {
        (0, 0, pool)
    } else {
        let prev = spec_draw_price(pool, coef_den, fee_den, (n - 1) as nat);
        let unit = prev.2 / coef_den;
        let fee = unit / fee_den;
        (prev.0 + unit, prev.1 + fee, prev.2 + unit - fee)
    }
}

/// The pricing totals are non-negative, the fee never exceeds the price,
/// and the pool never shrinks below its starting value.
pub proof fn lemma_draw_price_props(pool: int, coef_den: int, fee_den: int, n: nat)
    requires
        pool >= 0,
        coef_den >= 1,
        fee_den >= 1,
    ensures
        ({
            let p = spec_draw_price(pool, coef_den, fee_den, n);
            &&& 0 <= p.0
            &&& 0 <= p.1 <= p.0
            &&& pool <= p.2
            &&& p.2 == pool + p.0 - p.1
        }),
    decreases n,
{
    if n > 0 {
        lemma_draw_price_props(pool, coef_den, fee_den, (n - 1) as nat);
        let prev = spec_draw_price(pool, coef_den, fee_den, (n - 1) as nat);
        let unit = prev.2 / coef_den;
        lemma_div_pos_is_pos(prev.2, coef_den);
        lemma_div_pos_is_pos(unit, fee_den);
        lemma_div_nonincreasing(unit, fee_den);
    }
}

/// Every pricing total is monotone in the number of pixels priced.
pub proof fn lemma_draw_price_monotone(pool: int, coef_den: int, fee_den: int, m: nat, n: nat)
    requires
        pool >= 0,
        coef_den >= 1,
        fee_den >= 1,
        m <= n,
    ensures
        spec_draw_price(pool, coef_den, fee_den, m).0 <= spec_draw_price(
            pool,
            coef_den,
            fee_den,
            n,
        ).0,
        spec_draw_price(pool, coef_den, fee_den, m).1 <= spec_draw_price(
            pool,
            coef_den,
            fee_den,
            n,
        ).1,
        spec_draw_price(pool, coef_den, fee_den, m).2 <= spec_draw_price(
            pool,
            coef_den,
            fee_den,
            n,
        ).2,
    decreases n - m,
{
    if m < n {
        lemma_draw_price_monotone(pool, coef_den, fee_den, m, (n - 1) as nat);
        lemma_draw_price_props(pool, coef_den, fee_den, (n - 1) as nat);
        let prev = spec_draw_price(pool, coef_den, fee_den, (n - 1) as nat);
        let unit = prev.2 / coef_den;
        lemma_div_pos_is_pos(prev.2, coef_den);
        lemma_div_pos_is_pos(unit, fee_den);
        lemma_div_nonincreasing(unit, fee_den);
    }
}

/// Pixels the claimer took back from itself: the lost count recorded for
/// the claimer's own index, zero when there is none.
pub open spec fn spec_replaced(owners: Seq<(AccountIndex, u32)>, caller: AccountIndex) -> u32
    decreases owners.len(),
{
    if owners.len() == 0 {
        0
    } else if owners.last().0 == caller {
        owners.last().1
    } else {
        spec_replaced(owners.drop_last(), caller)
    }
}

/// The self-overlap count is bounded by any bound on the caller entries.
pub proof fn lemma_replaced_bound(owners: Seq<(AccountIndex, u32)>, caller: AccountIndex, bound: u32)
    requires
        forall|m: int|
            0 <= m < owners.len() ==> ((#[trigger] owners[m]).0 == caller ==> owners[m].1
                <= bound),
    ensures
        spec_replaced(owners, caller) <= bound,
    decreases owners.len(),
{
    if owners.len() > 0 {
        lemma_replaced_bound(owners.drop_last(), caller, bound);
    }
}

/// The reply of the grid collaborator is shaped as the claim contract
/// assumes: former-owner indices are distinct, and every entry other than
/// the claimer's own names an allocated account that owns at least the
/// pixels it lost.
pub open spec fn owners_ok(
    s: Seq<Account>,
    owners: Seq<(AccountIndex, u32)>,
    caller: AccountIndex,
) -> bool {
    &&& forall|m1: int, m2: int|
        0 <= m1 < m2 < owners.len() ==> owners[m1].0 != owners[m2].0
    &&& forall|m: int|
        0 <= m < owners.len() ==> ((#[trigger] owners[m]).0 == caller || ((owners[m].0 as int)
            < s.len() && owners[m].1 <= s[owners[m].0 as int].num_pixels))
}

/// A former owner's record after reconciliation: accrued against the
/// accumulator, then docked the pixels it lost.
pub open spec fn spec_settled(a: Account, acc: FarmRatio, lost: u32) -> Account {
    Account { num_pixels: (a.num_pixels - lost) as u32, ..spec_touched(a, acc) }
}

/// The ledger records after settling the first `k` former-owner entries:
/// each non-claimer entry is accrued and docked, one ledger round-trip per
/// entry; entries naming the claimer are skipped.
pub open spec fn spec_reconcile(
    s: Seq<Account>,
    owners: Seq<(AccountIndex, u32)>,
    caller: AccountIndex,
    acc: FarmRatio,
    k: int,
) -> Seq<Account>
    decreases k,
{
    if k <= 0 {
        s
    } else {
        let prev = spec_reconcile(s, owners, caller, acc, k - 1);
        let e = owners[k - 1];
        if e.0 == caller {
            prev
        } else {
            prev.update(e.0 as int, spec_settled(s[e.0 as int], acc, e.1))
        }
    }
}

/// `j` is the index of a non-claimer entry among the first `k`.
pub open spec fn listed_noncaller(
    owners: Seq<(AccountIndex, u32)>,
    caller: AccountIndex,
    k: int,
    j: int,
) -> bool {
    exists|m: int| 0 <= m < k && (#[trigger] owners[m]).0 != caller && owners[m].0 == j
}

/// Reward accrued to the former owners named by the first `k` entries.
pub open spec fn listed_pending(
    s: Seq<Account>,
    owners: Seq<(AccountIndex, u32)>,
    caller: AccountIndex,
    acc: FarmRatio,
    k: int,
) -> int
    decreases k,
{
    if k <= 0 {
        0
    } else {
        listed_pending(s, owners, caller, acc, k - 1) + (if owners[k - 1].0 == caller {
            0
        } else {
            pending_reward(s[owners[k - 1].0 as int], acc)
        })
    }
}

/// The partial former-owner accrual totals are non-negative and bounded by
/// the full total.
pub proof fn lemma_listed_pending_props(
    s: Seq<Account>,
    owners: Seq<(AccountIndex, u32)>,
    caller: AccountIndex,
    acc: FarmRatio,
    k: int,
)
    requires
        0 <= k <= owners.len(),
        owners_ok(s, owners, caller),
        forall|i: int| 0 <= i < s.len() ==> accrual_fits(#[trigger] s[i], acc),
    ensures
        0 <= listed_pending(s, owners, caller, acc, k) <= listed_pending(
            s,
            owners,
            caller,
            acc,
            owners.len() as int,
        ),
    decreases owners.len() - k,
{
    lemma_listed_pending_nonneg(s, owners, caller, acc, k);
    if k < owners.len() {
        lemma_listed_pending_props(s, owners, caller, acc, k + 1);
        let e = owners[k];
        if e.0 != caller {
            lemma_mul_nonnegative(
                acc - s[e.0 as int].last_ft_farmed_per_pixel,
                s[e.0 as int].num_pixels as int,
            );
        }
    }
}

/// The former-owner accrual totals are non-negative.
pub proof fn lemma_listed_pending_nonneg(
    s: Seq<Account>,
    owners: Seq<(AccountIndex, u32)>,
    caller: AccountIndex,
    acc: FarmRatio,
    k: int,
)
    requires
        0 <= k <= owners.len(),
        owners_ok(s, owners, caller),
        forall|i: int| 0 <= i < s.len() ==> accrual_fits(#[trigger] s[i], acc),
    ensures
        0 <= listed_pending(s, owners, caller, acc, k),
    decreases k,
{
    if k > 0 {
        lemma_listed_pending_nonneg(s, owners, caller, acc, k - 1);
        let e = owners[k - 1];
        if e.0 != caller {
            lemma_mul_nonnegative(
                acc - s[e.0 as int].last_ft_farmed_per_pixel,
                s[e.0 as int].num_pixels as int,
            );
        }
    }
}

/// Settling former owners moves no credit and no shares: each settled
/// record keeps its identity, index and share balance, every unlisted
/// record is untouched, and both conserved sums stand.
pub proof fn lemma_reconcile_props(
    s: Seq<Account>,
    owners: Seq<(AccountIndex, u32)>,
    caller: AccountIndex,
    acc: FarmRatio,
    k: int,
)
    requires
        owners_ok(s, owners, caller),
        forall|i: int| 0 <= i < s.len() ==> accrual_fits(#[trigger] s[i], acc),
        0 <= k <= owners.len(),
    ensures
        ({
            let t = spec_reconcile(s, owners, caller, acc, k);
            &&& t.len() == s.len()
            &&& sum_measure(t, acc) == sum_measure(s, acc)
            &&& sum_l(t) == sum_l(s)
            &&& forall|j: int|
                0 <= j < s.len() && !listed_noncaller(owners, caller, k, j) ==> t[j] == s[j]
            &&& forall|m: int|
                0 <= m < k && (#[trigger] owners[m]).0 != caller ==> t[owners[m].0 as int]
                    == spec_settled(s[owners[m].0 as int], acc, owners[m].1)
            &&& forall|j: int|
                0 <= j < s.len() ==> (#[trigger] t[j]).account_id == s[j].account_id
                    && t[j].account_index == s[j].account_index
                    && t[j].l_balance == s[j].l_balance
                    && accrual_fits(t[j], acc)
        }),
    decreases k,
{
    if k > 0 {
        lemma_reconcile_props(s, owners, caller, acc, k - 1);
        let prev = spec_reconcile(s, owners, caller, acc, k - 1);
        let t = spec_reconcile(s, owners, caller, acc, k);
        let e = owners[k - 1];
        if e.0 == caller {
            assert forall|j: int|
                0 <= j < s.len() && !listed_noncaller(owners, caller, k, j) implies t[j] == s[j] by {
                assert(!listed_noncaller(owners, caller, k - 1, j));
            }
        } else {
            let idx = e.0 as int;
            assert(!listed_noncaller(owners, caller, k - 1, idx));
            assert(prev[idx] == s[idx]);
            let settled = spec_settled(s[idx], acc, e.1);
            lemma_measure_touched(s[idx], acc);
            lemma_pending_zero(settled, acc);
            assert(account_measure(settled, acc) == account_measure(s[idx], acc));
            lemma_sum_measure_update(prev, idx, settled, acc);
            assert(account_measure(prev[idx], acc) == account_measure(s[idx], acc));
            lemma_sum_l_update(prev, idx, settled);
            assert forall|j: int|
                0 <= j < s.len() && !listed_noncaller(owners, caller, k, j) implies t[j] == s[j] by {
                assert(!listed_noncaller(owners, caller, k - 1, j));
                assert(j != idx);
            }
            assert forall|m: int|
                0 <= m < k && (#[trigger] owners[m]).0 != caller implies t[owners[m].0 as int]
                    == spec_settled(s[owners[m].0 as int], acc, owners[m].1) by {
                if m < k - 1 {
                    assert(owners[m].0 != owners[k - 1].0);
                }
            }
        }
    }
}

/// With the policy currently in force the heartbeat only advances the
/// timestamp: the rate is zero, so the accumulator and pool stand.
pub proof fn lemma_heartbeat_effect(c: Contract, now: u64)
    ensures
        spec_heartbeat(c, now) == (Contract { last_timestamp_touched: now, ..c }),
{
    assert(0 * (TOTAL_NUM_PIXELS as u128) == 0) by (nonlinear_arith);
}

/// Updating one record changes a measure sum by the difference of the
/// element measures.
pub proof fn lemma_sum_measure_update(s: Seq<Account>, i: int, a: Account, acc: FarmRatio)
    requires
        0 <= i < s.len(),
    ensures
        sum_measure(s.update(i, a), acc) == sum_measure(s, acc) - account_measure(s[i], acc)
            + account_measure(a, acc),
    decreases s.len(),
{
    let t = s.update(i, a);
    if i == s.len() - 1 {
        assert(t.drop_last() =~= s.drop_last());
    } else {
        assert(t.drop_last() =~= s.drop_last().update(i, a));
        lemma_sum_measure_update(s.drop_last(), i, a, acc);
        assert(s.drop_last()[i] == s[i]);
    }
}

/// Appending a record adds its measure to the sum.
pub proof fn lemma_sum_measure_push(s: Seq<Account>, a: Account, acc: FarmRatio)
    ensures
        sum_measure(s.push(a), acc) == sum_measure(s, acc) + account_measure(a, acc),
{
    assert(s.push(a).drop_last() =~= s);
}

/// Updating one record changes the share-balance sum accordingly.
pub proof fn lemma_sum_l_update(s: Seq<Account>, i: int, a: Account)
    requires
        0 <= i < s.len(),
    ensures
        sum_l(s.update(i, a)) == sum_l(s) - s[i].l_balance + a.l_balance,
    decreases s.len(),
{
    let t = s.update(i, a);
    if i == s.len() - 1 {
        assert(t.drop_last() =~= s.drop_last());
    } else {
        assert(t.drop_last() =~= s.drop_last().update(i, a));
        lemma_sum_l_update(s.drop_last(), i, a);
        assert(s.drop_last()[i] == s[i]);
    }
}

/// Appending a record adds its share balance to the sum.
pub proof fn lemma_sum_l_push(s: Seq<Account>, a: Account)
    ensures
        sum_l(s.push(a)) == sum_l(s) + a.l_balance,
{
    assert(s.push(a).drop_last() =~= s);
}

/// The share-balance sum is non-negative.
pub proof fn lemma_sum_l_nonneg(s: Seq<Account>)
    ensures
        sum_l(s) >= 0,
    decreases s.len(),
{
    if s.len() > 0 {
        lemma_sum_l_nonneg(s.drop_last());
    }
}

/// Every single share balance is bounded by the share-balance sum.
pub proof fn lemma_l_balance_le_sum_l(s: Seq<Account>, i: int)
    requires
        0 <= i < s.len(),
    ensures
        s[i].l_balance <= sum_l(s),
    decreases s.len(),
{
    if i == s.len() - 1 {
        lemma_sum_l_nonneg(s.drop_last());
    } else {
        lemma_l_balance_le_sum_l(s.drop_last(), i);
        assert(s.drop_last()[i] == s[i]);
    }
}

/// Accrual moves pending reward into the balance without changing what an
/// account answers for.
pub proof fn lemma_measure_touched(a: Account, acc: FarmRatio)
    requires
        accrual_fits(a, acc),
    ensures
        account_measure(spec_touched(a, acc), acc) == account_measure(a, acc),
        pending_reward(spec_touched(a, acc), acc) == 0,
{
    assert((acc - acc) * (a.num_pixels as int) == 0) by (nonlinear_arith);
}

/// Under distinct identities, the record holding an identity is unique, so
/// `id_index` finds exactly the position it came from.
pub proof fn lemma_id_index(s: Seq<Account>, i: int)
    requires
        distinct_ids(s),
        0 <= i < s.len(),
    ensures
        has_id(s, s[i].account_id@),
        id_index(s, s[i].account_id@) == i,
{
    let id = s[i].account_id@;
    assert(has_id(s, id));
    let j = id_index(s, id);
    if j != i {
        if j < i {
            assert(s[j].account_id@ != s[i].account_id@);
        } else {
            assert(s[i].account_id@ != s[j].account_id@);
        }
    }
}

} // verus!
