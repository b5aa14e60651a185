//! Inbound credit notifications from the external fungible-token ledger,
//! and the interface the core relies on for outbound transfers.

use vstd::prelude::*;

use crate::account::{lemma_pending_zero, pending_reward, spec_resolve, spec_touched, Account};
use crate::types::{AccountId, LedgerError, TokenBalance};
use crate::{
    conserved, has_id, id_index, lemma_measure_touched, lemma_sum_l_push, lemma_sum_l_update,
    lemma_sum_measure_push, lemma_sum_measure_update, Contract, Stats,
};

verus! {

/// Instruction attached to an inbound credit transfer.
#[derive(Clone, Copy, Debug, PartialEq, Eq, Structural)]
pub enum FtMessage {
    /// Credit the transferred amount to the sender's ledger account.
    Deposit,
}

/// Interface of the external fungible-token ledger, as far as the core
/// relies on it: an outbound transfer of the credit token. The host issues
/// the call; the core only decides its recipient and amount.
pub trait FungibleTokenCore {
    /// Transfers `amount` of the credit token to `receiver_id` on the
    /// external ledger; `memo` is a free-form note.
    fn ft_transfer(&mut self, receiver_id: AccountId, amount: TokenBalance, memo: Option<String>);
}

impl Contract {
    /// Notification that `amount` of credit arrived for `sender_id`.
    /// Only the trusted external credit ledger (the configured token
    /// account, identified by `predecessor_id`) may deposit; the sender is
    /// resolved, accrued, credited and persisted, and the whole amount is
    /// accepted (the returned unused portion is zero).
    pub fn ft_on_transfer(
        &mut self,
        predecessor_id: &AccountId,
        sender_id: AccountId,
        amount: TokenBalance,
        msg: FtMessage,
    ) -> (r: Result<TokenBalance, LedgerError>)
        requires
            old(self).wf(),
            old(self).stats.ft_farmed + pending_reward(
                spec_resolve(*old(self), sender_id),
                old(self).ft_farmed_per_pixel,
            ) <= u128::MAX,
            spec_touched(
                spec_resolve(*old(self), sender_id),
                old(self).ft_farmed_per_pixel,
            ).ft_balance + amount <= u128::MAX,
            !has_id(old(self).accounts@, sender_id@) ==> old(self).accounts@.len() < u32::MAX,
        ensures
            ({
                let t = spec_touched(
                    spec_resolve(*old(self), sender_id),
                    old(self).ft_farmed_per_pixel,
                );
                match r {
                    Ok(unused) => {
                        &&& predecessor_id@ == old(self).config.ft_account_id@
                        &&& unused == 0
                        &&& final(self).accounts@ == (if has_id(old(self).accounts@, sender_id@) {
                            old(self).accounts@.update(
                                id_index(old(self).accounts@, sender_id@),
                                (Account { ft_balance: (t.ft_balance + amount) as u128, ..t }),
                            )
                        } else {
                            old(self).accounts@.push(
                                (Account { ft_balance: (t.ft_balance + amount) as u128, ..t }),
                            )
                        })
                        &&& final(self).stats == (Stats {
                            ft_farmed: (old(self).stats.ft_farmed + pending_reward(
                                spec_resolve(*old(self), sender_id),
                                old(self).ft_farmed_per_pixel,
                            )) as u128,
                            ..old(self).stats
                        })
                        &&& final(self).ft_pool == old(self).ft_pool
                        &&& final(self).l_pool == old(self).l_pool
                        &&& final(self).ft_farmed_per_pixel == old(self).ft_farmed_per_pixel
                        &&& final(self).last_timestamp_touched == old(self).last_timestamp_touched
                        &&& final(self).config == old(self).config
                        &&& final(self).wf()
                        &&& conserved(*final(self)) == conserved(*old(self)) + amount
                        &&& (old(self).backed() ==> final(self).backed())
                    },
                    Err(e) => {
                        &&& e == LedgerError::NotPermitted
                        &&& predecessor_id@ != old(self).config.ft_account_id@
                        &&& *final(self) == *old(self)
                    },
                }
            }),
    {
        if !(*predecessor_id == self.config.ft_account_id) {
            return Err(LedgerError::NotPermitted);
        }
        match msg {
            FtMessage::Deposit => {
                let ghost s0 = self.accounts@;
                let ghost acc = self.ft_farmed_per_pixel;
                let ghost resolved = spec_resolve(*self, sender_id);
                let ghost is_new = !has_id(s0, sender_id@);
                let mut account = self.resolve_account(sender_id);
                let ft_farmed = account.touch(self.ft_farmed_per_pixel);
                account.ft_balance = account.ft_balance + amount;
                if ft_farmed > 0 {
                    self.stats.ft_farmed = self.stats.ft_farmed + ft_farmed;
                }
                let ghost saved = account;
                proof {
                    lemma_pending_zero(saved, acc);
                }
                self.save_account(account);
                proof {
                    lemma_measure_touched(resolved, acc);
                    if is_new {
                        lemma_sum_measure_push(s0, saved, acc);
                        lemma_sum_l_push(s0, saved);
                        lemma_pending_zero(resolved, acc);
                    } else {
                        let i = id_index(s0, sender_id@);
                        lemma_sum_measure_update(s0, i, saved, acc);
                        lemma_sum_l_update(s0, i, saved);
                    }
                }
                Ok(0)
            },
        }
    }
}

} // verus!
