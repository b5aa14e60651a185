use wonderland::account::{Account, HumanAccount, UpgradableAccount};
use wonderland::fungible_token::FtMessage;
use wonderland::types::LedgerError;
use wonderland::types::{MIN_FT_POOL, TOTAL_NUM_PIXELS};
use wonderland::{Contract, ContractConfig};

fn test_config() -> ContractConfig {
    ContractConfig {
        ft_account_id: "token".to_string(),
        app_owner_id: "app".to_string(),
        app_liquidity_denominator: 100,
        pixel_coef_denominator: 1000,
        draw_fee_denominator: 10,
    }
}

fn fresh() -> Contract {
    Contract::new(test_config(), 7)
}

fn deposit(c: &mut Contract, who: &str, amount: u128) {
    let r = c.ft_on_transfer(
        &"token".to_string(),
        who.to_string(),
        amount,
        FtMessage::Deposit,
    );
    assert_eq!(r, Ok(0));
}

#[test]
fn init_allocates_app_account_with_whole_board() {
    let c = fresh();
    assert_eq!(c.get_num_accounts(), 1);
    assert!(c.account_exists(&"app".to_string()));
    let app = c.get_account_by_index(0).unwrap();
    assert_eq!(app.account_id, "app".to_string());
    assert_eq!(app.account_index, 0);
    assert_eq!(app.ft_balance, 0);
    assert_eq!(app.l_balance, 0);
    assert_eq!(app.num_pixels, TOTAL_NUM_PIXELS);
    assert_eq!(c.ft_pool, 0);
    assert_eq!(c.l_pool, 0);
    assert_eq!(c.last_timestamp_touched, 7);
}

#[test]
fn deposit_credits_the_sender() {
    let mut c = fresh();
    deposit(&mut c, "alice", 500);
    let alice = c.get_account(&"alice".to_string()).unwrap();
    assert_eq!(alice.ft_balance, 500);
    assert_eq!(alice.account_index, 1);
    assert_eq!(c.get_num_accounts(), 2);
}

#[test]
fn deposit_from_untrusted_caller_is_rejected() {
    let mut c = fresh();
    let r = c.ft_on_transfer(
        &"mallory".to_string(),
        "alice".to_string(),
        500,
        FtMessage::Deposit,
    );
    assert_eq!(r, Err(LedgerError::NotPermitted));
    assert!(!c.account_exists(&"alice".to_string()));
}

#[test]
fn withdraw_rejects_overdraft_and_pays_out_exactly() {
    let mut c = fresh();
    deposit(&mut c, "alice", 500);
    let r = c.withdraw_ft("alice".to_string(), Some(600));
    assert_eq!(r, Err(LedgerError::InsufficientBalance));
    assert_eq!(c.get_account(&"alice".to_string()).unwrap().ft_balance, 500);

    let r = c.withdraw_ft("alice".to_string(), Some(200));
    assert_eq!(r, Ok(200));
    assert_eq!(c.get_account(&"alice".to_string()).unwrap().ft_balance, 300);

    let r = c.withdraw_ft("alice".to_string(), None);
    assert_eq!(r, Ok(300));
    assert_eq!(c.get_account(&"alice".to_string()).unwrap().ft_balance, 0);
}

#[test]
fn accrual_is_idempotent() {
    let mut a = Account::new("bob".to_string(), 1, 0);
    a.num_pixels = 10;
    let first = a.touch(7);
    assert_eq!(first, 70);
    assert_eq!(a.ft_balance, 70);
    assert_eq!(a.last_ft_farmed_per_pixel, 7);
    let second = a.touch(7);
    assert_eq!(second, 0);
    assert_eq!(a.ft_balance, 70);
}

#[test]
fn charge_fails_atomically_on_insufficient_balance() {
    let mut a = Account::new("bob".to_string(), 1, 0);
    a.ft_balance = 40;
    assert_eq!(a.charge(41), Err(LedgerError::InsufficientBalance));
    assert_eq!(a.ft_balance, 40);
    assert_eq!(a.charge(15), Ok(()));
    assert_eq!(a.ft_balance, 25);
}

#[test]
fn draw_prices_sequentially_against_the_running_pool() {
    let mut c = fresh();
    c.ft_pool = 1_000_000;
    deposit(&mut c, "alice", 10_000);
    let r = c.draw("alice".to_string(), 2, vec![(0, 2)]);
    assert_eq!(r, Ok(()));
    // First pixel: price 1000, fee 100, pool 1_000_900.
    // Second pixel: price 1000, fee 100, pool 1_001_800.
    assert_eq!(c.ft_pool, 1_001_800);
    assert_eq!(c.stats.ft_draw_spent, 2000);
    assert_eq!(c.stats.ft_draw_fee, 200);
    let alice = c.get_account(&"alice".to_string()).unwrap();
    assert_eq!(alice.ft_balance, 8_000);
    assert_eq!(alice.num_pixels, 2);
    let app = c.get_account_by_index(0).unwrap();
    assert_eq!(app.num_pixels, TOTAL_NUM_PIXELS - 2);
}

#[test]
fn draw_with_empty_request_changes_nothing() {
    let mut c = fresh();
    deposit(&mut c, "alice", 1000);
    let r = c.draw("alice".to_string(), 0, vec![]);
    assert_eq!(r, Ok(()));
    assert_eq!(c.get_account(&"alice".to_string()).unwrap().ft_balance, 1000);
    assert_eq!(c.stats.ft_draw_spent, 0);
}

#[test]
fn draw_rejects_whole_claim_on_insufficient_balance() {
    let mut c = fresh();
    c.ft_pool = 1_000_000;
    deposit(&mut c, "alice", 500);
    let r = c.draw("alice".to_string(), 1, vec![(0, 1)]);
    assert_eq!(r, Err(LedgerError::InsufficientBalance));
    assert_eq!(c.ft_pool, 1_000_000);
    assert_eq!(c.get_account(&"alice".to_string()).unwrap().ft_balance, 500);
    assert_eq!(c.get_account_by_index(0).unwrap().num_pixels, TOTAL_NUM_PIXELS);
}

#[test]
fn former_owner_loses_exactly_the_returned_count() {
    let mut c = fresh();
    deposit(&mut c, "alice", 1000);
    // Pool is empty, so three pixels cost nothing; the grid reports the
    // application account lost all three.
    let r = c.draw("alice".to_string(), 3, vec![(0, 3)]);
    assert_eq!(r, Ok(()));
    assert_eq!(c.get_account_by_index(0).unwrap().num_pixels, TOTAL_NUM_PIXELS - 3);
    assert_eq!(c.get_account(&"alice".to_string()).unwrap().num_pixels, 3);
}

#[test]
fn self_claim_adds_only_newly_taken_pixels() {
    let mut c = fresh();
    deposit(&mut c, "alice", 1000);
    let r = c.draw("alice".to_string(), 3, vec![(0, 3)]);
    assert_eq!(r, Ok(()));
    // Alice re-claims two pixels she already owns: her own index appears as
    // a former owner, so the net pixel change is zero.
    let r = c.draw("alice".to_string(), 2, vec![(1, 2)]);
    assert_eq!(r, Ok(()));
    assert_eq!(c.get_account(&"alice".to_string()).unwrap().num_pixels, 3);
    assert_eq!(c.get_account_by_index(0).unwrap().num_pixels, TOTAL_NUM_PIXELS - 3);
}

#[test]
fn add_liquidity_bootstraps_one_to_one_and_cuts_protocol_share() {
    let mut c = fresh();
    deposit(&mut c, "alice", 3 * MIN_FT_POOL);
    let r = c.add_liquidity("alice".to_string(), 10, 2 * MIN_FT_POOL, 0);
    assert_eq!(r, Ok(()));
    assert_eq!(c.ft_pool, 2 * MIN_FT_POOL);
    assert_eq!(c.l_pool, 2 * MIN_FT_POOL);
    let cut = 2 * MIN_FT_POOL / 100;
    let alice = c.get_account(&"alice".to_string()).unwrap();
    assert_eq!(alice.ft_balance, MIN_FT_POOL);
    assert_eq!(alice.l_balance, 2 * MIN_FT_POOL - cut);
    let app = c.get_account_by_index(0).unwrap();
    assert_eq!(app.l_balance, cut);
    assert_eq!(c.last_timestamp_touched, 10);
}

#[test]
fn liquidity_round_trip_never_yields_more_than_paid() {
    let mut c = fresh();
    deposit(&mut c, "alice", 3 * MIN_FT_POOL);
    assert_eq!(c.add_liquidity("alice".to_string(), 10, 2 * MIN_FT_POOL, 0), Ok(()));
    let burn = 9 * (MIN_FT_POOL / 10);
    let before = c.get_account(&"alice".to_string()).unwrap();
    assert_eq!(c.remove_liquidity("alice".to_string(), 11, burn, 0), Ok(()));
    let after = c.get_account(&"alice".to_string()).unwrap();
    let redeemed = after.ft_balance - before.ft_balance;
    // Rate is one-to-one here, and never better than what was paid in.
    assert_eq!(redeemed, burn);
    assert!(redeemed <= 2 * MIN_FT_POOL);
    assert_eq!(c.ft_pool, 2 * MIN_FT_POOL - burn);
    assert_eq!(c.l_pool, 2 * MIN_FT_POOL - burn);
}

#[test]
fn add_liquidity_error_paths() {
    let mut c = fresh();
    deposit(&mut c, "app", 3 * MIN_FT_POOL);
    assert_eq!(
        c.add_liquidity("app".to_string(), 10, MIN_FT_POOL, 0),
        Err(LedgerError::NotPermitted)
    );
    deposit(&mut c, "alice", 3 * MIN_FT_POOL);
    assert_eq!(
        c.add_liquidity("alice".to_string(), 10, 4 * MIN_FT_POOL, 0),
        Err(LedgerError::InsufficientBalance)
    );
    assert_eq!(
        c.add_liquidity("alice".to_string(), 10, 100, 0),
        Err(LedgerError::PoolBelowFloor)
    );
    assert_eq!(
        c.add_liquidity("alice".to_string(), 10, 2 * MIN_FT_POOL, 3 * MIN_FT_POOL),
        Err(LedgerError::SlippageExceeded)
    );
    // None of the failures moved anything.
    assert_eq!(c.ft_pool, 0);
    assert_eq!(c.l_pool, 0);
    assert_eq!(c.get_account(&"alice".to_string()).unwrap().ft_balance, 3 * MIN_FT_POOL);
}

#[test]
fn remove_liquidity_error_paths() {
    let mut c = fresh();
    deposit(&mut c, "alice", 3 * MIN_FT_POOL);
    assert_eq!(
        c.remove_liquidity("app".to_string(), 10, 1, 0),
        Err(LedgerError::NotPermitted)
    );
    assert_eq!(
        c.remove_liquidity("alice".to_string(), 10, 5, 0),
        Err(LedgerError::InsufficientBalance)
    );
    assert_eq!(c.add_liquidity("alice".to_string(), 10, 2 * MIN_FT_POOL, 0), Ok(()));
    // Burning this much would leave the pool under its floor.
    let alice_l = c.get_account(&"alice".to_string()).unwrap().l_balance;
    assert_eq!(
        c.remove_liquidity("alice".to_string(), 11, alice_l, 0),
        Err(LedgerError::PoolBelowFloor)
    );
    // Slippage guard above the actual payout.
    assert_eq!(
        c.remove_liquidity("alice".to_string(), 11, MIN_FT_POOL / 2, MIN_FT_POOL),
        Err(LedgerError::SlippageExceeded)
    );
    assert_eq!(c.ft_pool, 2 * MIN_FT_POOL);
    assert_eq!(c.l_pool, 2 * MIN_FT_POOL);
}

#[test]
fn pool_below_floor_found_before_quoting_a_burn_rate() {
    let mut c = fresh();
    deposit(&mut c, "alice", 10);
    // Hand-built state: shares outstanding while the credit pool sits
    // under its floor, so no burn rate can be quoted.
    c.l_pool = 5;
    c.accounts[1].l_balance = 5;
    assert_eq!(
        c.remove_liquidity("alice".to_string(), 10, 5, 0),
        Err(LedgerError::PoolBelowFloor)
    );
    assert_eq!(c.get_account(&"alice".to_string()).unwrap().l_balance, 5);
}

#[test]
fn rate_conversions_use_widened_arithmetic() {
    let mut c = fresh();
    c.ft_pool = MIN_FT_POOL;
    c.l_pool = 1_000_000_000_000_000_000_000_000_000_000; // 10^30
    // 10^15 * 10^30 overflows 128 bits; the widened path must still give
    // the exact quotient.
    assert_eq!(
        c.internal_l_from_ft(1_000_000_000_000_000),
        1_000_000_000_000_000_000_000_000_000 // 10^27
    );
    assert_eq!(
        c.internal_ft_from_l(1_000_000_000_000_000_000_000_000_000),
        1_000_000_000_000_000
    );
}

#[test]
fn bootstrap_mint_is_one_to_one_under_the_floor() {
    let c = fresh();
    assert_eq!(c.internal_l_from_ft(123_456), 123_456);
}

#[test]
fn credit_is_conserved_across_a_session() {
    let mut c = fresh();
    deposit(&mut c, "alice", 3 * MIN_FT_POOL);
    deposit(&mut c, "bob", MIN_FT_POOL / 100);
    assert_eq!(c.add_liquidity("alice".to_string(), 10, 2 * MIN_FT_POOL, 0), Ok(()));
    assert_eq!(c.draw("bob".to_string(), 2, vec![(0, 2)]), Ok(()));
    assert_eq!(c.withdraw_ft("bob".to_string(), Some(1000)), Ok(1000));
    c.touch(99);

    let inflow = 3 * MIN_FT_POOL + MIN_FT_POOL / 100;
    let outflow = 1000u128;
    let mut balances = 0u128;
    for i in 0..c.get_num_accounts() {
        balances += c.get_account_by_index(i).unwrap().ft_balance;
    }
    assert_eq!(
        balances + c.ft_pool + c.stats.ft_draw_fee,
        inflow - outflow
    );
}

#[test]
fn heartbeat_advances_only_the_timestamp_under_current_policy() {
    let mut c = fresh();
    deposit(&mut c, "alice", 3 * MIN_FT_POOL);
    assert_eq!(c.add_liquidity("alice".to_string(), 10, 2 * MIN_FT_POOL, 0), Ok(()));
    let pool = c.ft_pool;
    let acc = c.ft_farmed_per_pixel;
    c.touch(1234);
    assert_eq!(c.last_timestamp_touched, 1234);
    assert_eq!(c.ft_pool, pool);
    assert_eq!(c.ft_farmed_per_pixel, acc);
}

#[test]
fn register_account_assigns_dense_indices_once() {
    let mut c = fresh();
    c.register_account("alice".to_string());
    c.register_account("bob".to_string());
    c.register_account("alice".to_string());
    assert_eq!(c.get_num_accounts(), 3);
    assert_eq!(c.get_account(&"alice".to_string()).unwrap().account_index, 1);
    assert_eq!(c.get_account(&"bob".to_string()).unwrap().account_index, 2);
}

#[test]
fn persistence_envelope_round_trip() {
    let mut a = Account::new("carol".to_string(), 3, 9);
    a.ft_balance = 17;
    let wrapped = UpgradableAccount::from(a);
    let back = Account::from(wrapped);
    assert_eq!(back.account_id, "carol".to_string());
    assert_eq!(back.account_index, 3);
    assert_eq!(back.last_ft_farmed_per_pixel, 9);
    assert_eq!(back.ft_balance, 17);
    let human = HumanAccount::from(back);
    assert_eq!(human.account_id, "carol".to_string());
    assert_eq!(human.ft_balance, 17);
    assert_eq!(human.num_pixels, 0);
}

#[test]
fn lookups_miss_cleanly() {
    let c = fresh();
    assert!(c.get_account(&"nobody".to_string()).is_none());
    assert!(c.get_account_by_index(5).is_none());
    assert!(!c.account_exists(&"nobody".to_string()));
}
