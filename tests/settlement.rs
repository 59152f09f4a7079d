use anchor_lang::solana_program::pubkey::Pubkey;
use solcast::{
    buy_share, compute_payout, create_market, get_all_markets, initialize, resolve, withdraw,
    BuyShare, CreateMarket, GetAllMarkets, Initialize, Market, OutcomeState, Principal,
    ResolveMarket, SolcastError, State, Transfer, Withdraw, AUTHORITY_SEED, MAX_SHARES,
};

fn key(b: u8) -> Principal {
    Principal::new([b; 32])
}

fn admin() -> Principal {
    key(1)
}

fn program() -> Principal {
    key(9)
}

fn fresh_state() -> State {
    let mut ctx = Initialize {
        state: State {
            admin: key(0),
            market_ids: Vec::new(),
            market_id_counter: 0,
            last_market_id: 0,
            market_addresses: Vec::new(),
        },
        admin: admin(),
    };
    assert_eq!(initialize(&mut ctx), Ok(()));
    ctx.state
}

fn new_market(ctx: &mut CreateMarket, id: &str) -> Result<Market, SolcastError> {
    create_market(
        ctx,
        id.to_string(),
        vec!["yes".to_string(), "no".to_string()],
        1_700_000_000,
        "banner".to_string(),
        "desc".to_string(),
        "title".to_string(),
        "end".to_string(),
        "start".to_string(),
        "source".to_string(),
    )
}

fn open_market(id: &str) -> Market {
    let mut ctx = CreateMarket {
        state: fresh_state(),
        admin: admin(),
        market_address: key(50),
        program_id: program(),
    };
    new_market(&mut ctx, id).unwrap()
}

fn stake(market: Market, user: Principal, option: &str, amount: u64) -> (Market, Result<Transfer, SolcastError>) {
    let mut ctx = BuyShare { market, user };
    let id = ctx.market.id.clone();
    let r = buy_share(&mut ctx, id, option.to_string(), amount);
    (ctx.market, r)
}

fn settle(market: Market, winner: &str) -> Market {
    let mut ctx = ResolveMarket { state: fresh_state(), market, admin: admin() };
    let id = ctx.market.id.clone();
    assert_eq!(resolve(&mut ctx, id, winner.to_string()), Ok(()));
    ctx.market
}

fn take(market: Market, user: Principal) -> (Market, Result<Transfer, SolcastError>) {
    let mut ctx = Withdraw { market, user };
    let id = ctx.market.id.clone();
    let r = withdraw(&mut ctx, id);
    (ctx.market, r)
}

fn alice() -> Principal {
    key(10)
}

fn bob() -> Principal {
    key(11)
}

fn alice_bob_market() -> Market {
    let m = open_market("m1");
    let (m, r) = stake(m, alice(), "yes", 600);
    assert!(r.is_ok());
    let (m, r) = stake(m, bob(), "yes", 400);
    assert!(r.is_ok());
    m
}

#[test]
fn initialize_sets_admin_and_empty_registry() {
    let s = fresh_state();
    assert_eq!(s.admin, admin());
    assert!(s.market_ids.is_empty());
    assert!(s.market_addresses.is_empty());
    assert_eq!(s.market_id_counter, 0);
    assert_eq!(s.last_market_id, 0);
}

#[test]
fn create_market_initialises_record_and_registry() {
    let mut ctx = CreateMarket {
        state: fresh_state(),
        admin: admin(),
        market_address: key(50),
        program_id: program(),
    };
    let m = new_market(&mut ctx, "m1").unwrap();
    assert_eq!(m.id, "m1");
    assert_eq!(m.option_a, "yes");
    assert_eq!(m.option_b, "no");
    assert!(!m.resolved);
    assert_eq!(m.outcome, OutcomeState::Unresolved);
    assert_eq!(m.total_value, 0);
    assert_eq!(m.total_option_a, 0);
    assert_eq!(m.total_option_b, 0);
    assert_eq!(m.num_bettors, 0);
    assert!(m.shares.is_empty());
    assert_eq!(m.end_time, 1_700_000_000);
    assert_eq!(m.title, "title");
    assert_eq!(ctx.state.market_ids, vec!["m1".to_string()]);
    assert_eq!(ctx.state.market_addresses, vec![key(50)]);
    assert_eq!(ctx.state.market_id_counter, 1);
    assert_eq!(ctx.state.last_market_id, 1);
}

#[test]
fn create_market_derives_escrow_authority_from_id() {
    let m = open_market("m1");
    let (expected, bump) = Pubkey::find_program_address(
        &[AUTHORITY_SEED.as_bytes(), b"m1"],
        &Pubkey::new_from_array(program().key),
    );
    assert_eq!(m.authority.key, expected.to_bytes());
    assert_eq!(m.authority_bump, bump);
    assert_ne!(m.authority, program());
    let other = open_market("m2");
    assert_ne!(other.authority, m.authority);
}

#[test]
fn create_market_rejects_long_id() {
    let mut ctx = CreateMarket {
        state: fresh_state(),
        admin: admin(),
        market_address: key(50),
        program_id: program(),
    };
    let long = "x".repeat(33);
    assert_eq!(new_market(&mut ctx, &long).err(), Some(SolcastError::InvalidMarketAuthority));
    assert!(ctx.state.market_ids.is_empty());
}

#[test]
fn create_market_twice_same_id_fails_and_keeps_state() {
    let mut ctx = CreateMarket {
        state: fresh_state(),
        admin: admin(),
        market_address: key(50),
        program_id: program(),
    };
    assert!(new_market(&mut ctx, "m1").is_ok());
    let ids = ctx.state.market_ids.clone();
    let addresses = ctx.state.market_addresses.clone();
    ctx.market_address = key(51);
    assert_eq!(new_market(&mut ctx, "m1").err(), Some(SolcastError::MarketIdAlreadyExists));
    assert_eq!(ctx.state.market_ids, ids);
    assert_eq!(ctx.state.market_addresses, addresses);
    assert_eq!(ctx.state.market_id_counter, 1);
    assert_eq!(ctx.state.last_market_id, 1);
}

#[test]
fn create_market_by_non_admin_is_unauthorized() {
    let mut ctx = CreateMarket {
        state: fresh_state(),
        admin: bob(),
        market_address: key(50),
        program_id: program(),
    };
    assert_eq!(new_market(&mut ctx, "m1").err(), Some(SolcastError::Unauthorized));
    assert!(ctx.state.market_ids.is_empty());
}

#[test]
fn create_market_needs_exactly_two_options() {
    let mut ctx = CreateMarket {
        state: fresh_state(),
        admin: admin(),
        market_address: key(50),
        program_id: program(),
    };
    let r = create_market(
        &mut ctx,
        "m1".to_string(),
        vec!["a".to_string(), "b".to_string(), "c".to_string()],
        0,
        String::new(),
        String::new(),
        String::new(),
        String::new(),
        String::new(),
        String::new(),
    );
    assert_eq!(r.err(), Some(SolcastError::InvalidOptionsCount));
    assert_eq!(ctx.state.market_id_counter, 0);
}

#[test]
fn payout_split_between_two_winners() {
    let m = settle(alice_bob_market(), "yes");
    assert_eq!(m.total_value, 1000);
    assert_eq!(m.total_option_a, 1000);
    assert_eq!(m.total_option_b, 0);
    let authority = m.authority;
    let (m, r) = take(m, alice());
    assert_eq!(r, Ok(Transfer { from: authority, to: alice(), amount: 570 }));
    let (_, r) = take(m, bob());
    assert_eq!(r, Ok(Transfer { from: authority, to: bob(), amount: 380 }));
}

#[test]
fn second_withdraw_fails_already_withdrawn() {
    let m = settle(alice_bob_market(), "yes");
    let (m, r) = take(m, alice());
    assert!(r.is_ok());
    assert!(m.shares.iter().any(|s| s.user == alice() && s.has_withdrawn));
    let (m2, r2) = take(m.clone(), alice());
    assert_eq!(r2, Err(SolcastError::AlreadyWithdrawn));
    assert_eq!(m2.shares.len(), m.shares.len());
    assert!(m2.shares.iter().any(|s| s.user == alice() && s.has_withdrawn));
}

#[test]
fn withdraw_from_unbacked_outcome_fails_no_winning_shares() {
    let m = alice_bob_market();
    let m = settle(m, "no");
    assert_eq!(m.outcome, OutcomeState::OptionB);
    let (_, r) = take(m.clone(), alice());
    assert_eq!(r, Err(SolcastError::NoWinningShares));
    let (_, r) = take(m, key(77));
    assert_eq!(r, Err(SolcastError::NoWinningShares));
}

#[test]
fn resolve_by_non_admin_is_unauthorized() {
    let m = alice_bob_market();
    let mut ctx = ResolveMarket { state: fresh_state(), market: m, admin: bob() };
    assert_eq!(
        resolve(&mut ctx, "m1".to_string(), "yes".to_string()),
        Err(SolcastError::Unauthorized)
    );
    assert!(!ctx.market.resolved);
    assert_eq!(ctx.market.outcome, OutcomeState::Unresolved);
}

#[test]
fn resolve_errors() {
    let mut ctx = ResolveMarket { state: fresh_state(), market: open_market("m1"), admin: admin() };
    assert_eq!(
        resolve(&mut ctx, "other".to_string(), "yes".to_string()),
        Err(SolcastError::MarketNotFound)
    );
    assert_eq!(
        resolve(&mut ctx, "m1".to_string(), "maybe".to_string()),
        Err(SolcastError::InvalidOption)
    );
    assert_eq!(resolve(&mut ctx, "m1".to_string(), "no".to_string()), Ok(()));
    assert_eq!(ctx.market.outcome, OutcomeState::OptionB);
    assert_eq!(
        resolve(&mut ctx, "m1".to_string(), "yes".to_string()),
        Err(SolcastError::MarketAlreadyResolved)
    );
    assert_eq!(ctx.market.outcome, OutcomeState::OptionB);
}

#[test]
fn repeated_stakes_merge_into_one_share() {
    let m = open_market("m1");
    let (m, r) = stake(m, alice(), "yes", 100);
    assert!(r.is_ok());
    let (m, r) = stake(m, alice(), "yes", 50);
    assert!(r.is_ok());
    assert_eq!(m.shares.len(), 1);
    assert_eq!(m.shares[0].amount, 150);
    assert_eq!(m.num_bettors, 1);
    assert_eq!(m.total_value, 150);
    assert_eq!(m.total_option_a, 150);
}

#[test]
fn staking_both_sides_counts_participant_once() {
    let m = open_market("m1");
    let (m, _) = stake(m, alice(), "yes", 100);
    let (m, _) = stake(m, alice(), "no", 30);
    assert_eq!(m.shares.len(), 2);
    assert_eq!(m.num_bettors, 1);
    let (m, _) = stake(m, bob(), "no", 20);
    assert_eq!(m.num_bettors, 2);
    assert_eq!(m.total_option_a, 100);
    assert_eq!(m.total_option_b, 50);
    assert_eq!(m.total_value, 150);
    let sum: u64 = m.shares.iter().map(|s| s.amount).sum();
    assert_eq!(sum, m.total_value);
}

#[test]
fn stake_returns_transfer_into_escrow() {
    let m = open_market("m1");
    let authority = m.authority;
    let (_, r) = stake(m, alice(), "no", 42);
    assert_eq!(r, Ok(Transfer { from: alice(), to: authority, amount: 42 }));
}

#[test]
fn stake_errors() {
    let m = open_market("m1");
    let mut ctx = BuyShare { market: m, user: alice() };
    assert_eq!(
        buy_share(&mut ctx, "zz".to_string(), "yes".to_string(), 5),
        Err(SolcastError::MarketNotFound)
    );
    assert_eq!(
        buy_share(&mut ctx, "m1".to_string(), "maybe".to_string(), 5),
        Err(SolcastError::InvalidOption)
    );
    assert_eq!(
        buy_share(&mut ctx, "m1".to_string(), "yes".to_string(), 0),
        Err(SolcastError::ZeroAmount)
    );
    assert!(buy_share(&mut ctx, "m1".to_string(), "yes".to_string(), u64::MAX).is_ok());
    assert_eq!(
        buy_share(&mut ctx, "m1".to_string(), "no".to_string(), 1),
        Err(SolcastError::ArithmeticOverflow)
    );
    assert_eq!(ctx.market.total_value, u64::MAX);
    assert_eq!(ctx.market.shares.len(), 1);
    let m = settle(ctx.market, "yes");
    let (_, r) = stake(m, bob(), "yes", 1);
    assert_eq!(r, Err(SolcastError::MarketAlreadyResolved));
}

#[test]
fn stake_ledger_is_bounded() {
    let mut m = open_market("m1");
    for i in 0..MAX_SHARES {
        let (next, r) = stake(m, Principal::new([i as u8; 32]), "yes", 1);
        assert!(r.is_ok());
        m = next;
    }
    assert_eq!(m.shares.len(), MAX_SHARES);
    let (m, r) = stake(m, key(200), "yes", 1);
    assert_eq!(r, Err(SolcastError::TooManyParticipants));
    let (m, r) = stake(m, key(5), "yes", 1);
    assert!(r.is_ok());
    assert_eq!(m.shares.len(), MAX_SHARES);
}

#[test]
fn withdraw_errors() {
    let m = alice_bob_market();
    let (m, r) = take(m, alice());
    assert_eq!(r, Err(SolcastError::MarketNotResolved));
    let m = settle(m, "yes");
    let mut ctx = Withdraw { market: m.clone(), user: alice() };
    assert_eq!(withdraw(&mut ctx, "zz".to_string()), Err(SolcastError::MarketNotFound));
    let (_, r) = take(m, key(77));
    assert_eq!(r, Err(SolcastError::NoWinningShares));
}

#[test]
fn losers_and_winners_on_both_sides() {
    let m = open_market("m1");
    let (m, _) = stake(m, alice(), "yes", 300);
    let (m, _) = stake(m, bob(), "no", 700);
    let (m, _) = stake(m, key(12), "yes", 100);
    let m = settle(m, "yes");
    let (m, r) = take(m, alice());
    assert_eq!(r.unwrap().amount, 783);
    let (m, r) = take(m, key(12));
    assert_eq!(r.unwrap().amount, 261);
    let (_, r) = take(m, bob());
    assert_eq!(r, Err(SolcastError::NoWinningShares));
}

#[test]
fn payout_formula_values() {
    assert_eq!(compute_payout(1000, 600, 1000), Ok(570));
    assert_eq!(compute_payout(1000, 400, 1000), Ok(380));
    assert_eq!(compute_payout(10, 1, 3), Ok(3));
    assert_eq!(compute_payout(7, 1, 1), Ok(6));
    assert_eq!(compute_payout(u64::MAX, u64::MAX, u64::MAX), Ok(17524406870024074034));
    assert_eq!(compute_payout(5, 5, 0), Err(SolcastError::NoWinningShares));
    assert_eq!(compute_payout(u64::MAX, u64::MAX, 1), Err(SolcastError::ArithmeticOverflow));
}

#[test]
fn get_all_markets_lists_in_creation_order() {
    let mut ctx = CreateMarket {
        state: fresh_state(),
        admin: admin(),
        market_address: key(50),
        program_id: program(),
    };
    new_market(&mut ctx, "a").unwrap();
    ctx.market_address = key(51);
    new_market(&mut ctx, "b").unwrap();
    let list = get_all_markets(&GetAllMarkets { state: ctx.state }).unwrap();
    assert_eq!(list.len(), 2);
    assert_eq!(list[0].id, "a");
    assert_eq!(list[0].address, key(50));
    assert_eq!(list[1].id, "b");
    assert_eq!(list[1].address, key(51));
}

#[test]
fn principal_equality_compares_keys() {
    assert!(key(3).same(&key(3)));
    let mut k = [3u8; 32];
    k[31] = 4;
    assert!(!key(3).same(&Principal::new(k)));
    assert_ne!(key(3), Principal::new(k));
}

#[test]
fn well_formedness_checks() {
    let m = alice_bob_market();
    assert!(m.is_well_formed());
    let mut bad = m.clone();
    bad.total_value = 999;
    assert!(!bad.is_well_formed());
    let mut bad = m.clone();
    bad.num_bettors = 1;
    assert!(!bad.is_well_formed());
    let mut bad = m.clone();
    bad.shares[1].user = alice();
    assert!(!bad.is_well_formed());
    let s = fresh_state();
    assert!(s.is_well_formed());
    let mut dup = s.clone();
    dup.market_ids = vec!["a".to_string(), "a".to_string()];
    dup.market_addresses = vec![key(1), key(2)];
    dup.market_id_counter = 2;
    dup.last_market_id = 2;
    assert!(!dup.is_well_formed());
    dup.market_ids[1] = "b".to_string();
    assert!(dup.is_well_formed());
}
