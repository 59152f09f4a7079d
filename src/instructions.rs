use vstd::prelude::*;

use crate::authority::{find_program_address, program_address_of, AUTHORITY_SEED};
use crate::errors::SolcastError;
use crate::market::{
    find_share, holds_share, is_participant, is_share_of, lemma_participants_push,
    lemma_participants_update, lemma_share_index_unique, lemma_share_within_side,
    lemma_stake_push, lemma_stake_update, participants, share_index, share_paid,
    share_topped_up, withdrawals_kept, Market, OutcomeState, Share, MAX_SHARES,
};
use crate::registry::{MarketInfo, State};
use crate::payout::{compute_payout, lemma_payout_within_pool, payout_spec};
use crate::principal::Principal;

verus! {

/// A movement of value that an operation asks the custody layer to make:
/// `amount` from `from` to `to`. Outgoing transfers from escrow are signed
/// by the market's derived authority.
#[derive(Clone, Copy, Debug, PartialEq, Eq)]
pub struct Transfer {
    pub from: Principal,
    pub to: Principal,
    pub amount: u64,
}

/// The records the one-time set-up writes, and who asks for it.
#[derive(Clone, Debug)]
pub struct Initialize {
    pub state: State,
    pub admin: Principal,
}

/// The records a market's creation reads and writes: the registry, the
/// caller, the location of the new market's record and the program under
/// which its escrow authority is derived.
#[derive(Clone, Debug)]
pub struct CreateMarket {
    pub state: State,
    pub admin: Principal,
    pub market_address: Principal,
    pub program_id: Principal,
}

/// The records a stake reads and writes, and who stakes.
#[derive(Clone, Debug)]
pub struct BuyShare {
    pub market: Market,
    pub user: Principal,
}

/// The records a resolution reads and writes, and who asks for it.
#[derive(Clone, Debug)]
pub struct ResolveMarket {
    pub state: State,
    pub market: Market,
    pub admin: Principal,
}

/// The registry that the listing of markets reads.
#[derive(Clone, Debug)]
pub struct GetAllMarkets {
    pub state: State,
}

/// Sets up the registry: the caller becomes the administrator and no market
/// is registered.
pub fn initialize(ctx: &mut Initialize) -> (r: Result<(), SolcastError>)
    ensures
        r is Ok,
        final(ctx).state.wf(),
        final(ctx).state.admin == old(ctx).admin,
        final(ctx).state.ids() == Seq::<Seq<char>>::empty(),
        final(ctx).state.addresses() == Seq::<Seq<u8>>::empty(),
        final(ctx).state.market_id_counter == 0,
        final(ctx).admin == old(ctx).admin,
{
    ctx.state.admin = ctx.admin;
    ctx.state.market_ids = Vec::new();
    ctx.state.market_id_counter = 0;
    ctx.state.last_market_id = 0;
    ctx.state.market_addresses = Vec::new();
    proof {
        assert(ctx.state.ids() =~= Seq::<Seq<char>>::empty());
        assert(ctx.state.addresses() =~= Seq::<Seq<u8>>::empty());
    }
    Ok(())
}

/// Why `caller` cannot create a market under `id` with `n_options` options
/// in the registry `state`, if they can't.
pub open spec fn create_market_error(
    state: State,
    caller: Seq<u8>,
    id: Seq<char>,
    n_options: int,
    program: Seq<u8>,
) -> Option<SolcastError> {
    if caller != state.admin@ {
        Some(SolcastError::Unauthorized)
    } else if state.ids().contains(id) {
        Some(SolcastError::MarketIdAlreadyExists)
    } else if n_options != 2 {
        Some(SolcastError::InvalidOptionsCount)
    } else if state.market_id_counter == u64::MAX {
        Some(SolcastError::ArithmeticOverflow)
    } else if program_address_of(AUTHORITY_SEED@, id, program) is None {
        Some(SolcastError::InvalidMarketAuthority)
    } else {
        None
    }
}

/// Creates an open market under `id` with the two `options`, registers it,
/// and returns its record, with its escrow authority derived from `id`.
pub fn create_market(
    ctx: &mut CreateMarket,
    id: String,
    options: Vec<String>,
    end_time: i64,
    banner_url: String,
    description: String,
    title: String,
    end_time_string: String,
    start_time_string: String,
    resolution_source: String,
) -> (r: Result<Market, SolcastError>)
    requires
        old(ctx).state.wf(),
    ensures
        final(ctx).state.wf(),
        match create_market_error(
            old(ctx).state,
            old(ctx).admin@,
            id@,
            options@.len() as int,
            old(ctx).program_id@,
        ) {
            Some(e) => r == Err::<Market, SolcastError>(e) && *final(ctx) == *old(ctx),
            None => r matches Ok(m) && {
                &&& m.wf()
                &&& m.id == id
                &&& m.option_a == options@[0]
                &&& m.option_b == options@[1]
                &&& !m.resolved
                &&& m.outcome == OutcomeState::Unresolved
                &&& m.end_time == end_time
                &&& m.total_value == 0
                &&& m.total_option_a == 0
                &&& m.total_option_b == 0
                &&& m.num_bettors == 0
                &&& m.shares@.len() == 0
                &&& m.banner_url == banner_url
                &&& m.description == description
                &&& m.title == title
                &&& m.end_time_string == end_time_string
                &&& m.start_time_string == start_time_string
                &&& m.resolution_source == resolution_source
                &&& program_address_of(AUTHORITY_SEED@, id@, old(ctx).program_id@) == Some(
                    (m.authority@, m.authority_bump),
                )
                &&& final(ctx).state.admin == old(ctx).state.admin
                &&& final(ctx).state.ids() == old(ctx).state.ids().push(id@)
                &&& final(ctx).state.addresses() == old(ctx).state.addresses().push(
                    old(ctx).market_address@,
                )
                &&& final(ctx).state.market_id_counter == old(ctx).state.market_id_counter + 1
                &&& final(ctx).admin == old(ctx).admin
                &&& final(ctx).market_address == old(ctx).market_address
                &&& final(ctx).program_id == old(ctx).program_id
            },
        },
{
    if !ctx.admin.same(&ctx.state.admin) {
        return Err(SolcastError::Unauthorized);
    }
    if ctx.state.is_registered(&id) {
        return Err(SolcastError::MarketIdAlreadyExists);
    }
    if options.len() != 2 {
        return Err(SolcastError::InvalidOptionsCount);
    }
    if ctx.state.market_id_counter == u64::MAX {
        return Err(SolcastError::ArithmeticOverflow);
    }
    let (authority, authority_bump) = match find_program_address(
        AUTHORITY_SEED,
        &id,
        &ctx.program_id,
    ) {
        Some(found) => found,
        None => {
            return Err(SolcastError::InvalidMarketAuthority);
        },
    };
    let ghost old_state = ctx.state;
    ctx.state.market_id_counter = ctx.state.market_id_counter + 1;
    ctx.state.last_market_id = ctx.state.market_id_counter;
    ctx.state.market_ids.push(id.clone());
    ctx.state.market_addresses.push(ctx.market_address);
    proof {
        assert(ctx.state.ids() =~= old_state.ids().push(id@));
        assert(ctx.state.addresses() =~= old_state.addresses().push(ctx.market_address@));
        assert forall|i: int, j: int|
            0 <= i < ctx.state.ids().len() && 0 <= j < ctx.state.ids().len() && i != j implies
                ctx.state.ids()[i] != ctx.state.ids()[j] by {
            if i == old_state.ids().len() {
                assert(old_state.ids()[j] == ctx.state.ids()[j]);
            } else if j == old_state.ids().len() {
                assert(old_state.ids()[i] == ctx.state.ids()[i]);
            }
        }
    }
    let option_a = options[0].clone();
    let option_b = options[1].clone();
    let market = Market {
        id,
        option_a,
        option_b,
        resolved: false,
        outcome: OutcomeState::Unresolved,
        end_time,
        total_value: 0,
        num_bettors: 0,
        banner_url,
        description,
        title,
        end_time_string,
        start_time_string,
        resolution_source,
        total_option_a: 0,
        total_option_b: 0,
        authority,
        authority_bump,
        shares: Vec::new(),
    };
    proof {
        assert(market.shares@ =~= Seq::<Share>::empty());
        assert(participants(market.shares@) =~= Set::<Seq<u8>>::empty());
    }
    Ok(market)
}

/// Why `user` cannot stake `amount` on `option` in market `m` addressed as
/// `market_id`, if they can't.
pub open spec fn buy_share_error(
    m: Market,
    user: Seq<u8>,
    market_id: Seq<char>,
    option: Seq<char>,
    amount: u64,
) -> Option<SolcastError> {
    if m.id@ != market_id {
        Some(SolcastError::MarketNotFound)
    } else if m.resolved {
        Some(SolcastError::MarketAlreadyResolved)
    } else if option != m.option_a@ && option != m.option_b@ {
        Some(SolcastError::InvalidOption)
    } else if amount == 0 {
        Some(SolcastError::ZeroAmount)
    } else if m.total_value + amount > u64::MAX {
        Some(SolcastError::ArithmeticOverflow)
    } else if !holds_share(m.shares@, user, option) && m.shares@.len() >= MAX_SHARES {
        Some(SolcastError::TooManyParticipants)
    } else {
        None
    }
}

/// Stakes `amount` of the caller's value on `option`: adds it to the pool
/// and to the option's side, and to the caller's share on that option,
/// opened if they had none. Returns the transfer into escrow that pays for
/// the stake.
pub fn buy_share(ctx: &mut BuyShare, market_id: String, option: String, amount: u64) -> (r: Result<
    Transfer,
    SolcastError,
>)
    requires
        old(ctx).market.wf(),
    ensures
        final(ctx).market.wf(),
        withdrawals_kept(old(ctx).market.shares@, final(ctx).market.shares@),
        match buy_share_error(old(ctx).market, old(ctx).user@, market_id@, option@, amount) {
            Some(e) => r == Err::<Transfer, SolcastError>(e) && *final(ctx) == *old(ctx),
            None => {
                let old_m = old(ctx).market;
                let new_m = final(ctx).market;
                &&& r == Ok::<Transfer, SolcastError>(
                    Transfer { from: old(ctx).user, to: old_m.authority, amount },
                )
                &&& new_m.total_value == old_m.total_value + amount
                &&& new_m.total_option_a == old_m.total_option_a + if option@ == old_m.option_a@ {
                    amount
                } else {
                    0
                }
                &&& new_m.total_option_b == old_m.total_option_b + if option@ == old_m.option_a@ {
                    0
                } else {
                    amount
                }
                &&& if holds_share(old_m.shares@, old(ctx).user@, option@) {
                    let i = share_index(old_m.shares@, old(ctx).user@, option@);
                    new_m.shares@ == old_m.shares@.update(i, share_topped_up(old_m.shares@[i], amount))
                } else {
                    new_m.shares@ == old_m.shares@.push(
                        Share { user: old(ctx).user, option, amount, has_withdrawn: false },
                    )
                }
                &&& new_m.num_bettors == old_m.num_bettors + if participants(old_m.shares@).contains(
                    old(ctx).user@,
                ) {
                    0int
                } else {
                    1int
                }
                &&& new_m.resolved == old_m.resolved
                &&& new_m.outcome == old_m.outcome
                &&& new_m.same_description(&old_m)
                &&& final(ctx).user == old(ctx).user
            },
        },
{
    if ctx.market.id != market_id {
        return Err(SolcastError::MarketNotFound);
    }
    if ctx.market.resolved {
        return Err(SolcastError::MarketAlreadyResolved);
    }
    let on_a = option == ctx.market.option_a;
    if !on_a && option != ctx.market.option_b {
        return Err(SolcastError::InvalidOption);
    }
    if amount == 0 {
        return Err(SolcastError::ZeroAmount);
    }
    if amount > u64::MAX - ctx.market.total_value {
        return Err(SolcastError::ArithmeticOverflow);
    }
    let found = find_share(&ctx.market.shares, &ctx.user, &option);
    if found.is_none() && ctx.market.shares.len() >= MAX_SHARES {
        return Err(SolcastError::TooManyParticipants);
    }
    let ghost old_m = ctx.market;
    let known = is_participant(&ctx.market.shares, &ctx.user);
    ctx.market.total_value = ctx.market.total_value + amount;
    if on_a {
        ctx.market.total_option_a = ctx.market.total_option_a + amount;
    } else {
        ctx.market.total_option_b = ctx.market.total_option_b + amount;
    }
    match found {
        Some(index) => {
            proof {
                lemma_share_index_unique(old_m, index as int, ctx.user@, option@);
                lemma_share_within_side(old_m.shares@, index as int, old_m.option_a@, on_a);
            }
            let topped = Share {
                user: ctx.market.shares[index].user,
                option: ctx.market.shares[index].option.clone(),
                amount: ctx.market.shares[index].amount + amount,
                has_withdrawn: ctx.market.shares[index].has_withdrawn,
            };
            proof {
                lemma_stake_update(old_m.shares@, index as int, topped, old_m.option_a@, true);
                lemma_stake_update(old_m.shares@, index as int, topped, old_m.option_a@, false);
                lemma_participants_update(old_m.shares@, index as int, topped);
                assert(participants(old_m.shares@).contains(ctx.user@)) by {
                    lemma_participants_push(old_m.shares@, topped);
                    crate::market::lemma_participant_has_share(old_m.shares@, ctx.user@);
                    assert(old_m.shares@[index as int].user@ == ctx.user@);
                }
            }
            ctx.market.shares.set(index, topped);
            proof {
                let m = ctx.market;
                assert forall|i: int, j: int|
                    0 <= i < m.shares@.len() && 0 <= j < m.shares@.len() && i != j
                        && (#[trigger] m.shares@[i]).user@ == (#[trigger] m.shares@[j]).user@
                        implies m.shares@[i].option@ != m.shares@[j].option@ by {
                    assert(old_m.shares@[i].user@ == old_m.shares@[j].user@);
                }
                assert(forall|i: int|
                    0 <= i < m.shares@.len() ==> (#[trigger] m.shares@[i]).option@
                        == old_m.shares@[i].option@);
            }
        },
        None => {
            let fresh = Share { user: ctx.user, option, amount, has_withdrawn: false };
            proof {
                lemma_stake_push(old_m.shares@, fresh, old_m.option_a@, true);
                lemma_stake_push(old_m.shares@, fresh, old_m.option_a@, false);
                lemma_participants_push(old_m.shares@, fresh);
                lemma_participants_push(old_m.shares@.push(fresh), fresh);
            }
            if !known {
                ctx.market.num_bettors = ctx.market.num_bettors + 1;
            }
            ctx.market.shares.push(fresh);
            proof {
                let m = ctx.market;
                assert(m.shares@ == old_m.shares@.push(fresh));
                assert forall|i: int, j: int|
                    0 <= i < m.shares@.len() && 0 <= j < m.shares@.len() && i != j
                        && (#[trigger] m.shares@[i]).user@ == (#[trigger] m.shares@[j]).user@
                        implies m.shares@[i].option@ != m.shares@[j].option@ by {
                    if i == old_m.shares@.len() {
                        assert(!is_share_of(old_m.shares@, j, ctx.user@, fresh.option@));
                    } else if j == old_m.shares@.len() {
                        assert(!is_share_of(old_m.shares@, i, ctx.user@, fresh.option@));
                    }
                }
            }
        },
    }
    Ok(Transfer { from: ctx.user, to: ctx.market.authority, amount })
}

/// Why `caller` cannot resolve market `m` addressed as `market_id` to
/// `winning_option` under the registry `state`, if they can't.
pub open spec fn resolve_error(
    state: State,
    m: Market,
    caller: Seq<u8>,
    market_id: Seq<char>,
    winning_option: Seq<char>,
) -> Option<SolcastError> {
    if caller != state.admin@ {
        Some(SolcastError::Unauthorized)
    } else if m.id@ != market_id {
        Some(SolcastError::MarketNotFound)
    } else if m.resolved {
        Some(SolcastError::MarketAlreadyResolved)
    } else if winning_option != m.option_a@ && winning_option != m.option_b@ {
        Some(SolcastError::InvalidOption)
    } else {
        None
    }
}

/// Resolves an open market to `winning_option`, once and for all.
pub fn resolve(ctx: &mut ResolveMarket, market_id: String, winning_option: String) -> (r: Result<
    (),
    SolcastError,
>)
    requires
        old(ctx).market.wf(),
    ensures
        final(ctx).market.wf(),
        withdrawals_kept(old(ctx).market.shares@, final(ctx).market.shares@),
        match resolve_error(
            old(ctx).state,
            old(ctx).market,
            old(ctx).admin@,
            market_id@,
            winning_option@,
        ) {
            Some(e) => r == Err::<(), SolcastError>(e) && *final(ctx) == *old(ctx),
            None => {
                &&& r is Ok
                &&& final(ctx).market.resolved
                &&& final(ctx).market.outcome == if winning_option@ == old(ctx).market.option_a@ {
                    OutcomeState::OptionA
                } else {
                    OutcomeState::OptionB
                }
                &&& final(ctx).market.winning_option() == winning_option@
                &&& final(ctx).market.shares == old(ctx).market.shares
                &&& final(ctx).market.total_value == old(ctx).market.total_value
                &&& final(ctx).market.total_option_a == old(ctx).market.total_option_a
                &&& final(ctx).market.total_option_b == old(ctx).market.total_option_b
                &&& final(ctx).market.num_bettors == old(ctx).market.num_bettors
                &&& final(ctx).market.same_description(&old(ctx).market)
                &&& final(ctx).state == old(ctx).state
                &&& final(ctx).admin == old(ctx).admin
            },
        },
{
    if !ctx.admin.same(&ctx.state.admin) {
        return Err(SolcastError::Unauthorized);
    }
    if ctx.market.id != market_id {
        return Err(SolcastError::MarketNotFound);
    }
    if ctx.market.resolved {
        return Err(SolcastError::MarketAlreadyResolved);
    }
    let on_a = winning_option == ctx.market.option_a;
    if !on_a && winning_option != ctx.market.option_b {
        return Err(SolcastError::InvalidOption);
    }
    ctx.market.resolved = true;
    if on_a {
        ctx.market.outcome = OutcomeState::OptionA;
    } else {
        ctx.market.outcome = OutcomeState::OptionB;
    }
    Ok(())
}

/// Lists the registered markets, in order of creation.
pub fn get_all_markets(ctx: &GetAllMarkets) -> (r: Result<Vec<MarketInfo>, SolcastError>)
    ensures
        r matches Ok(infos) && {
            &&& infos@.len() == if ctx.state.market_ids@.len() <= ctx.state.market_addresses@.len() {
                ctx.state.market_ids@.len()
            } else {
                ctx.state.market_addresses@.len()
            }
            &&& forall|i: int|
                0 <= i < infos@.len() ==> (#[trigger] infos@[i]).id == ctx.state.market_ids@[i]
                    && infos@[i].address == ctx.state.market_addresses@[i]
        },
{
    let mut market_infos: Vec<MarketInfo> = Vec::new();
    let mut i: usize = 0;
    while i < ctx.state.market_ids.len()
        invariant
            i <= ctx.state.market_ids@.len(),
            market_infos@.len() == if i <= ctx.state.market_addresses@.len() {
                i as int
            } else {
                ctx.state.market_addresses@.len() as int
            },
            forall|k: int|
                0 <= k < market_infos@.len() ==> (#[trigger] market_infos@[k]).id
                    == ctx.state.market_ids@[k] && market_infos@[k].address
                    == ctx.state.market_addresses@[k],
        decreases ctx.state.market_ids@.len() - i,
    {
        if i < ctx.state.market_addresses.len() {
            market_infos.push(
                MarketInfo {
                    id: ctx.state.market_ids[i].clone(),
                    address: ctx.state.market_addresses[i],
                },
            );
        }
        i = i + 1;
    }
    Ok(market_infos)
}

/// The records a withdrawal reads and writes, and who asks for it.
#[derive(Clone, Debug)]
pub struct Withdraw {
    pub market: Market,
    pub user: Principal,
}

/// Why `user` cannot withdraw from market `m` addressed as `market_id`, if
/// they can't.
pub open spec fn withdraw_error(m: Market, user: Seq<u8>, market_id: Seq<char>) -> Option<
    SolcastError,
> {
    if m.id@ != market_id {
        Some(SolcastError::MarketNotFound)
    } else if !m.resolved {
        Some(SolcastError::MarketNotResolved)
    } else if !holds_share(m.shares@, user, m.winning_option()) {
        Some(SolcastError::NoWinningShares)
    } else if m.shares@[share_index(m.shares@, user, m.winning_option())].has_withdrawn {
        Some(SolcastError::AlreadyWithdrawn)
    } else if m.winning_total() == 0 {
        Some(SolcastError::NoWinningShares)
    } else {
        None
    }
}

/// What `user` is paid when withdrawing from market `m`.
pub open spec fn withdraw_payout(m: Market, user: Seq<u8>) -> int {
    payout_spec(
        m.total_value as int,
        m.shares@[share_index(m.shares@, user, m.winning_option())].amount as int,
        m.winning_total() as int,
    )
}

/// Pays the caller's winning share out of a resolved market: marks the share
/// as withdrawn and returns the transfer from escrow to the caller.
pub fn withdraw(ctx: &mut Withdraw, market_id: String) -> (r: Result<Transfer, SolcastError>)
    requires
        old(ctx).market.wf(),
    ensures
        final(ctx).market.wf(),
        withdrawals_kept(old(ctx).market.shares@, final(ctx).market.shares@),
        match withdraw_error(old(ctx).market, old(ctx).user@, market_id@) {
            Some(e) => r == Err::<Transfer, SolcastError>(e) && *final(ctx) == *old(ctx),
            None => {
                let i = share_index(
                    old(ctx).market.shares@,
                    old(ctx).user@,
                    old(ctx).market.winning_option(),
                );
                &&& withdraw_payout(old(ctx).market, old(ctx).user@) <= old(ctx).market.total_value
                &&& r == Ok::<Transfer, SolcastError>(
                    Transfer {
                        from: old(ctx).market.authority,
                        to: old(ctx).user,
                        amount: withdraw_payout(old(ctx).market, old(ctx).user@) as u64,
                    },
                )
                &&& final(ctx).market.shares@ == old(ctx).market.shares@.update(
                    i,
                    share_paid(old(ctx).market.shares@[i]),
                )
                &&& final(ctx).market.same_description(&old(ctx).market)
                &&& final(ctx).market.same_pool(&old(ctx).market)
                &&& final(ctx).user == old(ctx).user
            },
        },
{
    if ctx.market.id != market_id {
        return Err(SolcastError::MarketNotFound);
    }
    if !ctx.market.resolved {
        return Err(SolcastError::MarketNotResolved);
    }
    let on_b = match ctx.market.outcome {
        OutcomeState::OptionA => false,
        OutcomeState::OptionB => true,
        OutcomeState::Unresolved => {
            return Err(SolcastError::MarketNotResolved);
        },
    };
    let winning_option = if on_b {
        &ctx.market.option_b
    } else {
        &ctx.market.option_a
    };
    let index = match find_share(&ctx.market.shares, &ctx.user, winning_option) {
        Some(i) => i,
        None => {
            return Err(SolcastError::NoWinningShares);
        },
    };
    proof {
        lemma_share_index_unique(ctx.market, index as int, ctx.user@, winning_option@);
    }
    if ctx.market.shares[index].has_withdrawn {
        return Err(SolcastError::AlreadyWithdrawn);
    }
    let amount = ctx.market.shares[index].amount;
    let on_a = *winning_option == ctx.market.option_a;
    let total_winning = if on_a {
        ctx.market.total_option_a
    } else {
        ctx.market.total_option_b
    };
    if total_winning == 0 {
        return Err(SolcastError::NoWinningShares);
    }
    proof {
        lemma_share_within_side(ctx.market.shares@, index as int, ctx.market.option_a@, on_a);
        lemma_payout_within_pool(
            ctx.market.total_value as int,
            amount as int,
            total_winning as int,
        );
    }
    let payout = match compute_payout(ctx.market.total_value, amount, total_winning) {
        Ok(p) => p,
        Err(e) => {
            return Err(e);
        },
    };
    let paid = Share {
        user: ctx.market.shares[index].user,
        option: ctx.market.shares[index].option.clone(),
        amount,
        has_withdrawn: true,
    };
    proof {
        let old_shares = ctx.market.shares@;
        lemma_stake_update(old_shares, index as int, paid, ctx.market.option_a@, true);
        lemma_stake_update(old_shares, index as int, paid, ctx.market.option_a@, false);
        lemma_participants_update(old_shares, index as int, paid);
    }
    ctx.market.shares.set(index, paid);
    proof {
        let m = ctx.market;
        assert forall|i: int, j: int|
            0 <= i < m.shares@.len() && 0 <= j < m.shares@.len() && i != j
                && (#[trigger] m.shares@[i]).user@ == (#[trigger] m.shares@[j]).user@
                implies m.shares@[i].option@ != m.shares@[j].option@ by {
            assert(old(ctx).market.shares@[i].user@ == old(ctx).market.shares@[j].user@);
        }
        assert(forall|i: int|
            0 <= i < m.shares@.len() ==> (#[trigger] m.shares@[i]).option@
                == old(ctx).market.shares@[i].option@);
    }
    Ok(Transfer { from: ctx.market.authority, to: ctx.user, amount: payout })
}

} // verus!
