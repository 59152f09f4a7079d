use vstd::prelude::*;

use crate::instructions::{create_market_error, resolve_error, withdraw_error};
use crate::market::{
    is_share_of, lemma_share_within_side, lemma_stake_split, share_index, share_paid,
    total_staked, Market,
};
use crate::errors::SolcastError;
use crate::registry::State;

verus! {

/// In every well-formed market the stakes on the two options add up to the
/// pool.
pub proof fn lemma_sides_sum_to_pool(m: Market)
    requires
        m.wf(),
    ensures
        m.total_option_a + m.total_option_b == m.total_value,
{
}

/// In every well-formed market the stakes recorded in the ledger add up to
/// the pool.
pub proof fn lemma_ledger_sums_to_pool(m: Market)
    requires
        m.wf(),
    ensures
        total_staked(m.shares@) == m.total_value,
{
    lemma_stake_split(m.shares@, m.option_a@);
}

/// Once a market is registered under `id`, the administrator's next attempt
/// to create one under the same id is refused with `MarketIdAlreadyExists`
/// (and a refused creation changes nothing).
pub proof fn lemma_duplicate_id_refused(
    state: State,
    id: Seq<char>,
    n_options: int,
    program: Seq<u8>,
)
    requires
        state.ids().contains(id),
    ensures
        create_market_error(state, state.admin@, id, n_options, program) == Some(
            SolcastError::MarketIdAlreadyExists,
        ),
{
}

/// Once a participant has withdrawn from a market, every further withdrawal
/// they ask for is refused with `AlreadyWithdrawn`.
pub proof fn lemma_second_withdraw_refused(
    before: Market,
    after: Market,
    user: Seq<u8>,
    market_id: Seq<char>,
)
    requires
        before.wf(),
        withdraw_error(before, user, market_id) is None,
        after.shares@ == before.shares@.update(
            share_index(before.shares@, user, before.winning_option()),
            share_paid(before.shares@[share_index(before.shares@, user, before.winning_option())]),
        ),
        after.same_description(&before),
        after.same_pool(&before),
    ensures
        withdraw_error(after, user, market_id) == Some(SolcastError::AlreadyWithdrawn),
{
    let opt = before.winning_option();
    let i = share_index(before.shares@, user, opt);
    assert(is_share_of(before.shares@, i, user, opt));
    assert(after.winning_option() == opt);
    assert(is_share_of(after.shares@, i, user, opt));
    let k = share_index(after.shares@, user, opt);
    assert(is_share_of(after.shares@, k, user, opt));
    if k != i {
        assert(before.shares@[k].user@ == before.shares@[i].user@);
    }
}

/// A market resolved to an option that nobody staked on pays nobody: every
/// withdrawal is refused with `NoWinningShares`.
pub proof fn lemma_unbacked_outcome_pays_nobody(m: Market, user: Seq<u8>)
    requires
        m.wf(),
        m.resolved,
        m.winning_total() == 0,
    ensures
        withdraw_error(m, user, m.id@) == Some(SolcastError::NoWinningShares),
{
    let opt = m.winning_option();
    if exists|i: int| is_share_of(m.shares@, i, user, opt) {
        let i = choose|i: int| is_share_of(m.shares@, i, user, opt);
        lemma_share_within_side(m.shares@, i, m.option_a@, opt == m.option_a@);
        assert(m.shares@[i].amount > 0);
    }
}

/// Only the administrator can resolve a market: anyone else is refused with
/// `Unauthorized` (and a refused resolution changes nothing).
pub proof fn lemma_resolve_needs_admin(
    state: State,
    m: Market,
    caller: Seq<u8>,
    market_id: Seq<char>,
    winning_option: Seq<char>,
)
    requires
        caller != state.admin@,
    ensures
        resolve_error(state, m, caller, market_id, winning_option) == Some(
            SolcastError::Unauthorized,
        ),
{
}

} // verus!
