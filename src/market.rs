use vstd::prelude::*;

use crate::principal::Principal;

verus! {

/// Most shares one market's ledger can hold.
pub const MAX_SHARES: usize = 100;

/// Where a market stands on its outcome.
#[derive(Clone, Copy, Debug, PartialEq, Eq, Structural)]
pub enum OutcomeState {
    Unresolved,
    OptionA,
    OptionB,
}

/// A participant's cumulative stake on one option of one market.
#[derive(Clone, Debug)]
pub struct Share {
    pub user: Principal,
    pub option: String,
    pub amount: u64,
    pub has_withdrawn: bool,
}

/// One binary-outcome market: its two options, its pooled stakes, its
/// lifecycle, its escrow authority and its share ledger.
#[derive(Clone, Debug)]
pub struct Market {
    pub id: String,
    pub option_a: String,
    pub option_b: String,
    pub resolved: bool,
    pub outcome: OutcomeState,
    /// Informational only: no operation enforces it.
    pub end_time: i64,
    pub total_value: u64,
    pub num_bettors: u64,
    pub banner_url: String,
    pub description: String,
    pub title: String,
    pub end_time_string: String,
    pub start_time_string: String,
    pub resolution_source: String,
    pub total_option_a: u64,
    pub total_option_b: u64,
    /// The escrow account, derived from the market id.
    pub authority: Principal,
    pub authority_bump: u8,
    pub shares: Vec<Share>,
}

/// Sum of the stakes in `shares` whose option is `opt` (when `on`) or is
/// not `opt` (when not `on`).
pub open spec fn stake_where(shares: Seq<Share>, opt: Seq<char>, on: bool) -> int
    decreases shares.len(),
{
    if shares.len() == 0 {
        0
    } else {
        stake_where(shares.drop_last(), opt, on) + if (shares.last().option@ == opt) == on {
            shares.last().amount as int
        } else {
            0
        }
    }
}

/// Sum of all stakes in `shares`.
pub open spec fn total_staked(shares: Seq<Share>) -> int
    decreases shares.len(),
{
    if shares.len() == 0 {
        0
    } else {
        total_staked(shares.drop_last()) + shares.last().amount as int
    }
}

/// The distinct participants holding a share.
pub open spec fn participants(shares: Seq<Share>) -> Set<Seq<u8>> {
    shares.map_values(|s: Share| s.user@).to_set()
}

/// Whether `shares[i]` is the share of `user` on option `opt`.
pub open spec fn is_share_of(shares: Seq<Share>, i: int, user: Seq<u8>, opt: Seq<char>) -> bool {
    0 <= i < shares.len() && shares[i].user@ == user && shares[i].option@ == opt
}

/// Whether `user` holds a share on option `opt`.
pub open spec fn holds_share(shares: Seq<Share>, user: Seq<u8>, opt: Seq<char>) -> bool {
    exists|i: int| is_share_of(shares, i, user, opt)
}

/// The index of `user`'s share on option `opt`, where there is one.
pub open spec fn share_index(shares: Seq<Share>, user: Seq<u8>, opt: Seq<char>) -> int {
    choose|i: int| is_share_of(shares, i, user, opt)
}

/// The share `s` with its amount raised by `amount`.
pub open spec fn share_topped_up(s: Share, amount: u64) -> Share {
    Share { user: s.user, option: s.option, amount: (s.amount + amount) as u64, has_withdrawn: s.has_withdrawn }
}

/// The share `s` marked as paid out.
pub open spec fn share_paid(s: Share) -> Share {
    Share { user: s.user, option: s.option, amount: s.amount, has_withdrawn: true }
}

/// Each share in `old_shares` that was paid out is still there and still
/// marked so in `new_shares`.
pub open spec fn withdrawals_kept(old_shares: Seq<Share>, new_shares: Seq<Share>) -> bool {
    old_shares.len() <= new_shares.len() && forall|i: int|
        0 <= i < old_shares.len() && #[trigger] old_shares[i].has_withdrawn
            ==> new_shares[i].has_withdrawn
}

impl Market {
    /// The market's invariant: the side totals add up to the pool, the
    /// ledger adds up to each side, every share names one of the two options
    /// and holds a positive stake,
    /// at most one share per participant and option, a bounded ledger, the
    /// participant count, and a lifecycle flag that matches the outcome.
    pub open spec fn wf(&self) -> bool {
        &&& self.total_option_a + self.total_option_b == self.total_value
        &&& stake_where(self.shares@, self.option_a@, true) == self.total_option_a
        &&& stake_where(self.shares@, self.option_a@, false) == self.total_option_b
        &&& forall|i: int|
            0 <= i < self.shares@.len() ==> (#[trigger] self.shares@[i]).option@ == self.option_a@
                || self.shares@[i].option@ == self.option_b@
        &&& forall|i: int| 0 <= i < self.shares@.len() ==> (#[trigger] self.shares@[i]).amount > 0
        &&& forall|i: int, j: int|
            0 <= i < self.shares@.len() && 0 <= j < self.shares@.len() && i != j
                && (#[trigger] self.shares@[i]).user@ == (#[trigger] self.shares@[j]).user@
                ==> self.shares@[i].option@ != self.shares@[j].option@
        &&& self.shares@.len() <= MAX_SHARES
        &&& self.num_bettors == participants(self.shares@).len()
        &&& self.resolved == (self.outcome != OutcomeState::Unresolved)
    }

    /// The option that won, once the market is resolved.
    pub open spec fn winning_option(&self) -> Seq<char> {
        if self.outcome == OutcomeState::OptionB {
            self.option_b@
        } else {
            self.option_a@
        }
    }

    /// The total staked on the winning option.
    pub open spec fn winning_total(&self) -> u64 {
        if self.winning_option() == self.option_a@ {
            self.total_option_a
        } else {
            self.total_option_b
        }
    }

    /// The pool, its split, the participant count and the lifecycle are as
    /// in `other`.
    pub open spec fn same_pool(&self, other: &Market) -> bool {
        &&& self.total_value == other.total_value
        &&& self.total_option_a == other.total_option_a
        &&& self.total_option_b == other.total_option_b
        &&& self.num_bettors == other.num_bettors
        &&& self.resolved == other.resolved
        &&& self.outcome == other.outcome
    }

    /// Everything but the pool, the ledger and the lifecycle is as in `other`.
    pub open spec fn same_description(&self, other: &Market) -> bool {
        &&& self.id == other.id
        &&& self.option_a == other.option_a
        &&& self.option_b == other.option_b
        &&& self.end_time == other.end_time
        &&& self.banner_url == other.banner_url
        &&& self.description == other.description
        &&& self.title == other.title
        &&& self.end_time_string == other.end_time_string
        &&& self.start_time_string == other.start_time_string
        &&& self.resolution_source == other.resolution_source
        &&& self.authority == other.authority
        &&& self.authority_bump == other.authority_bump
    }
}

/// The ledger splits into the stakes on an option and those off it.
pub proof fn lemma_stake_split(shares: Seq<Share>, opt: Seq<char>)
    ensures
        stake_where(shares, opt, true) + stake_where(shares, opt, false) == total_staked(shares),
        stake_where(shares, opt, true) >= 0,
        stake_where(shares, opt, false) >= 0,
    decreases shares.len(),
{
    if shares.len() > 0 {
        lemma_stake_split(shares.drop_last(), opt);
    }
}

/// Appending a share adds its amount to the sum of its side.
pub proof fn lemma_stake_push(shares: Seq<Share>, s: Share, opt: Seq<char>, on: bool)
    ensures
        stake_where(shares.push(s), opt, on) == stake_where(shares, opt, on) + if (s.option@ == opt)
            == on {
            s.amount as int
        } else {
            0
        },
{
    assert(shares.push(s).drop_last() =~= shares);
}

/// Replacing one share changes its side's sum by the difference.
pub proof fn lemma_stake_update(shares: Seq<Share>, i: int, s: Share, opt: Seq<char>, on: bool)
    requires
        0 <= i < shares.len(),
    ensures
        stake_where(shares.update(i, s), opt, on) == stake_where(shares, opt, on) - (if (
        shares[i].option@ == opt) == on {
            shares[i].amount as int
        } else {
            0
        }) + (if (s.option@ == opt) == on {
            s.amount as int
        } else {
            0
        }),
    decreases shares.len(),
{
    let u = shares.update(i, s);
    if i == shares.len() - 1 {
        assert(u.drop_last() =~= shares.drop_last());
    } else {
        assert(u.drop_last() =~= shares.drop_last().update(i, s));
        lemma_stake_update(shares.drop_last(), i, s, opt, on);
    }
}

/// A share counts fully toward the sum of its own side.
pub proof fn lemma_share_within_side(shares: Seq<Share>, i: int, opt: Seq<char>, on: bool)
    requires
        0 <= i < shares.len(),
        (shares[i].option@ == opt) == on,
    ensures
        shares[i].amount <= stake_where(shares, opt, on),
    decreases shares.len(),
{
    lemma_stake_split(shares.drop_last(), opt);
    if i < shares.len() - 1 {
        lemma_share_within_side(shares.drop_last(), i, opt, on);
    }
}

/// Appending a share adds its holder to the participants.
pub proof fn lemma_participants_push(shares: Seq<Share>, s: Share)
    ensures
        participants(shares.push(s)) == participants(shares).insert(s.user@),
        participants(shares).finite(),
        participants(shares).len() <= shares.len(),
{
    let f = |x: Share| x.user@;
    assert(shares.push(s).map_values(f) =~= shares.map_values(f) + seq![s.user@]);
    Seq::<Seq<u8>>::lemma_to_set_insert_commutes(shares.map_values(f), s.user@);
    shares.map_values(f).lemma_cardinality_of_set();
    vstd::seq_lib::seq_to_set_is_finite(shares.map_values(f));
}

/// Replacing a share by one of the same holder keeps the participants.
pub proof fn lemma_participants_update(shares: Seq<Share>, i: int, s: Share)
    requires
        0 <= i < shares.len(),
        s.user@ == shares[i].user@,
    ensures
        participants(shares.update(i, s)) == participants(shares),
{
    let f = |x: Share| x.user@;
    assert(shares.update(i, s).map_values(f) =~= shares.map_values(f));
}

/// A participant holds a share exactly when they are among the participants.
pub proof fn lemma_participant_has_share(shares: Seq<Share>, user: Seq<u8>)
    ensures
        participants(shares).contains(user) <==> exists|i: int|
            0 <= i < shares.len() && (#[trigger] shares[i]).user@ == user,
{
    let f = |x: Share| x.user@;
    if participants(shares).contains(user) {
        let k = choose|k: int| 0 <= k < shares.len() && shares.map_values(f)[k] == user;
        assert(shares[k].user@ == user);
    }
    if exists|i: int| 0 <= i < shares.len() && (#[trigger] shares[i]).user@ == user {
        let i = choose|i: int| 0 <= i < shares.len() && (#[trigger] shares[i]).user@ == user;
        assert(shares.map_values(f)[i] == user);
    }
}

} // verus!

verus! {

/// The index of `user`'s share on option `opt`, if they hold one.
pub fn find_share(shares: &Vec<Share>, user: &Principal, opt: &String) -> (r: Option<usize>)
    ensures
        match r {
            Some(i) => is_share_of(shares@, i as int, user@, opt@),
            None => !holds_share(shares@, user@, opt@),
        },
{
    let mut i: usize = 0;
    while i < shares.len()
        invariant
            i <= shares@.len(),
            forall|j: int| 0 <= j < i ==> !is_share_of(shares@, j, user@, opt@),
        decreases shares@.len() - i,
    {
        if shares[i].user.same(user) && shares[i].option == *opt {
            return Some(i);
        }
        i = i + 1;
    }
    None
}

/// Whether `user` holds any share.
pub fn is_participant(shares: &Vec<Share>, user: &Principal) -> (r: bool)
    ensures
        r == participants(shares@).contains(user@),
{
    proof {
        lemma_participant_has_share(shares@, user@);
    }
    let mut i: usize = 0;
    while i < shares.len()
        invariant
            i <= shares@.len(),
            forall|j: int| 0 <= j < i ==> (#[trigger] shares@[j]).user@ != user@,
            participants(shares@).contains(user@) <==> exists|j: int|
                0 <= j < shares@.len() && (#[trigger] shares@[j]).user@ == user@,
        decreases shares@.len() - i,
    {
        if shares[i].user.same(user) {
            assert(shares@[i as int].user@ == user@);
            return true;
        }
        i = i + 1;
    }
    false
}

/// Under the invariant, a share held by `user` on `opt` is the one that
/// `share_index` names.
pub proof fn lemma_share_index_unique(m: Market, i: int, user: Seq<u8>, opt: Seq<char>)
    requires
        m.wf(),
        is_share_of(m.shares@, i, user, opt),
    ensures
        share_index(m.shares@, user, opt) == i,
{
    let k = share_index(m.shares@, user, opt);
    assert(is_share_of(m.shares@, k, user, opt));
    if k != i {
        assert(m.shares@[i].user@ == m.shares@[k].user@);
    }
}

} // verus!

verus! {

impl Market {
    /// Whether the record satisfies the market's invariant; for records read
    /// back from storage.
    pub fn is_well_formed(&self) -> (r: bool)
        ensures
            r == self.wf(),
    {
        let n = self.shares.len();
        if n > MAX_SHARES {
            return false;
        }
        let on_a = self.outcome != OutcomeState::Unresolved;
        if self.resolved != on_a {
            return false;
        }
        let ghost s = self.shares@;
        proof {
            assert(s.take(0) =~= Seq::<Share>::empty());
            assert(participants(s.take(0)) =~= Set::<Seq<u8>>::empty());
        }
        let mut sum_on: u128 = 0;
        let mut sum_off: u128 = 0;
        let mut seen: u64 = 0;
        let mut i: usize = 0;
        while i < n
            invariant
                n == s.len(),
                s == self.shares@,
                n <= MAX_SHARES,
                i <= n,
                sum_on == stake_where(s.take(i as int), self.option_a@, true),
                sum_off == stake_where(s.take(i as int), self.option_a@, false),
                sum_on <= i * 0x1_0000_0000_0000_0000,
                sum_off <= i * 0x1_0000_0000_0000_0000,
                seen == participants(s.take(i as int)).len(),
                seen <= i,
                forall|k: int| 0 <= k < i ==> (#[trigger] s[k]).amount > 0,
                forall|k: int|
                    0 <= k < i ==> (#[trigger] s[k]).option@ == self.option_a@ || s[k].option@
                        == self.option_b@,
                forall|k: int, j: int|
                    0 <= k < i && 0 <= j < i && k != j && (#[trigger] s[k]).user@ == (
                    #[trigger] s[j]).user@ ==> s[k].option@ != s[j].option@,
            decreases n - i,
        {
            let share = &self.shares[i];
            if share.amount == 0 {
                return false;
            }
            let is_a = share.option == self.option_a;
            if !is_a && share.option != self.option_b {
                return false;
            }
            let mut known = false;
            let mut j: usize = 0;
            while j < i
                invariant
                    n == s.len(),
                    s == self.shares@,
                    i < n,
                    j <= i,
                    share == s[i as int],
                    known == exists|k: int| 0 <= k < j && (#[trigger] s[k]).user@ == s[i as int].user@,
                    forall|k: int|
                        0 <= k < j && (#[trigger] s[k]).user@ == s[i as int].user@ ==> s[k].option@
                            != s[i as int].option@,
                decreases i - j,
            {
                if self.shares[j].user.same(&share.user) {
                    if self.shares[j].option == share.option {
                        return false;
                    }
                    known = true;
                }
                j = j + 1;
            }
            proof {
                let t = s.take(i as int);
                assert(s.take(i as int + 1) =~= t.push(*share));
                lemma_stake_push(t, *share, self.option_a@, true);
                lemma_stake_push(t, *share, self.option_a@, false);
                lemma_participants_push(t, *share);
                lemma_participant_has_share(t, share.user@);
                if known {
                    let k = choose|k: int| 0 <= k < i && (#[trigger] s[k]).user@ == s[i as int].user@;
                    assert(t[k].user@ == share.user@);
                } else {
                    assert forall|k: int| 0 <= k < t.len() implies (#[trigger] t[k]).user@
                        != share.user@ by {
                        assert(t[k] == s[k]);
                    }
                }
                assert(sum_on + share.amount <= (i + 1) * 0x1_0000_0000_0000_0000
                    && sum_off + share.amount <= (i + 1) * 0x1_0000_0000_0000_0000) by (nonlinear_arith)
                    requires
                        sum_on <= i * 0x1_0000_0000_0000_0000,
                        sum_off <= i * 0x1_0000_0000_0000_0000,
                        share.amount < 0x1_0000_0000_0000_0000,
                ;
            }
            if is_a {
                sum_on = sum_on + share.amount as u128;
            } else {
                sum_off = sum_off + share.amount as u128;
            }
            if !known {
                seen = seen + 1;
            }
            i = i + 1;
        }
        proof {
            assert(s.take(n as int) =~= s);
        }
        sum_on == self.total_option_a as u128 && sum_off == self.total_option_b as u128
            && self.total_option_a as u128 + self.total_option_b as u128 == self.total_value as u128
            && seen == self.num_bettors
    }
}

} // verus!
