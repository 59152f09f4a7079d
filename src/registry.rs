use vstd::prelude::*;

use crate::principal::Principal;

verus! {

/// The process-wide registry: the administrator and the markets created so
/// far, in order of creation.
#[derive(Clone, Debug)]
pub struct State {
    pub admin: Principal,
    pub market_ids: Vec<String>,
    pub market_id_counter: u64,
    pub last_market_id: u64,
    pub market_addresses: Vec<Principal>,
}

/// A market's id and where its record lives.
#[derive(Clone, Debug)]
pub struct MarketInfo {
    pub id: String,
    pub address: Principal,
}

impl State {
    /// The registered market ids, in order of creation.
    pub open spec fn ids(&self) -> Seq<Seq<char>> {
        self.market_ids@.map_values(|s: String| s@)
    }

    /// The registered market locations, in order of creation.
    pub open spec fn addresses(&self) -> Seq<Seq<u8>> {
        self.market_addresses@.map_values(|p: Principal| p@)
    }

    /// The registry's invariant: ids are unique, each has its location, and
    /// the counters count the markets.
    pub open spec fn wf(&self) -> bool {
        &&& self.ids().no_duplicates()
        &&& self.market_addresses@.len() == self.market_ids@.len()
        &&& self.market_id_counter == self.market_ids@.len()
        &&& self.last_market_id == self.market_id_counter
    }

    /// Whether the registry satisfies its invariant; for records read back
    /// from storage.
    pub fn is_well_formed(&self) -> (r: bool)
        ensures
            r == self.wf(),
    {
        let n = self.market_ids.len();
        if self.market_addresses.len() != n || self.market_id_counter as usize != n
            || self.market_id_counter > usize::MAX as u64
            || self.last_market_id != self.market_id_counter {
            return false;
        }
        let mut i: usize = 0;
        while i < n
            invariant
                n == self.market_ids@.len(),
                i <= n,
                forall|k: int, j: int|
                    0 <= k < i && 0 <= j < i && k != j ==> self.ids()[k] != self.ids()[j],
            decreases n - i,
        {
            let mut j: usize = 0;
            while j < i
                invariant
                    n == self.market_ids@.len(),
                    i < n,
                    j <= i,
                    forall|k: int| 0 <= k < j ==> self.ids()[k] != self.ids()[i as int],
                decreases i - j,
            {
                if self.market_ids[j] == self.market_ids[i] {
                    assert(self.ids()[j as int] == self.ids()[i as int]);
                    return false;
                }
                j = j + 1;
            }
            i = i + 1;
        }
        true
    }

    /// Whether a market is registered under `id`.
    pub fn is_registered(&self, id: &String) -> (r: bool)
        ensures
            r == self.ids().contains(id@),
    {
        let mut i: usize = 0;
        while i < self.market_ids.len()
            invariant
                i <= self.market_ids@.len(),
                forall|j: int| 0 <= j < i ==> self.ids()[j] != id@,
            decreases self.market_ids@.len() - i,
        {
            if self.market_ids[i] == *id {
                assert(self.ids()[i as int] == id@);
                return true;
            }
            i = i + 1;
        }
        false
    }
}

} // verus!
