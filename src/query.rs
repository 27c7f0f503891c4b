use vstd::prelude::*;

use crate::inventory::{held_ids, list_assets, list_inventory};
use crate::ledger::{pledge_in_state, Ledger};
use crate::paydown::copy_paydown;
use crate::types::{id_views, Asset, Paydown, PaydownState, PaydownView, Pledge, PledgeState, PledgeView};

verus! {

/// The pledge keyed `k` is in `state`, where one is given.
pub open spec fn pledge_in(pm: Map<Seq<char>, PledgeView>, state: Option<PledgeState>) -> spec_fn(Seq<char>) -> bool {
    |k: Seq<char>|
        match state {
            Some(s) => pm[k].state == s,
            None => true,
        }
}

/// The paydown keyed `k` is in `state`, where one is given.
pub open spec fn paydown_in(dm: Map<Seq<char>, PaydownView>, state: Option<PaydownState>) -> spec_fn(Seq<char>) -> bool {
    |k: Seq<char>|
        match state {
            Some(s) => dm[k].state == s,
            None => true,
        }
}

impl Ledger {
    pub fn get_pledge(&self, id: &String) -> (r: Option<&Pledge>)
        requires
            self.wf(),
        ensures
            match r {
                Some(p) => self.pledge_map().contains_key(id@) && p@ == self.pledge_map()[id@],
                None => !self.pledge_map().contains_key(id@),
            },
    {
        self.pledges.get(id)
    }

    pub fn get_paydown(&self, id: &String) -> (r: Option<&Paydown>)
        requires
            self.wf(),
        ensures
            match r {
                Some(d) => self.paydown_map().contains_key(id@) && d@ == self.paydown_map()[id@],
                None => !self.paydown_map().contains_key(id@),
            },
    {
        self.paydowns.get(id)
    }

    /// The pledges in `state` (all of them where none is given), in the order in which
    /// they were proposed.
    pub fn pledges_in_state(&self, state: Option<PledgeState>) -> (r: Vec<Pledge>)
        requires
            self.wf(),
        ensures
            r@.len() == self.pledges.key_seq().filter(pledge_in(self.pledge_map(), state)).len(),
            forall|j: int| 0 <= j < r@.len() ==> (#[trigger] r@[j])@ == self.pledge_map()[self.pledges.key_seq().filter(pledge_in(self.pledge_map(), state))[j]],
    {
        let ghost ks = self.pledges.key_seq();
        let ghost pred = pledge_in(self.pledge_map(), state);
        let mut r: Vec<Pledge> = Vec::new();
        let ghost mut ids: Seq<Seq<char>> = seq![];
        let n = self.pledges.len();
        let mut t: usize = 0;
        while t < n
            invariant
                t <= n,
                n == ks.len(),
                self.wf(),
                ks == self.pledges.key_seq(),
                pred == pledge_in(self.pledge_map(), state),
                ids == ks.subrange(0, t as int).filter(pred),
                r@.len() == ids.len(),
                forall|j: int| 0 <= j < r@.len() ==> (#[trigger] r@[j])@ == self.pledge_map()[ids[j]],
            decreases n - t,
        {
            let p = self.pledges.value_at(t);
            let hit = match state {
                Some(s) => p.state == s,
                None => true,
            };
            proof {
                assert(ks.subrange(0, t as int + 1) =~= ks.subrange(0, t as int).push(ks[t as int]));
                ks.subrange(0, t as int).lemma_filter_push(ks[t as int], pred);
            }
            if hit {
                let c = pledge_in_state(p, p.state);
                assert(c@ =~= p@);
                r.push(c);
                proof {
                    ids = ids.push(ks[t as int]);
                }
            }
            t = t + 1;
        }
        assert(ks.subrange(0, n as int) =~= ks);
        r
    }

    /// The paydowns in `state` (all of them where none is given), in the order in which
    /// they were proposed.
    pub fn paydowns_in_state(&self, state: Option<PaydownState>) -> (r: Vec<Paydown>)
        requires
            self.wf(),
        ensures
            r@.len() == self.paydowns.key_seq().filter(paydown_in(self.paydown_map(), state)).len(),
            forall|j: int| 0 <= j < r@.len() ==> (#[trigger] r@[j])@ == self.paydown_map()[self.paydowns.key_seq().filter(paydown_in(self.paydown_map(), state))[j]],
    {
        let ghost ks = self.paydowns.key_seq();
        let ghost pred = paydown_in(self.paydown_map(), state);
        let mut r: Vec<Paydown> = Vec::new();
        let ghost mut ids: Seq<Seq<char>> = seq![];
        let n = self.paydowns.len();
        let mut t: usize = 0;
        while t < n
            invariant
                t <= n,
                n == ks.len(),
                self.wf(),
                ks == self.paydowns.key_seq(),
                pred == paydown_in(self.paydown_map(), state),
                ids == ks.subrange(0, t as int).filter(pred),
                r@.len() == ids.len(),
                forall|j: int| 0 <= j < r@.len() ==> (#[trigger] r@[j])@ == self.paydown_map()[ids[j]],
            decreases n - t,
        {
            let d = self.paydowns.value_at(t);
            let hit = match state {
                Some(s) => d.state == s,
                None => true,
            };
            proof {
                assert(ks.subrange(0, t as int + 1) =~= ks.subrange(0, t as int).push(ks[t as int]));
                ks.subrange(0, t as int).lemma_filter_push(ks[t as int], pred);
            }
            if hit {
                let c = copy_paydown(d, d.state, d.parties_accepted);
                assert(c@ =~= d@);
                r.push(c);
                proof {
                    ids = ids.push(ks[t as int]);
                }
            }
            t = t + 1;
        }
        assert(ks.subrange(0, n as int) =~= ks);
        r
    }

    /// Every pledge id, in the order in which the pledges were proposed.
    pub fn list_pledge_ids(&self) -> (r: Vec<String>)
        requires
            self.wf(),
        ensures
            id_views(r@) == self.pledges.key_seq(),
    {
        let mut r: Vec<String> = Vec::new();
        let n = self.pledges.len();
        let mut t: usize = 0;
        while t < n
            invariant
                t <= n,
                n == self.pledges.key_seq().len(),
                self.wf(),
                id_views(r@) == self.pledges.key_seq().subrange(0, t as int),
            decreases n - t,
        {
            let ghost pre = id_views(r@);
            let k = self.pledges.key_at(t).clone();
            r.push(k);
            assert(id_views(r@) =~= pre.push(self.pledges.key_seq()[t as int]));
            assert(id_views(r@) =~= self.pledges.key_seq().subrange(0, t as int + 1));
            t = t + 1;
        }
        assert(self.pledges.key_seq().subrange(0, n as int) =~= self.pledges.key_seq());
        r
    }

    /// Every paydown id, in the order in which the paydowns were proposed.
    pub fn list_paydown_ids(&self) -> (r: Vec<String>)
        requires
            self.wf(),
        ensures
            id_views(r@) == self.paydowns.key_seq(),
    {
        let mut r: Vec<String> = Vec::new();
        let n = self.paydowns.len();
        let mut t: usize = 0;
        while t < n
            invariant
                t <= n,
                n == self.paydowns.key_seq().len(),
                self.wf(),
                id_views(r@) == self.paydowns.key_seq().subrange(0, t as int),
            decreases n - t,
        {
            let ghost pre = id_views(r@);
            let k = self.paydowns.key_at(t).clone();
            r.push(k);
            assert(id_views(r@) =~= pre.push(self.paydowns.key_seq()[t as int]));
            assert(id_views(r@) =~= self.paydowns.key_seq().subrange(0, t as int + 1));
            t = t + 1;
        }
        assert(self.paydowns.key_seq().subrange(0, n as int) =~= self.paydowns.key_seq());
        r
    }

    pub fn list_pledges(&self) -> (r: Vec<Pledge>)
        requires
            self.wf(),
        ensures
            r@.len() == self.pledges.key_seq().filter(pledge_in(self.pledge_map(), None)).len(),
            forall|j: int| 0 <= j < r@.len() ==> (#[trigger] r@[j])@ == self.pledge_map()[self.pledges.key_seq().filter(pledge_in(self.pledge_map(), None))[j]],
    {
        self.pledges_in_state(None)
    }

    pub fn list_pledge_proposals(&self) -> (r: Vec<Pledge>)
        requires
            self.wf(),
        ensures
            r@.len() == self.pledges.key_seq().filter(pledge_in(self.pledge_map(), Some(PledgeState::Proposed))).len(),
            forall|j: int| 0 <= j < r@.len() ==> (#[trigger] r@[j])@ == self.pledge_map()[self.pledges.key_seq().filter(pledge_in(self.pledge_map(), Some(PledgeState::Proposed)))[j]],
    {
        self.pledges_in_state(Some(PledgeState::Proposed))
    }

    pub fn list_paydowns(&self) -> (r: Vec<Paydown>)
        requires
            self.wf(),
        ensures
            r@.len() == self.paydowns.key_seq().filter(paydown_in(self.paydown_map(), None)).len(),
            forall|j: int| 0 <= j < r@.len() ==> (#[trigger] r@[j])@ == self.paydown_map()[self.paydowns.key_seq().filter(paydown_in(self.paydown_map(), None))[j]],
    {
        self.paydowns_in_state(None)
    }

    pub fn list_paydown_proposals(&self) -> (r: Vec<Paydown>)
        requires
            self.wf(),
        ensures
            r@.len() == self.paydowns.key_seq().filter(paydown_in(self.paydown_map(), Some(PaydownState::Proposed))).len(),
            forall|j: int| 0 <= j < r@.len() ==> (#[trigger] r@[j])@ == self.paydown_map()[self.paydowns.key_seq().filter(paydown_in(self.paydown_map(), Some(PaydownState::Proposed)))[j]],
    {
        self.paydowns_in_state(Some(PaydownState::Proposed))
    }

    /// Every recorded asset with its state.
    pub fn list_assets(&self) -> (r: Vec<Asset>)
        requires
            self.wf(),
        ensures
            r@.len() == self.assets.key_seq().len(),
            forall|j: int| 0 <= j < r@.len() ==> (#[trigger] r@[j]).id@ == self.assets.key_seq()[j]
                && r@[j].state == self.asset_map()[self.assets.key_seq()[j]],
    {
        list_assets(&self.assets)
    }

    /// The ids of the assets that the facility holds: those in `Inventory` or in
    /// `PaydownProposed`, each once.
    pub fn list_inventory(&self) -> (r: Vec<String>)
        requires
            self.wf(),
        ensures
            id_views(r@).no_duplicates(),
            id_views(r@).to_set() == held_ids(self.asset_map()),
    {
        list_inventory(&self.assets)
    }
}

} // verus!
