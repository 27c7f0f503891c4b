use vstd::prelude::*;

use crate::consistency::consistent;
use crate::escrow::{escrow_permissions, marker_grants};
use crate::store::Store;
use crate::paydown::copy_paydown;
use crate::types::{
    Asset, AssetState, Coin, Facility, Marker, Paydown, PaydownKind, PaydownState,
    PaydownView, Pledge, PledgeState, PledgeView,
};

verus! {

/// What an operation is given besides the ledger: the facility's configuration, the
/// contract's own address, and a fresh snapshot of the escrow marker.
pub struct Context {
    pub facility: Facility,
    pub contract: String,
    pub escrow: Marker,
}

/// The contract may transfer and withdraw from the escrow marker.
pub open spec fn escrow_ok(ctx: &Context) -> bool {
    marker_grants(ctx.escrow, ctx.contract@, escrow_permissions())
}

/// The first attached coin is exactly `amount` of `denom`.
pub open spec fn funds_match(funds: Seq<Coin>, amount: u64, denom: Seq<char>) -> bool {
    funds.len() > 0 && funds[0].denom@ == denom && funds[0].amount == amount as u128
}

/// The pledge state changes that the lifecycle allows (staying put included).
pub open spec fn pledge_step(a: PledgeState, b: PledgeState) -> bool {
    a == b || match (a, b) {
        (PledgeState::Proposed, PledgeState::Accepted) => true,
        (PledgeState::Proposed, PledgeState::Cancelled) => true,
        (PledgeState::Accepted, PledgeState::Executed) => true,
        (PledgeState::Accepted, PledgeState::Cancelled) => true,
        (PledgeState::Executed, PledgeState::Closed) => true,
        _ => false,
    }
}

/// The paydown state changes that the lifecycle allows (staying put included).
pub open spec fn paydown_step(a: PaydownState, b: PaydownState) -> bool {
    a == b || match (a, b) {
        (PaydownState::Proposed, PaydownState::Accepted) => true,
        (PaydownState::Proposed, PaydownState::Cancelled) => true,
        (PaydownState::Accepted, PaydownState::Executed) => true,
        (PaydownState::Accepted, PaydownState::Cancelled) => true,
        _ => false,
    }
}

/// Every pledge of `a` is kept in `b`, in its state or one that the lifecycle allows next.
pub open spec fn pledges_follow(a: Map<Seq<char>, PledgeView>, b: Map<Seq<char>, PledgeView>) -> bool {
    forall|k: Seq<char>| #[trigger] a.contains_key(k) ==> b.contains_key(k) && pledge_step(a[k].state, b[k].state)
}

/// Every paydown of `a` is kept in `b`, in its state or one that the lifecycle allows next.
pub open spec fn paydowns_follow(a: Map<Seq<char>, PaydownView>, b: Map<Seq<char>, PaydownView>) -> bool {
    forall|k: Seq<char>| #[trigger] a.contains_key(k) ==> b.contains_key(k) && paydown_step(a[k].state, b[k].state)
}

pub open spec fn pledge_with_state(p: PledgeView, s: PledgeState) -> PledgeView {
    PledgeView { state: s, ..p }
}

/// A paydown carries sale terms exactly when it is a paydown with a sale, and only a
/// paydown with a sale can have a buyer's acceptance recorded.
pub open spec fn paydown_record_ok(d: PaydownView) -> bool {
    &&& (d.kind == PaydownKind::PaydownAndSell) == d.sale_info.is_some()
    &&& d.kind == PaydownKind::PaydownOnly ==> !d.parties_accepted.buyer
}

/// The ledger of a facility: its asset inventory, its pledges and its paydowns, each by id.
pub struct Ledger {
    pub assets: Store<AssetState>,
    pub pledges: Store<Pledge>,
    pub paydowns: Store<Paydown>,
}

impl Ledger {
    pub open spec fn asset_map(&self) -> Map<Seq<char>, AssetState> {
        self.assets.view()
    }

    pub open spec fn pledge_map(&self) -> Map<Seq<char>, PledgeView> {
        self.pledges.view()
    }

    pub open spec fn paydown_map(&self) -> Map<Seq<char>, PaydownView> {
        self.paydowns.view()
    }

    pub open spec fn wf(&self) -> bool {
        &&& self.assets.wf()
        &&& self.pledges.wf()
        &&& self.paydowns.wf()
        &&& forall|k: Seq<char>| #[trigger] self.pledge_map().contains_key(k) ==> self.pledge_map()[k].id == k
        &&& forall|k: Seq<char>| #[trigger] self.paydown_map().contains_key(k) ==> self.paydown_map()[k].id == k
            && paydown_record_ok(self.paydown_map()[k])
    }

    /// The inventory agrees with the pledges and paydowns (see `consistent`).
    pub open spec fn inventory_consistent(&self) -> bool {
        consistent(self.asset_map(), self.pledge_map(), self.paydown_map())
    }

    /// An empty ledger.
    pub fn new() -> (r: Ledger)
        ensures
            r.wf(),
            r.inventory_consistent(),
            r.asset_map() == Map::<Seq<char>, AssetState>::empty(),
            r.pledge_map() == Map::<Seq<char>, PledgeView>::empty(),
            r.paydown_map() == Map::<Seq<char>, PaydownView>::empty(),
    {
        Ledger { assets: Store::new(), pledges: Store::new(), paydowns: Store::new() }
    }
}

/// A copy of a list of ids.
pub fn copy_ids(v: &Vec<String>) -> (r: Vec<String>)
    ensures
        r@ == v@,
{
    let mut r: Vec<String> = Vec::new();
    let mut i: usize = 0;
    while i < v.len()
        invariant
            i <= v.len(),
            r@ == v@.subrange(0, i as int),
        decreases v.len() - i,
    {
        r.push(v[i].clone());
        assert(r@ =~= v@.subrange(0, i as int + 1));
        i = i + 1;
    }
    assert(r@ =~= v@);
    r
}

/// A copy of `p` in state `s`.
pub fn pledge_in_state(p: &Pledge, s: PledgeState) -> (r: Pledge)
    ensures
        r@ == pledge_with_state(p@, s),
{
    Pledge {
        id: p.id.clone(),
        assets: copy_ids(&p.assets),
        total_advance: p.total_advance,
        asset_marker_denom: p.asset_marker_denom.clone(),
        state: s,
    }
}

/// The map that a list of asset records describes; a later record of an id overrides an
/// earlier one.
pub open spec fn asset_records(s: Seq<Asset>) -> Map<Seq<char>, AssetState>
    decreases s.len(),
{
    if s.len() == 0 {
        Map::empty()
    } else {
        asset_records(s.drop_last()).insert(s.last().id@, s.last().state)
    }
}

/// The map that a list of pledge records describes, keyed by their ids; a later record of
/// an id overrides an earlier one.
pub open spec fn pledge_records(s: Seq<Pledge>) -> Map<Seq<char>, PledgeView>
    decreases s.len(),
{
    if s.len() == 0 {
        Map::empty()
    } else {
        pledge_records(s.drop_last()).insert(s.last().id@, s.last()@)
    }
}

/// The map that a list of paydown records describes, keyed by their ids; a later record
/// of an id overrides an earlier one.
pub open spec fn paydown_records(s: Seq<Paydown>) -> Map<Seq<char>, PaydownView>
    decreases s.len(),
{
    if s.len() == 0 {
        Map::empty()
    } else {
        paydown_records(s.drop_last()).insert(s.last().id@, s.last()@)
    }
}

impl Ledger {
    /// Rebuilds a ledger from stored records. Refused (`None`) when a paydown carries sale
    /// terms without being a paydown with a sale, or the other way round, or records a
    /// buyer's acceptance without being a paydown with a sale.
    pub fn restore(assets: &Vec<Asset>, pledges: &Vec<Pledge>, paydowns: &Vec<Paydown>) -> (r: Option<Ledger>)
        ensures
            r is None <==> exists|j: int| 0 <= j < paydowns@.len() && !paydown_record_ok(#[trigger] paydowns@[j]@),
            r matches Some(l) ==> {
                &&& l.wf()
                &&& l.asset_map() == asset_records(assets@)
                &&& l.pledge_map() == pledge_records(pledges@)
                &&& l.paydown_map() == paydown_records(paydowns@)
            },
    {
        let mut l = Ledger::new();
        let mut i: usize = 0;
        while i < paydowns.len()
            invariant
                i <= paydowns.len(),
                forall|j: int| 0 <= j < i ==> paydown_record_ok(#[trigger] paydowns@[j]@),
            decreases paydowns.len() - i,
        {
            let d = &paydowns[i];
            if (d.kind == PaydownKind::PaydownAndSell) != d.sale_info.is_some() || (d.kind
                == PaydownKind::PaydownOnly && d.parties_accepted.buyer) {
                assert(!paydown_record_ok(paydowns@[i as int]@));
                return None;
            }
            i = i + 1;
        }
        let mut i: usize = 0;
        while i < assets.len()
            invariant
                i <= assets.len(),
                l.wf(),
                l.asset_map() == asset_records(assets@.subrange(0, i as int)),
                l.pledge_map() == Map::<Seq<char>, PledgeView>::empty(),
                l.paydown_map() == Map::<Seq<char>, PaydownView>::empty(),
            decreases assets.len() - i,
        {
            l.assets.insert(assets[i].id.clone(), assets[i].state);
            assert(assets@.subrange(0, i as int + 1).drop_last() =~= assets@.subrange(0, i as int));
            i = i + 1;
        }
        assert(assets@.subrange(0, assets.len() as int) =~= assets@);
        let mut i: usize = 0;
        while i < pledges.len()
            invariant
                i <= pledges.len(),
                l.wf(),
                l.asset_map() == asset_records(assets@),
                l.pledge_map() == pledge_records(pledges@.subrange(0, i as int)),
                l.paydown_map() == Map::<Seq<char>, PaydownView>::empty(),
            decreases pledges.len() - i,
        {
            let p = pledge_in_state(&pledges[i], pledges[i].state);
            assert(p@ =~= pledges@[i as int]@);
            l.pledges.insert(pledges[i].id.clone(), p);
            assert(pledges@.subrange(0, i as int + 1).drop_last() =~= pledges@.subrange(0, i as int));
            i = i + 1;
        }
        assert(pledges@.subrange(0, pledges.len() as int) =~= pledges@);
        let mut i: usize = 0;
        while i < paydowns.len()
            invariant
                i <= paydowns.len(),
                l.wf(),
                forall|j: int| 0 <= j < paydowns.len() ==> paydown_record_ok(#[trigger] paydowns@[j]@),
                l.asset_map() == asset_records(assets@),
                l.pledge_map() == pledge_records(pledges@),
                l.paydown_map() == paydown_records(paydowns@.subrange(0, i as int)),
            decreases paydowns.len() - i,
        {
            let d = copy_paydown(&paydowns[i], paydowns[i].state, paydowns[i].parties_accepted);
            assert(d@ =~= paydowns@[i as int]@);
            l.paydowns.insert(paydowns[i].id.clone(), d);
            assert(paydowns@.subrange(0, i as int + 1).drop_last() =~= paydowns@.subrange(0, i as int));
            i = i + 1;
        }
        assert(paydowns@.subrange(0, paydowns.len() as int) =~= paydowns@);
        Some(l)
    }
}

} // verus!
