use vstd::prelude::*;

use crate::consistency::{
    lemma_cancel_paydown, lemma_execute_paydown, lemma_paydown_restate, lemma_propose_paydown,
};
use crate::escrow::{find_marker_address, has_escrow_grant, marker_address_of};
use crate::inventory::{
    assets_in_inventory, held_ids, in_state, remove_assets, set_assets_state, with_states,
};
use crate::ledger::{
    copy_ids, escrow_ok, funds_match, paydowns_follow, pledge_in_state, pledge_with_state,
    pledges_follow, Context, Ledger,
};
use crate::pledge::{asset_marker_retire, asset_marker_retire_msgs};
use crate::store::Store;
use crate::types::{
    id_views, msg_views, AssetState, Coin, ContractError, ContractParty, LedgerAction, Marker,
    MsgView, PartiesAccepted, Paydown, PaydownKind, PaydownSaleInfo, PaydownState, PaydownView,
    Pledge, PledgeState, PledgeView, SettlementMsg,
};

verus! {

/// What a paydown proposal hands back: the instructions to carry out, and the executed
/// pledges that hold any of the paydown's assets.
#[derive(Debug)]
pub struct PaydownProposal {
    pub msgs: Vec<SettlementMsg>,
    pub affected_pledges: Vec<String>,
}

/// What a paydown execution hands back: the instructions to carry out, the executed
/// pledges that held any of the paydown's assets, and those of them that it closed.
#[derive(Debug)]
pub struct PaydownExecution {
    pub msgs: Vec<SettlementMsg>,
    pub affected_pledges: Vec<String>,
    pub closed_pledges: Vec<String>,
}

/// Some asset of `p` is one of `assets`.
pub open spec fn references_any(p: PledgeView, assets: Seq<Seq<char>>) -> bool {
    exists|j: int| 0 <= j < p.assets.len() && assets.contains(#[trigger] p.assets[j])
}

/// The pledge keyed `k` holds one of `assets`, and is in `state` where one is given.
pub open spec fn references_assets(
    pm: Map<Seq<char>, PledgeView>,
    assets: Seq<Seq<char>>,
    state: Option<PledgeState>,
) -> spec_fn(Seq<char>) -> bool {
    |k: Seq<char>|
        pm.contains_key(k) && match state {
            Some(s) => pm[k].state == s,
            None => true,
        } && references_any(pm[k], assets)
}

/// No asset of `p` is still held in `inventory`.
pub open spec fn closes(p: PledgeView, inventory: Map<Seq<char>, AssetState>) -> bool {
    forall|j: int| 0 <= j < p.assets.len() ==> !held_ids(inventory).contains(#[trigger] p.assets[j])
}

/// The pledge keyed `k` is executed, holds one of `assets`, and has nothing left in `inventory`.
pub open spec fn closed_by(
    pm: Map<Seq<char>, PledgeView>,
    assets: Seq<Seq<char>>,
    inventory: Map<Seq<char>, AssetState>,
) -> spec_fn(Seq<char>) -> bool {
    |k: Seq<char>| references_assets(pm, assets, Some(PledgeState::Executed))(k) && closes(pm[k], inventory)
}

/// `pm` with each pledge keyed in `ids` closed.
pub open spec fn close_pledges(pm: Map<Seq<char>, PledgeView>, ids: Set<Seq<char>>) -> Map<Seq<char>, PledgeView> {
    Map::new(
        |k: Seq<char>| pm.contains_key(k),
        |k: Seq<char>|
            if ids.contains(k) {
                pledge_with_state(pm[k], PledgeState::Closed)
            } else {
                pm[k]
            },
    )
}

/// The instructions that retire the asset markers of the pledges keyed in `ids`, in order.
pub open spec fn retire_all(
    pm: Map<Seq<char>, PledgeView>,
    ids: Seq<Seq<char>>,
    markers: Seq<Marker>,
    originator: Seq<char>,
) -> Seq<MsgView>
    decreases ids.len(),
{
    if ids.len() == 0 {
        seq![]
    } else {
        let denom = pm[ids.last()].asset_marker_denom;
        retire_all(pm, ids.drop_last(), markers, originator) + asset_marker_retire(
            denom,
            marker_address_of(markers, denom)->Some_0,
            originator,
        )
    }
}

pub open spec fn paydown_with(d: PaydownView, state: PaydownState, parties: PartiesAccepted) -> PaydownView {
    PaydownView { state, parties_accepted: parties, ..d }
}

/// `parties` holds every party that a paydown of `kind` needs.
pub open spec fn fully_accepted(kind: PaydownKind, parties: PartiesAccepted) -> bool {
    parties.warehouse && (kind == PaydownKind::PaydownOnly || parties.buyer)
}

pub open spec fn has_accepted(parties: PartiesAccepted, party: ContractParty) -> bool {
    match party {
        ContractParty::Warehouse => parties.warehouse,
        ContractParty::Buyer => parties.buyer,
    }
}

pub open spec fn with_party(parties: PartiesAccepted, party: ContractParty) -> PartiesAccepted {
    match party {
        ContractParty::Warehouse => PartiesAccepted { warehouse: true, ..parties },
        ContractParty::Buyer => PartiesAccepted { buyer: true, ..parties },
    }
}

/// The party in whose name `sender` accepts paydown `d`, if any.
pub open spec fn accepting_party(ctx: &Context, d: PaydownView, sender: Seq<char>) -> Option<ContractParty> {
    if ctx.facility.warehouse@ == sender {
        Some(ContractParty::Warehouse)
    } else if d.kind == PaydownKind::PaydownAndSell && d.sale_info is Some && d.sale_info->Some_0.buyer@
        == sender {
        Some(ContractParty::Buyer)
    } else {
        None
    }
}

/// Whether `s` is one of `v`.
pub fn contains_id(v: &Vec<String>, s: &String) -> (r: bool)
    ensures
        r == id_views(v@).contains(s@),
{
    let mut i: usize = 0;
    while i < v.len()
        invariant
            i <= v.len(),
            forall|j: int| 0 <= j < i ==> v@[j]@ != s@,
        decreases v.len() - i,
    {
        if v[i] == *s {
            assert(id_views(v@)[i as int] == s@);
            return true;
        }
        i = i + 1;
    }
    assert(!id_views(v@).contains(s@)) by {
        if id_views(v@).contains(s@) {
            let j = id_views(v@).index_of(s@);
            assert(v@[j]@ == s@);
        }
    }
    false
}

/// Whether some id of `ids` is one of `assets`.
pub fn shares_any(ids: &Vec<String>, assets: &Vec<String>) -> (r: bool)
    ensures
        r == exists|j: int| 0 <= j < ids@.len() && id_views(assets@).contains(#[trigger] id_views(ids@)[j]),
{
    let mut i: usize = 0;
    while i < ids.len()
        invariant
            i <= ids.len(),
            forall|j: int| 0 <= j < i ==> !id_views(assets@).contains(#[trigger] id_views(ids@)[j]),
        decreases ids.len() - i,
    {
        if contains_id(assets, &ids[i]) {
            assert(id_views(assets@).contains(id_views(ids@)[i as int]));
            return true;
        }
        i = i + 1;
    }
    false
}

/// The ids, in store order, of the pledges that hold any of `assets` and are in `state`
/// where one is given.
pub fn find_pledge_ids_with_assets(pledges: &Store<Pledge>, assets: &Vec<String>, state: Option<PledgeState>) -> (r: Vec<String>)
    requires
        pledges.wf(),
    ensures
        id_views(r@) == pledges.key_seq().filter(references_assets(pledges.view(), id_views(assets@), state)),
{
    let ghost pred = references_assets(pledges.view(), id_views(assets@), state);
    let ghost ks = pledges.key_seq();
    let mut r: Vec<String> = Vec::new();
    let n = pledges.len();
    let mut t: usize = 0;
    while t < n
        invariant
            t <= n,
            n == ks.len(),
            ks == pledges.key_seq(),
            pledges.wf(),
            pred == references_assets(pledges.view(), id_views(assets@), state),
            id_views(r@) == ks.subrange(0, t as int).filter(pred),
        decreases n - t,
    {
        let p = pledges.value_at(t);
        let state_ok = match state {
            Some(s) => p.state == s,
            None => true,
        };
        let hit = state_ok && shares_any(&p.assets, assets);
        proof {
            assert(ks.subrange(0, t as int + 1) =~= ks.subrange(0, t as int).push(ks[t as int]));
            ks.subrange(0, t as int).lemma_filter_push(ks[t as int], pred);
            pledges.lemma_view_at(t as int);
            let pv = pledges.view()[ks[t as int]];
            assert(pv == p@);
            if pred(ks[t as int]) {
                let j = choose|j: int| 0 <= j < pv.assets.len() && id_views(assets@).contains(#[trigger] pv.assets[j]);
                assert(id_views(p.assets@)[j] == pv.assets[j]);
            }
            if hit {
                let j = choose|j: int| 0 <= j < p.assets@.len() && id_views(assets@).contains(#[trigger] id_views(p.assets@)[j]);
                assert(pv.assets[j] == id_views(p.assets@)[j]);
            }
            assert(hit == pred(ks[t as int]));
        }
        if hit {
            let ghost pre = r@;
            r.push(pledges.key_at(t).clone());
            assert(id_views(r@) =~= id_views(pre).push(ks[t as int]));
        }
        t = t + 1;
    }
    assert(ks.subrange(0, n as int) =~= ks);
    r
}

/// Whether some id of `ids` is still held once the assets `removed` have left `assets`.
pub fn any_held_after(assets: &Store<AssetState>, removed: &Vec<String>, ids: &Vec<String>) -> (r: bool)
    requires
        assets.wf(),
    ensures
        r == exists|j: int| 0 <= j < ids@.len() && held_ids(assets.view().remove_keys(id_views(removed@).to_set())).contains(#[trigger] id_views(ids@)[j]),
{
    let ghost inv = assets.view().remove_keys(id_views(removed@).to_set());
    let mut i: usize = 0;
    while i < ids.len()
        invariant
            i <= ids.len(),
            assets.wf(),
            inv == assets.view().remove_keys(id_views(removed@).to_set()),
            forall|j: int| 0 <= j < i ==> !held_ids(inv).contains(#[trigger] id_views(ids@)[j]),
        decreases ids.len() - i,
    {
        let held = match assets.get(&ids[i]) {
            Some(st) => (*st == AssetState::Inventory || *st == AssetState::PaydownProposed) && !contains_id(removed, &ids[i]),
            None => false,
        };
        assert(id_views(ids@)[i as int] == ids@[i as int]@);
        assert(held == held_ids(inv).contains(id_views(ids@)[i as int]));
        if held {
            return true;
        }
        i = i + 1;
    }
    false
}

/// A copy of `d` in state `state`, with `parties` as the parties that have accepted it.
pub fn copy_paydown(d: &Paydown, state: PaydownState, parties: PartiesAccepted) -> (r: Paydown)
    ensures
        r@ == paydown_with(d@, state, parties),
{
    let sale_info = match &d.sale_info {
        Some(s) => Some(PaydownSaleInfo { buyer: s.buyer.clone(), price: s.price }),
        None => None,
    };
    Paydown {
        id: d.id.clone(),
        assets: copy_ids(&d.assets),
        total_paydown: d.total_paydown,
        kind: d.kind,
        state,
        parties_accepted: parties,
        sale_info,
    }
}

impl Ledger {
    /// The error, if any, with which a paydown proposal is refused.
    pub open spec fn propose_paydown_error(
        &self,
        ctx: &Context,
        funds: Seq<Coin>,
        id: String,
        assets: Seq<String>,
        total_paydown: u64,
    ) -> Option<ContractError> {
        if self.paydown_map().contains_key(id@) {
            Some(ContractError::PaydownAlreadyExists { id })
        } else if !(forall|j: int| 0 <= j < assets.len() ==> in_state(self.asset_map(), #[trigger] assets[j]@, Some(AssetState::Inventory))) {
            Some(ContractError::AssetsNotInInventory)
        } else if !escrow_ok(ctx) {
            Some(ContractError::MissingEscrowMarkerGrant)
        } else if funds.len() == 0 {
            Some(ContractError::MissingPaydownFunds)
        } else if !funds_match(funds, total_paydown, ctx.facility.stablecoin_denom@) {
            Some(
                ContractError::InsufficientPaydownFunds {
                    need: total_paydown as u128,
                    need_denom: ctx.facility.stablecoin_denom,
                    received: funds[0].amount,
                    received_denom: funds[0].denom,
                },
            )
        } else {
            None
        }
    }

    /// What a successful proposal of paydown `d` leaves and hands back.
    pub open spec fn paydown_proposed(
        old_ledger: &Ledger,
        new_ledger: &Ledger,
        ctx: &Context,
        d: PaydownView,
        out: &PaydownProposal,
    ) -> bool {
        &&& msg_views(out.msgs@) == seq![
            MsgView::BankSend {
                to_address: ctx.escrow.address@,
                amount: d.total_paydown as u128,
                denom: ctx.facility.stablecoin_denom@,
            },
        ]
        &&& id_views(out.affected_pledges@) == old_ledger.pledges.key_seq().filter(
            references_assets(old_ledger.pledge_map(), d.assets, Some(PledgeState::Executed)),
        )
        &&& new_ledger.paydown_map() == old_ledger.paydown_map().insert(d.id, d)
        &&& new_ledger.asset_map() == with_states(old_ledger.asset_map(), d.assets, AssetState::PaydownProposed)
        &&& new_ledger.pledge_map() == old_ledger.pledge_map()
        &&& new_ledger.pledges.key_seq() == old_ledger.pledges.key_seq()
    }

    fn propose(
        &mut self,
        ctx: &Context,
        funds: &Vec<Coin>,
        id: String,
        assets: Vec<String>,
        total_paydown: u64,
        kind: PaydownKind,
        sale_info: Option<PaydownSaleInfo>,
    ) -> (r: Result<PaydownProposal, ContractError>)
        requires
            old(self).wf(),
            (kind == PaydownKind::PaydownAndSell) == sale_info.is_some(),
        ensures
            final(self).wf(),
            pledges_follow(old(self).pledge_map(), final(self).pledge_map()),
            paydowns_follow(old(self).paydown_map(), final(self).paydown_map()),
            old(self).inventory_consistent() ==> final(self).inventory_consistent(),
            match old(self).propose_paydown_error(ctx, funds@, id, assets@, total_paydown) {
                Some(e) => r == Err::<PaydownProposal, ContractError>(e) && *final(self) == *old(self),
                None => r matches Ok(out) && Ledger::paydown_proposed(
                    old(self),
                    final(self),
                    ctx,
                    PaydownView {
                        id: id@,
                        assets: id_views(assets@),
                        total_paydown,
                        kind,
                        state: PaydownState::Proposed,
                        parties_accepted: PartiesAccepted { warehouse: false, buyer: false },
                        sale_info,
                    },
                    &out,
                ),
            },
    {
        if self.paydowns.contains(&id) {
            return Err(ContractError::PaydownAlreadyExists { id });
        }
        if !assets_in_inventory(&self.assets, Some(AssetState::Inventory), &assets) {
            return Err(ContractError::AssetsNotInInventory);
        }
        if !has_escrow_grant(&ctx.escrow, &ctx.contract) {
            return Err(ContractError::MissingEscrowMarkerGrant);
        }
        if funds.len() == 0 {
            return Err(ContractError::MissingPaydownFunds);
        }
        let coin = &funds[0];
        if coin.denom != ctx.facility.stablecoin_denom || coin.amount != total_paydown as u128 {
            return Err(
                ContractError::InsufficientPaydownFunds {
                    need: total_paydown as u128,
                    need_denom: ctx.facility.stablecoin_denom.clone(),
                    received: coin.amount,
                    received_denom: coin.denom.clone(),
                },
            );
        }
        let msgs = vec![
            SettlementMsg::BankSend {
                to_address: ctx.escrow.address.clone(),
                amount: total_paydown as u128,
                denom: ctx.facility.stablecoin_denom.clone(),
            },
        ];
        assert(msg_views(msgs@) =~= seq![
            MsgView::BankSend {
                to_address: ctx.escrow.address@,
                amount: total_paydown as u128,
                denom: ctx.facility.stablecoin_denom@,
            },
        ]);
        let affected_pledges = find_pledge_ids_with_assets(&self.pledges, &assets, Some(PledgeState::Executed));
        let ghost pre = *self;
        let ghost dv = PaydownView {
            id: id@,
            assets: id_views(assets@),
            total_paydown,
            kind,
            state: PaydownState::Proposed,
            parties_accepted: PartiesAccepted { warehouse: false, buyer: false },
            sale_info,
        };
        proof {
            if pre.inventory_consistent() {
                assert forall|j: int| 0 <= j < dv.assets.len() implies crate::consistency::reserved(pre.asset_map(), #[trigger] dv.assets[j], AssetState::Inventory) by {
                    assert(in_state(pre.asset_map(), assets@[j]@, Some(AssetState::Inventory)));
                }
                lemma_propose_paydown(pre.asset_map(), pre.pledge_map(), pre.paydown_map(), id@, dv);
            }
        }
        set_assets_state(&mut self.assets, &assets, AssetState::PaydownProposed);
        let key = id.clone();
        let paydown = Paydown {
            id,
            assets,
            total_paydown,
            kind,
            state: PaydownState::Proposed,
            parties_accepted: PartiesAccepted { warehouse: false, buyer: false },
            sale_info,
        };
        self.paydowns.insert(key, paydown);
        Ok(PaydownProposal { msgs, affected_pledges })
    }

    /// Proposes paydown `id` of `assets`, all free in the inventory, for `total_paydown`,
    /// which must come attached: reserves the assets and forwards the funds to escrow.
    pub fn propose_paydown(
        &mut self,
        ctx: &Context,
        funds: &Vec<Coin>,
        id: String,
        assets: Vec<String>,
        total_paydown: u64,
    ) -> (r: Result<PaydownProposal, ContractError>)
        requires
            old(self).wf(),
        ensures
            final(self).wf(),
            pledges_follow(old(self).pledge_map(), final(self).pledge_map()),
            paydowns_follow(old(self).paydown_map(), final(self).paydown_map()),
            old(self).inventory_consistent() ==> final(self).inventory_consistent(),
            match old(self).propose_paydown_error(ctx, funds@, id, assets@, total_paydown) {
                Some(e) => r == Err::<PaydownProposal, ContractError>(e) && *final(self) == *old(self),
                None => r matches Ok(out) && Ledger::paydown_proposed(
                    old(self),
                    final(self),
                    ctx,
                    PaydownView {
                        id: id@,
                        assets: id_views(assets@),
                        total_paydown,
                        kind: PaydownKind::PaydownOnly,
                        state: PaydownState::Proposed,
                        parties_accepted: PartiesAccepted { warehouse: false, buyer: false },
                        sale_info: None,
                    },
                    &out,
                ),
            },
    {
        self.propose(ctx, funds, id, assets, total_paydown, PaydownKind::PaydownOnly, None)
    }

    /// As `propose_paydown`, with the assets sold to `buyer` for `purchase_price`.
    pub fn propose_paydown_and_sell(
        &mut self,
        ctx: &Context,
        funds: &Vec<Coin>,
        id: String,
        assets: Vec<String>,
        total_paydown: u64,
        buyer: String,
        purchase_price: u64,
    ) -> (r: Result<PaydownProposal, ContractError>)
        requires
            old(self).wf(),
        ensures
            final(self).wf(),
            pledges_follow(old(self).pledge_map(), final(self).pledge_map()),
            paydowns_follow(old(self).paydown_map(), final(self).paydown_map()),
            old(self).inventory_consistent() ==> final(self).inventory_consistent(),
            match old(self).propose_paydown_error(ctx, funds@, id, assets@, total_paydown) {
                Some(e) => r == Err::<PaydownProposal, ContractError>(e) && *final(self) == *old(self),
                None => r matches Ok(out) && Ledger::paydown_proposed(
                    old(self),
                    final(self),
                    ctx,
                    PaydownView {
                        id: id@,
                        assets: id_views(assets@),
                        total_paydown,
                        kind: PaydownKind::PaydownAndSell,
                        state: PaydownState::Proposed,
                        parties_accepted: PartiesAccepted { warehouse: false, buyer: false },
                        sale_info: Some(PaydownSaleInfo { buyer, price: purchase_price }),
                    },
                    &out,
                ),
            },
    {
        let sale = PaydownSaleInfo { buyer, price: purchase_price };
        self.propose(ctx, funds, id, assets, total_paydown, PaydownKind::PaydownAndSell, Some(sale))
    }
    /// The error, if any, with which `accept_paydown` refuses its arguments.
    pub open spec fn accept_paydown_error(&self, ctx: &Context, sender: Seq<char>, funds: Seq<Coin>, id: String) -> Option<ContractError> {
        if !self.paydown_map().contains_key(id@) {
            Some(ContractError::PaydownNotFound { id })
        } else {
            let d = self.paydown_map()[id@];
            match accepting_party(ctx, d, sender) {
                None => Some(ContractError::Unauthorized),
                Some(party) => if has_accepted(d.parties_accepted, party) {
                    Some(ContractError::PaydownPartyAlreadyAccepted { party })
                } else if d.state != PaydownState::Proposed {
                    Some(ContractError::StateError { action: LedgerAction::AcceptPaydown })
                } else if !escrow_ok(ctx) {
                    Some(ContractError::MissingEscrowMarkerGrant)
                } else if party == ContractParty::Buyer && funds.len() == 0 {
                    Some(ContractError::MissingPurchaseFunds)
                } else if party == ContractParty::Buyer && !funds_match(
                    funds,
                    d.sale_info->Some_0.price,
                    ctx.facility.stablecoin_denom@,
                ) {
                    Some(
                        ContractError::InsufficientPurchaseFunds {
                            need: d.sale_info->Some_0.price as u128,
                            need_denom: ctx.facility.stablecoin_denom,
                            received: funds[0].amount,
                            received_denom: funds[0].denom,
                        },
                    )
                } else {
                    None
                },
            }
        }
    }

    /// What accepting paydown `d` in the name of `party` instructs: the buyer's purchase
    /// funds go to escrow; the warehouse's acceptance moves no funds.
    pub open spec fn accept_paydown_msgs(ctx: &Context, d: PaydownView, party: ContractParty) -> Seq<MsgView> {
        if party == ContractParty::Buyer {
            seq![
                MsgView::BankSend {
                    to_address: ctx.escrow.address@,
                    amount: d.sale_info->Some_0.price as u128,
                    denom: ctx.facility.stablecoin_denom@,
                },
            ]
        } else {
            seq![]
        }
    }

    /// Paydown `d` once `party` has accepted it: the party is recorded, and the paydown
    /// becomes `Accepted` once every party that its kind needs has accepted.
    pub open spec fn accepted_by(d: PaydownView, party: ContractParty) -> PaydownView {
        let parties = with_party(d.parties_accepted, party);
        paydown_with(
            d,
            if fully_accepted(d.kind, parties) {
                PaydownState::Accepted
            } else {
                PaydownState::Proposed
            },
            parties,
        )
    }

    /// Accepts proposed paydown `id` in the name of `sender`: the warehouse, or, for a paydown
    /// with a sale, the buyer, who must attach exactly the purchase price.
    pub fn accept_paydown(&mut self, ctx: &Context, sender: &String, funds: &Vec<Coin>, id: &String) -> (r: Result<Vec<SettlementMsg>, ContractError>)
        requires
            old(self).wf(),
        ensures
            final(self).wf(),
            pledges_follow(old(self).pledge_map(), final(self).pledge_map()),
            paydowns_follow(old(self).paydown_map(), final(self).paydown_map()),
            old(self).inventory_consistent() ==> final(self).inventory_consistent(),
            match old(self).accept_paydown_error(ctx, sender@, funds@, *id) {
                Some(e) => r == Err::<Vec<SettlementMsg>, ContractError>(e) && *final(self) == *old(self),
                None => {
                    let d = old(self).paydown_map()[id@];
                    let party = accepting_party(ctx, d, sender@)->Some_0;
                    &&& r matches Ok(msgs) && msg_views(msgs@) == Ledger::accept_paydown_msgs(ctx, d, party)
                    &&& final(self).paydown_map() == old(self).paydown_map().insert(id@, Ledger::accepted_by(d, party))
                    &&& !has_accepted(d.parties_accepted, party)
                    &&& d.kind == PaydownKind::PaydownOnly ==> final(self).paydown_map()[id@].parties_accepted
                        == PartiesAccepted { warehouse: true, buyer: false }
                    &&& final(self).pledge_map() == old(self).pledge_map()
                    &&& final(self).asset_map() == old(self).asset_map()
                },
            },
    {
        let i = match self.paydowns.find(id) {
            Some(i) => i,
            None => {
                return Err(ContractError::PaydownNotFound { id: id.clone() });
            },
        };
        let d = self.paydowns.value_at(i);
        let is_buyer = match &d.sale_info {
            Some(s) => d.kind == PaydownKind::PaydownAndSell && s.buyer == *sender,
            None => false,
        };
        let party = if ctx.facility.warehouse == *sender {
            ContractParty::Warehouse
        } else if is_buyer {
            ContractParty::Buyer
        } else {
            return Err(ContractError::Unauthorized);
        };
        let already = match party {
            ContractParty::Warehouse => d.parties_accepted.warehouse,
            ContractParty::Buyer => d.parties_accepted.buyer,
        };
        if already {
            return Err(ContractError::PaydownPartyAlreadyAccepted { party });
        }
        if d.state != PaydownState::Proposed {
            return Err(ContractError::StateError { action: LedgerAction::AcceptPaydown });
        }
        if !has_escrow_grant(&ctx.escrow, &ctx.contract) {
            return Err(ContractError::MissingEscrowMarkerGrant);
        }
        let mut msgs: Vec<SettlementMsg> = Vec::new();
        if party == ContractParty::Buyer {
            let price = match &d.sale_info {
                Some(s) => s.price,
                None => 0,
            };
            if funds.len() == 0 {
                return Err(ContractError::MissingPurchaseFunds);
            }
            let coin = &funds[0];
            if coin.denom != ctx.facility.stablecoin_denom || coin.amount != price as u128 {
                return Err(
                    ContractError::InsufficientPurchaseFunds {
                        need: price as u128,
                        need_denom: ctx.facility.stablecoin_denom.clone(),
                        received: coin.amount,
                        received_denom: coin.denom.clone(),
                    },
                );
            }
            msgs.push(
                SettlementMsg::BankSend {
                    to_address: ctx.escrow.address.clone(),
                    amount: price as u128,
                    denom: ctx.facility.stablecoin_denom.clone(),
                },
            );
        }
        assert(msg_views(msgs@) =~= Ledger::accept_paydown_msgs(ctx, d@, party));
        let parties = match party {
            ContractParty::Warehouse => PartiesAccepted { warehouse: true, buyer: d.parties_accepted.buyer },
            ContractParty::Buyer => PartiesAccepted { warehouse: d.parties_accepted.warehouse, buyer: true },
        };
        let done = parties.warehouse && (d.kind == PaydownKind::PaydownOnly || parties.buyer);
        let state = if done {
            PaydownState::Accepted
        } else {
            PaydownState::Proposed
        };
        let updated = copy_paydown(d, state, parties);
        proof {
            if self.inventory_consistent() {
                lemma_paydown_restate(self.asset_map(), self.pledge_map(), self.paydown_map(), id@, updated@);
            }
        }
        self.paydowns.update_at(i, updated);
        Ok(msgs)
    }

    /// The error, if any, with which `cancel_paydown` refuses its arguments.
    pub open spec fn cancel_paydown_error(&self, ctx: &Context, id: String) -> Option<ContractError> {
        if !self.paydown_map().contains_key(id@) {
            Some(ContractError::PaydownNotFound { id })
        } else if self.paydown_map()[id@].state != PaydownState::Proposed && self.paydown_map()[id@].state
            != PaydownState::Accepted {
            Some(ContractError::StateError { action: LedgerAction::CancelPaydown })
        } else if !escrow_ok(ctx) {
            Some(ContractError::MissingEscrowMarkerGrant)
        } else {
            None
        }
    }

    /// What cancelling paydown `d` instructs: the paydown funds go back from escrow to the
    /// originator, and the purchase funds to the buyer if the buyer had accepted.
    pub open spec fn cancel_paydown_msgs(ctx: &Context, d: PaydownView) -> Seq<MsgView> {
        let refund = seq![
            MsgView::WithdrawCoins {
                marker_denom: ctx.escrow.denom@,
                amount: d.total_paydown as u128,
                denom: ctx.facility.stablecoin_denom@,
                recipient: ctx.facility.originator@,
            },
        ];
        if d.kind == PaydownKind::PaydownAndSell && d.parties_accepted.buyer {
            refund.push(
                MsgView::WithdrawCoins {
                    marker_denom: ctx.escrow.denom@,
                    amount: d.sale_info->Some_0.price as u128,
                    denom: ctx.facility.stablecoin_denom@,
                    recipient: d.sale_info->Some_0.buyer@,
                },
            )
        } else {
            refund
        }
    }

    /// Cancels paydown `id` while it is proposed or accepted: refunds what escrow holds for
    /// it and frees its assets.
    pub fn cancel_paydown(&mut self, ctx: &Context, id: &String) -> (r: Result<Vec<SettlementMsg>, ContractError>)
        requires
            old(self).wf(),
        ensures
            final(self).wf(),
            pledges_follow(old(self).pledge_map(), final(self).pledge_map()),
            paydowns_follow(old(self).paydown_map(), final(self).paydown_map()),
            old(self).inventory_consistent() ==> final(self).inventory_consistent(),
            match old(self).cancel_paydown_error(ctx, *id) {
                Some(e) => r == Err::<Vec<SettlementMsg>, ContractError>(e) && *final(self) == *old(self),
                None => {
                    let d = old(self).paydown_map()[id@];
                    &&& r matches Ok(msgs) && msg_views(msgs@) == Ledger::cancel_paydown_msgs(ctx, d)
                    &&& final(self).paydown_map() == old(self).paydown_map().insert(
                        id@,
                        paydown_with(d, PaydownState::Cancelled, d.parties_accepted),
                    )
                    &&& final(self).asset_map() == with_states(old(self).asset_map(), d.assets, AssetState::Inventory)
                    &&& final(self).pledge_map() == old(self).pledge_map()
                },
            },
    {
        let i = match self.paydowns.find(id) {
            Some(i) => i,
            None => {
                return Err(ContractError::PaydownNotFound { id: id.clone() });
            },
        };
        let d = self.paydowns.value_at(i);
        if d.state != PaydownState::Proposed && d.state != PaydownState::Accepted {
            return Err(ContractError::StateError { action: LedgerAction::CancelPaydown });
        }
        if !has_escrow_grant(&ctx.escrow, &ctx.contract) {
            return Err(ContractError::MissingEscrowMarkerGrant);
        }
        let mut msgs = vec![
            SettlementMsg::WithdrawCoins {
                marker_denom: ctx.escrow.denom.clone(),
                amount: d.total_paydown as u128,
                denom: ctx.facility.stablecoin_denom.clone(),
                recipient: ctx.facility.originator.clone(),
            },
        ];
        if d.kind == PaydownKind::PaydownAndSell && d.parties_accepted.buyer {
            match &d.sale_info {
                Some(s) => {
                    msgs.push(
                        SettlementMsg::WithdrawCoins {
                            marker_denom: ctx.escrow.denom.clone(),
                            amount: s.price as u128,
                            denom: ctx.facility.stablecoin_denom.clone(),
                            recipient: s.buyer.clone(),
                        },
                    );
                },
                None => {},
            }
        }
        assert(msg_views(msgs@) =~= Ledger::cancel_paydown_msgs(ctx, d@));
        let ids = copy_ids(&d.assets);
        let updated = copy_paydown(d, PaydownState::Cancelled, d.parties_accepted);
        proof {
            if self.inventory_consistent() {
                lemma_cancel_paydown(self.asset_map(), self.pledge_map(), self.paydown_map(), id@, updated@);
            }
        }
        self.paydowns.update_at(i, updated);
        set_assets_state(&mut self.assets, &ids, AssetState::Inventory);
        Ok(msgs)
    }
    /// The error, if any, with which `execute_paydown` refuses its arguments before it
    /// looks at the pledges.
    pub open spec fn execute_paydown_error(&self, ctx: &Context, id: String) -> Option<ContractError> {
        if !self.paydown_map().contains_key(id@) {
            Some(ContractError::PaydownNotFound { id })
        } else if self.paydown_map()[id@].state != PaydownState::Accepted {
            Some(ContractError::StateError { action: LedgerAction::ExecutePaydown })
        } else if !escrow_ok(ctx) {
            Some(ContractError::MissingEscrowMarkerGrant)
        } else {
            None
        }
    }

    /// The payouts of executing paydown `d`: the paydown to the warehouse and, with a sale,
    /// the purchase price to the originator, both from escrow.
    pub open spec fn paydown_payouts(ctx: &Context, d: PaydownView) -> Seq<MsgView> {
        let paydown = seq![
            MsgView::WithdrawCoins {
                marker_denom: ctx.escrow.denom@,
                amount: d.total_paydown as u128,
                denom: ctx.facility.stablecoin_denom@,
                recipient: ctx.facility.warehouse@,
            },
        ];
        if d.kind == PaydownKind::PaydownAndSell {
            paydown.push(
                MsgView::WithdrawCoins {
                    marker_denom: ctx.escrow.denom@,
                    amount: d.sale_info->Some_0.price as u128,
                    denom: ctx.facility.stablecoin_denom@,
                    recipient: ctx.facility.originator@,
                },
            )
        } else {
            paydown
        }
    }

    /// The inventory once paydown `d` has taken its assets out.
    pub open spec fn inventory_after(&self, d: PaydownView) -> Map<Seq<char>, AssetState> {
        self.asset_map().remove_keys(d.assets.to_set())
    }

    /// The pledges, in store order, that executing paydown `d` closes.
    pub open spec fn pledges_closed_by(&self, d: PaydownView) -> Seq<Seq<char>> {
        self.pledges.key_seq().filter(closed_by(self.pledge_map(), d.assets, self.inventory_after(d)))
    }

    /// What a successful execution of paydown `d` leaves and hands back.
    pub open spec fn paydown_executed(
        old_ledger: &Ledger,
        new_ledger: &Ledger,
        ctx: &Context,
        markers: Seq<Marker>,
        d: PaydownView,
        out: &PaydownExecution,
    ) -> bool {
        let closed = old_ledger.pledges_closed_by(d);
        &&& msg_views(out.msgs@) == Ledger::paydown_payouts(ctx, d) + retire_all(
            old_ledger.pledge_map(),
            closed,
            markers,
            ctx.facility.originator@,
        )
        &&& id_views(out.affected_pledges@) == old_ledger.pledges.key_seq().filter(
            references_assets(old_ledger.pledge_map(), d.assets, Some(PledgeState::Executed)),
        )
        &&& id_views(out.closed_pledges@) == closed
        &&& new_ledger.paydown_map() == old_ledger.paydown_map().insert(
            d.id,
            paydown_with(d, PaydownState::Executed, d.parties_accepted),
        )
        &&& new_ledger.asset_map() == old_ledger.inventory_after(d)
        &&& new_ledger.pledge_map() == close_pledges(old_ledger.pledge_map(), closed.to_set())
    }

    /// Executes accepted paydown `id`: pays out from escrow, takes its assets out of the
    /// inventory, and closes each executed pledge of those assets that has nothing left in
    /// the inventory, retiring its asset marker (looked up in `markers`).
    pub fn execute_paydown(&mut self, ctx: &Context, markers: &Vec<Marker>, id: &String) -> (r: Result<PaydownExecution, ContractError>)
        requires
            old(self).wf(),
        ensures
            final(self).wf(),
            pledges_follow(old(self).pledge_map(), final(self).pledge_map()),
            paydowns_follow(old(self).paydown_map(), final(self).paydown_map()),
            old(self).inventory_consistent() ==> final(self).inventory_consistent(),
            match old(self).execute_paydown_error(ctx, *id) {
                Some(e) => r == Err::<PaydownExecution, ContractError>(e) && *final(self) == *old(self),
                None => {
                    let d = old(self).paydown_map()[id@];
                    let closed = old(self).pledges_closed_by(d);
                    if exists|m: int| 0 <= m < closed.len() && marker_address_of(markers@, old(self).pledge_map()[#[trigger] closed[m]].asset_marker_denom) is None {
                        &&& r matches Err(ContractError::AssetMarkerNotFound { pledge_id }) && closed.contains(pledge_id@)
                            && marker_address_of(markers@, old(self).pledge_map()[pledge_id@].asset_marker_denom) is None
                        &&& *final(self) == *old(self)
                    } else {
                        r matches Ok(out) && Ledger::paydown_executed(old(self), final(self), ctx, markers@, d, &out)
                    }
                },
            },
    {
        let i = match self.paydowns.find(id) {
            Some(i) => i,
            None => {
                return Err(ContractError::PaydownNotFound { id: id.clone() });
            },
        };
        let d = self.paydowns.value_at(i);
        if d.state != PaydownState::Accepted {
            return Err(ContractError::StateError { action: LedgerAction::ExecutePaydown });
        }
        if !has_escrow_grant(&ctx.escrow, &ctx.contract) {
            return Err(ContractError::MissingEscrowMarkerGrant);
        }
        let ghost old_ledger = *self;
        let ghost dv = d@;
        assert(dv == self.paydown_map()[id@]);
        let ghost pm = self.pledge_map();
        let ghost ks = self.pledges.key_seq();
        let ghost pa = references_assets(pm, dv.assets, Some(PledgeState::Executed));
        let ghost pc = closed_by(pm, dv.assets, self.inventory_after(dv));
        let mut msgs = vec![
            SettlementMsg::WithdrawCoins {
                marker_denom: ctx.escrow.denom.clone(),
                amount: d.total_paydown as u128,
                denom: ctx.facility.stablecoin_denom.clone(),
                recipient: ctx.facility.warehouse.clone(),
            },
        ];
        if d.kind == PaydownKind::PaydownAndSell {
            match &d.sale_info {
                Some(s) => {
                    msgs.push(
                        SettlementMsg::WithdrawCoins {
                            marker_denom: ctx.escrow.denom.clone(),
                            amount: s.price as u128,
                            denom: ctx.facility.stablecoin_denom.clone(),
                            recipient: ctx.facility.originator.clone(),
                        },
                    );
                },
                None => {},
            }
        }
        let ghost payouts = msg_views(msgs@);
        assert(payouts =~= Ledger::paydown_payouts(ctx, dv));
        let removed = copy_ids(&d.assets);
        let mut affected: Vec<String> = Vec::new();
        let mut closed: Vec<String> = Vec::new();
        let mut closed_at: Vec<usize> = Vec::new();
        let n = self.pledges.len();
        let mut t: usize = 0;
        while t < n
            invariant
                t <= n,
                n == ks.len(),
                *self == old_ledger,
                old_ledger.paydown_map().contains_key(id@),
                dv == old_ledger.paydown_map()[id@],
                old_ledger.execute_paydown_error(ctx, *id) is None,
                self.wf(),
                ks == self.pledges.key_seq(),
                pm == self.pledge_map(),
                id_views(removed@) == dv.assets,
                pa == references_assets(pm, dv.assets, Some(PledgeState::Executed)),
                pc == closed_by(pm, dv.assets, self.inventory_after(dv)),
                id_views(affected@) == ks.subrange(0, t as int).filter(pa),
                id_views(closed@) == ks.subrange(0, t as int).filter(pc),
                closed_at@.len() == closed@.len(),
                forall|m: int| 0 <= m < closed_at@.len() ==> #[trigger] closed_at@[m] < n && ks[closed_at@[m] as int] == id_views(closed@)[m],
                msg_views(msgs@) == payouts + retire_all(pm, id_views(closed@), markers@, ctx.facility.originator@),
                forall|m: int| 0 <= m < closed@.len() ==> marker_address_of(markers@, pm[#[trigger] id_views(closed@)[m]].asset_marker_denom) is Some,
            decreases n - t,
        {
            let p = self.pledges.value_at(t);
            let hit = p.state == PledgeState::Executed && shares_any(&p.assets, &removed);
            let ghost k = ks[t as int];
            proof {
                assert(ks.subrange(0, t as int + 1) =~= ks.subrange(0, t as int).push(k));
                ks.subrange(0, t as int).lemma_filter_push(k, pa);
                ks.subrange(0, t as int).lemma_filter_push(k, pc);
                self.pledges.lemma_view_at(t as int);
                let pv = pm[k];
                assert(pv == p@);
                if pa(k) {
                    let j = choose|j: int| 0 <= j < pv.assets.len() && dv.assets.contains(#[trigger] pv.assets[j]);
                    assert(id_views(p.assets@)[j] == pv.assets[j]);
                }
                if hit {
                    let j = choose|j: int| 0 <= j < p.assets@.len() && id_views(removed@).contains(#[trigger] id_views(p.assets@)[j]);
                    assert(pv.assets[j] == id_views(p.assets@)[j]);
                }
                assert(hit == pa(k));
            }
            if hit {
                let ghost pre_affected = id_views(affected@);
                affected.push(self.pledges.key_at(t).clone());
                assert(id_views(affected@) =~= pre_affected.push(k));
                let still_held = any_held_after(&self.assets, &removed, &p.assets);
                proof {
                    let pv = pm[k];
                    let inv = self.inventory_after(dv);
                    assert(self.asset_map().remove_keys(id_views(removed@).to_set()) == inv);
                    if still_held {
                        let j = choose|j: int| 0 <= j < p.assets@.len() && held_ids(inv).contains(#[trigger] id_views(p.assets@)[j]);
                        assert(pv.assets[j] == id_views(p.assets@)[j]);
                    }
                    if !closes(pv, inv) {
                        let j = choose|j: int| 0 <= j < pv.assets.len() && held_ids(inv).contains(#[trigger] pv.assets[j]);
                        assert(id_views(p.assets@)[j] == pv.assets[j]);
                    }
                    assert(still_held == !pc(k));
                }
                if !still_held {
                    let addr = match find_marker_address(markers, &p.asset_marker_denom) {
                        Some(a) => a,
                        None => {
                            proof {
                                ks.lemma_filter_contains(pc, t as int);
                                let cl = ks.filter(pc);
                                let m = cl.index_of(k);
                                assert(cl[m] == k);
                                assert(old_ledger.pledges_closed_by(dv) == cl);
                                assert(0 <= m < cl.len() && marker_address_of(markers@, pm[cl[m]].asset_marker_denom) is None);
                            }
                            let pledge_id = self.pledges.key_at(t).clone();
                            assert(pledge_id@ == k);
                            return Err(ContractError::AssetMarkerNotFound { pledge_id });
                        },
                    };
                    let ghost pre_msgs = msg_views(msgs@);
                    let ghost pre_closed = id_views(closed@);
                    let mut retire = asset_marker_retire_msgs(&p.asset_marker_denom, &addr, &ctx.facility.originator);
                    msgs.append(&mut retire);
                    closed.push(self.pledges.key_at(t).clone());
                    closed_at.push(t);
                    proof {
                        assert(id_views(closed@) =~= pre_closed.push(k));
                        assert(id_views(closed@).drop_last() =~= pre_closed);
                        assert(msg_views(msgs@) =~= pre_msgs + asset_marker_retire(pm[k].asset_marker_denom, addr@, ctx.facility.originator@));
                        assert(msg_views(msgs@) =~= payouts + retire_all(pm, id_views(closed@), markers@, ctx.facility.originator@));
                        assert forall|m: int| 0 <= m < closed@.len() implies marker_address_of(markers@, pm[#[trigger] id_views(closed@)[m]].asset_marker_denom) is Some by {
                            if m < pre_closed.len() {
                                assert(id_views(closed@)[m] == pre_closed[m]);
                            }
                        }
                        assert forall|m: int| 0 <= m < closed_at@.len() implies #[trigger] closed_at@[m] < n && ks[closed_at@[m] as int] == id_views(closed@)[m] by {
                            if m < pre_closed.len() {
                                assert(id_views(closed@)[m] == pre_closed[m]);
                            }
                        }
                    }
                }
            }
            t = t + 1;
        }
        assert(ks.subrange(0, n as int) =~= ks);
        let updated = copy_paydown(d, PaydownState::Executed, d.parties_accepted);
        self.paydowns.update_at(i, updated);
        remove_assets(&mut self.assets, &removed);
        let ghost cv = id_views(closed@);
        let ghost after = *self;
        let mut c: usize = 0;
        assert(close_pledges(pm, cv.subrange(0, 0).to_set()) =~= pm);
        while c < closed_at.len()
            invariant
                c <= closed_at@.len(),
                closed_at@.len() == cv.len(),
                forall|m: int| 0 <= m < closed_at@.len() ==> #[trigger] closed_at@[m] < n && ks[closed_at@[m] as int] == cv[m],
                n == ks.len(),
                self.pledges.wf(),
                self.pledges.key_seq() == ks,
                self.pledges.view() == close_pledges(pm, cv.subrange(0, c as int).to_set()),
                self.paydowns == after.paydowns,
                self.assets == after.assets,
            decreases closed_at@.len() - c,
        {
            let idx = closed_at[c];
            let ghost k = ks[idx as int];
            let p = self.pledges.value_at(idx);
            let np = pledge_in_state(p, PledgeState::Closed);
            self.pledges.update_at(idx, np);
            proof {
                assert(cv.subrange(0, c as int + 1).to_set() =~= cv.subrange(0, c as int).to_set().insert(k)) by {
                    assert(cv.subrange(0, c as int + 1) =~= cv.subrange(0, c as int).push(k));
                    assert forall|x: Seq<char>| #[trigger] cv.subrange(0, c as int + 1).contains(x) == (cv.subrange(0, c as int).contains(x) || x == k) by {
                        let a = cv.subrange(0, c as int);
                        let b = cv.subrange(0, c as int + 1);
                        if a.contains(x) {
                            let j = a.index_of(x);
                            assert(b[j] == x);
                        }
                        if b.contains(x) && x != k {
                            let j = b.index_of(x);
                            assert(a[j] == x);
                        }
                        if x == k {
                            assert(b[c as int] == x);
                        }
                    }
                }
                assert(self.pledges.view() =~= close_pledges(pm, cv.subrange(0, c as int + 1).to_set()));
            }
            c = c + 1;
        }
        assert(cv.subrange(0, cv.len() as int) =~= cv);
        proof {
            assert(id_views(removed@) == dv.assets);
            assert(closed_by(pm, dv.assets, old_ledger.inventory_after(dv)) == pc);
            if old_ledger.inventory_consistent() {
                let cl = ks.filter(pc);
                assert(cv == cl);
                assert forall|k: Seq<char>| #[trigger] cl.to_set().contains(k) implies pm.contains_key(k)
                    && pm[k].state == PledgeState::Executed && forall|j: int| 0 <= j < pm[k].assets.len()
                    ==> !held_ids(old_ledger.asset_map().remove_keys(dv.assets.to_set())).contains(#[trigger] pm[k].assets[j]) by {
                    let m = cl.index_of(k);
                    ks.lemma_filter_pred(pc, m);
                }
                lemma_execute_paydown(
                    old_ledger.asset_map(),
                    pm,
                    old_ledger.paydown_map(),
                    id@,
                    paydown_with(dv, PaydownState::Executed, dv.parties_accepted),
                    cl.to_set(),
                );
            }
        }
        Ok(PaydownExecution { msgs, affected_pledges: affected, closed_pledges: closed })
    }
}

} // verus!
