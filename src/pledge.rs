use vstd::prelude::*;

use crate::consistency::{lemma_cancel_pledge, lemma_execute_pledge, lemma_pledge_restate, lemma_propose_pledge};
use crate::escrow::{find_marker_address, has_escrow_grant, marker_address_of};
use crate::inventory::{any_assets_in_inventory, in_state, remove_assets, set_assets_state, with_states};
use crate::ledger::{
    copy_ids, escrow_ok, funds_match, paydowns_follow, pledge_in_state, pledge_with_state,
    pledges_follow, Context, Ledger,
};
use crate::types::{
    id_views, msg_views, AssetState, Coin, ContractError, LedgerAction, Marker, MarkerAccess, MsgView,
    Pledge, PledgeState, PledgeView, SettlementMsg,
};

verus! {

/// The permissions that the contract takes on a pledge's asset marker.
pub open spec fn asset_marker_permissions() -> Seq<MarkerAccess> {
    seq![
        MarkerAccess::Admin,
        MarkerAccess::Burn,
        MarkerAccess::Delete,
        MarkerAccess::Deposit,
        MarkerAccess::Mint,
        MarkerAccess::Transfer,
        MarkerAccess::Withdraw,
    ]
}

/// Creates the one-unit restricted marker that stands for a pledge's assets and hands
/// that unit to the originator.
pub open spec fn asset_marker_setup(denom: Seq<char>, contract: Seq<char>, originator: Seq<char>) -> Seq<MsgView> {
    seq![
        MsgView::CreateMarker { supply: 1, denom, restricted: true },
        MsgView::GrantMarkerAccess { denom, address: contract, permissions: asset_marker_permissions() },
        MsgView::FinalizeMarker { denom },
        MsgView::ActivateMarker { denom },
        MsgView::WithdrawCoins { marker_denom: denom, amount: 1, denom, recipient: originator },
    ]
}

/// Returns a pledge's asset marker unit to the originator, then cancels and destroys the marker.
pub open spec fn asset_marker_retire(denom: Seq<char>, marker_address: Seq<char>, originator: Seq<char>) -> Seq<MsgView> {
    seq![
        MsgView::TransferMarkerCoins { amount: 1, denom, from: marker_address, to: originator },
        MsgView::CancelMarker { denom },
        MsgView::DestroyMarker { denom },
    ]
}

pub fn asset_marker_setup_msgs(denom: &String, contract: &String, originator: &String) -> (r: Vec<SettlementMsg>)
    ensures
        msg_views(r@) == asset_marker_setup(denom@, contract@, originator@),
{
    let permissions = vec![
        MarkerAccess::Admin,
        MarkerAccess::Burn,
        MarkerAccess::Delete,
        MarkerAccess::Deposit,
        MarkerAccess::Mint,
        MarkerAccess::Transfer,
        MarkerAccess::Withdraw,
    ];
    assert(permissions@ =~= asset_marker_permissions());
    let r = vec![
        SettlementMsg::CreateMarker { supply: 1, denom: denom.clone(), restricted: true },
        SettlementMsg::GrantMarkerAccess { denom: denom.clone(), address: contract.clone(), permissions },
        SettlementMsg::FinalizeMarker { denom: denom.clone() },
        SettlementMsg::ActivateMarker { denom: denom.clone() },
        SettlementMsg::WithdrawCoins {
            marker_denom: denom.clone(),
            amount: 1,
            denom: denom.clone(),
            recipient: originator.clone(),
        },
    ];
    assert(msg_views(r@) =~= asset_marker_setup(denom@, contract@, originator@));
    r
}

pub fn asset_marker_retire_msgs(denom: &String, marker_address: &String, originator: &String) -> (r: Vec<SettlementMsg>)
    ensures
        msg_views(r@) == asset_marker_retire(denom@, marker_address@, originator@),
{
    let r = vec![
        SettlementMsg::TransferMarkerCoins {
            amount: 1,
            denom: denom.clone(),
            from: marker_address.clone(),
            to: originator.clone(),
        },
        SettlementMsg::CancelMarker { denom: denom.clone() },
        SettlementMsg::DestroyMarker { denom: denom.clone() },
    ];
    assert(msg_views(r@) =~= asset_marker_retire(denom@, marker_address@, originator@));
    r
}

impl Ledger {
    /// The error, if any, with which `propose_pledge` refuses its arguments.
    pub open spec fn propose_pledge_error(&self, ctx: &Context, id: String, assets: Seq<String>) -> Option<ContractError> {
        if self.pledge_map().contains_key(id@) {
            Some(ContractError::PledgeAlreadyExists { id })
        } else if exists|j: int| 0 <= j < assets.len() && in_state(self.asset_map(), #[trigger] assets[j]@, None) {
            Some(ContractError::AssetsAlreadyPledged)
        } else if !escrow_ok(ctx) {
            Some(ContractError::MissingEscrowMarkerGrant)
        } else {
            None
        }
    }

    /// Proposes pledge `id` of `assets` against an advance of `total_advance`: records it as
    /// `Proposed`, reserves its assets, and sets up its asset marker.
    pub fn propose_pledge(
        &mut self,
        ctx: &Context,
        id: String,
        assets: Vec<String>,
        total_advance: u64,
        asset_marker_denom: String,
    ) -> (r: Result<Vec<SettlementMsg>, ContractError>)
        requires
            old(self).wf(),
        ensures
            final(self).wf(),
            pledges_follow(old(self).pledge_map(), final(self).pledge_map()),
            paydowns_follow(old(self).paydown_map(), final(self).paydown_map()),
            old(self).inventory_consistent() ==> final(self).inventory_consistent(),
            match old(self).propose_pledge_error(ctx, id, assets@) {
                Some(e) => r == Err::<Vec<SettlementMsg>, ContractError>(e) && *final(self) == *old(self),
                None => r matches Ok(msgs) && msg_views(msgs@) == asset_marker_setup(
                    asset_marker_denom@,
                    ctx.contract@,
                    ctx.facility.originator@,
                ) && final(self).pledge_map() == old(self).pledge_map().insert(
                    id@,
                    PledgeView {
                        id: id@,
                        assets: id_views(assets@),
                        total_advance,
                        asset_marker_denom: asset_marker_denom@,
                        state: PledgeState::Proposed,
                    },
                ) && final(self).asset_map() == with_states(
                    old(self).asset_map(),
                    id_views(assets@),
                    AssetState::PledgeProposed,
                ) && final(self).paydown_map() == old(self).paydown_map(),
            },
    {
        if self.pledges.contains(&id) {
            return Err(ContractError::PledgeAlreadyExists { id });
        }
        if any_assets_in_inventory(&self.assets, None, &assets) {
            return Err(ContractError::AssetsAlreadyPledged);
        }
        if !has_escrow_grant(&ctx.escrow, &ctx.contract) {
            return Err(ContractError::MissingEscrowMarkerGrant);
        }
        let msgs = asset_marker_setup_msgs(&asset_marker_denom, &ctx.contract, &ctx.facility.originator);
        let ghost pre = *self;
        let ghost pv = PledgeView {
            id: id@,
            assets: id_views(assets@),
            total_advance,
            asset_marker_denom: asset_marker_denom@,
            state: PledgeState::Proposed,
        };
        proof {
            if pre.inventory_consistent() {
                assert forall|j: int| 0 <= j < pv.assets.len() implies !pre.asset_map().contains_key(#[trigger] pv.assets[j]) by {
                    assert(!in_state(pre.asset_map(), assets@[j]@, None));
                }
                lemma_propose_pledge(pre.asset_map(), pre.pledge_map(), pre.paydown_map(), id@, pv);
            }
        }
        set_assets_state(&mut self.assets, &assets, AssetState::PledgeProposed);
        let key = id.clone();
        let pledge = Pledge { id, assets, total_advance, asset_marker_denom, state: PledgeState::Proposed };
        self.pledges.insert(key, pledge);
        Ok(msgs)
    }

    /// The error, if any, with which `accept_pledge` refuses its arguments.
    pub open spec fn accept_pledge_error(&self, ctx: &Context, funds: Seq<Coin>, id: String) -> Option<ContractError> {
        if !self.pledge_map().contains_key(id@) {
            Some(ContractError::PledgeNotFound { id })
        } else if self.pledge_map()[id@].state != PledgeState::Proposed {
            Some(ContractError::StateError { action: LedgerAction::AcceptPledge })
        } else if !escrow_ok(ctx) {
            Some(ContractError::MissingEscrowMarkerGrant)
        } else if funds.len() == 0 {
            Some(ContractError::MissingPledgeAdvanceFunds)
        } else if !funds_match(funds, self.pledge_map()[id@].total_advance, ctx.facility.stablecoin_denom@) {
            Some(
                ContractError::InsufficientPledgeAdvanceFunds {
                    need: self.pledge_map()[id@].total_advance as u128,
                    need_denom: ctx.facility.stablecoin_denom,
                    received: funds[0].amount,
                    received_denom: funds[0].denom,
                },
            )
        } else {
            None
        }
    }

    /// Accepts proposed pledge `id`, given exactly its advance in the settlement denomination,
    /// and forwards the advance to escrow.
    pub fn accept_pledge(&mut self, ctx: &Context, funds: &Vec<Coin>, id: &String) -> (r: Result<Vec<SettlementMsg>, ContractError>)
        requires
            old(self).wf(),
        ensures
            final(self).wf(),
            pledges_follow(old(self).pledge_map(), final(self).pledge_map()),
            paydowns_follow(old(self).paydown_map(), final(self).paydown_map()),
            old(self).inventory_consistent() ==> final(self).inventory_consistent(),
            match old(self).accept_pledge_error(ctx, funds@, *id) {
                Some(e) => r == Err::<Vec<SettlementMsg>, ContractError>(e) && *final(self) == *old(self),
                None => r matches Ok(msgs) && msg_views(msgs@) == seq![
                    MsgView::BankSend {
                        to_address: ctx.escrow.address@,
                        amount: old(self).pledge_map()[id@].total_advance as u128,
                        denom: ctx.facility.stablecoin_denom@,
                    },
                ] && final(self).pledge_map() == old(self).pledge_map().insert(
                    id@,
                    pledge_with_state(old(self).pledge_map()[id@], PledgeState::Accepted),
                ) && final(self).asset_map() == old(self).asset_map()
                    && final(self).paydown_map() == old(self).paydown_map(),
            },
    {
        let i = match self.pledges.find(id) {
            Some(i) => i,
            None => {
                return Err(ContractError::PledgeNotFound { id: id.clone() });
            },
        };
        let pledge = self.pledges.value_at(i);
        if pledge.state != PledgeState::Proposed {
            return Err(ContractError::StateError { action: LedgerAction::AcceptPledge });
        }
        if !has_escrow_grant(&ctx.escrow, &ctx.contract) {
            return Err(ContractError::MissingEscrowMarkerGrant);
        }
        if funds.len() == 0 {
            return Err(ContractError::MissingPledgeAdvanceFunds);
        }
        let coin = &funds[0];
        if coin.denom != ctx.facility.stablecoin_denom || coin.amount != pledge.total_advance as u128 {
            return Err(
                ContractError::InsufficientPledgeAdvanceFunds {
                    need: pledge.total_advance as u128,
                    need_denom: ctx.facility.stablecoin_denom.clone(),
                    received: coin.amount,
                    received_denom: coin.denom.clone(),
                },
            );
        }
        let msgs = vec![
            SettlementMsg::BankSend {
                to_address: ctx.escrow.address.clone(),
                amount: pledge.total_advance as u128,
                denom: ctx.facility.stablecoin_denom.clone(),
            },
        ];
        let updated = pledge_in_state(pledge, PledgeState::Accepted);
        proof {
            if self.inventory_consistent() {
                lemma_pledge_restate(self.asset_map(), self.pledge_map(), self.paydown_map(), id@, updated@);
            }
        }
        self.pledges.update_at(i, updated);
        assert(msg_views(msgs@) =~= seq![
            MsgView::BankSend {
                to_address: ctx.escrow.address@,
                amount: old(self).pledge_map()[id@].total_advance as u128,
                denom: ctx.facility.stablecoin_denom@,
            },
        ]);
        Ok(msgs)
    }
    /// The error, if any, with which `cancel_pledge` refuses its arguments.
    pub open spec fn cancel_pledge_error(&self, ctx: &Context, markers: Seq<Marker>, id: String) -> Option<ContractError> {
        if !self.pledge_map().contains_key(id@) {
            Some(ContractError::PledgeNotFound { id })
        } else if self.pledge_map()[id@].state != PledgeState::Proposed && self.pledge_map()[id@].state
            != PledgeState::Accepted {
            Some(ContractError::StateError { action: LedgerAction::CancelPledge })
        } else if !escrow_ok(ctx) {
            Some(ContractError::MissingEscrowMarkerGrant)
        } else if marker_address_of(markers, self.pledge_map()[id@].asset_marker_denom) is None {
            Some(ContractError::AssetMarkerNotFound { pledge_id: id })
        } else {
            None
        }
    }

    /// What cancelling pledge `p` instructs: the advance goes back from escrow to the
    /// warehouse if it was accepted, and its asset marker is retired.
    pub open spec fn cancel_pledge_msgs(ctx: &Context, p: PledgeView, marker_address: Seq<char>) -> Seq<MsgView> {
        let refund = if p.state == PledgeState::Accepted {
            seq![
                MsgView::WithdrawCoins {
                    marker_denom: ctx.escrow.denom@,
                    amount: p.total_advance as u128,
                    denom: ctx.facility.stablecoin_denom@,
                    recipient: ctx.facility.warehouse@,
                },
            ]
        } else {
            seq![]
        };
        refund + asset_marker_retire(p.asset_marker_denom, marker_address, ctx.facility.originator@)
    }

    /// Cancels pledge `id` while it is proposed or accepted: returns the advance if it was
    /// accepted, retires its asset marker (looked up in `markers`), and drops its assets
    /// from the inventory.
    pub fn cancel_pledge(&mut self, ctx: &Context, markers: &Vec<Marker>, id: &String) -> (r: Result<Vec<SettlementMsg>, ContractError>)
        requires
            old(self).wf(),
        ensures
            final(self).wf(),
            pledges_follow(old(self).pledge_map(), final(self).pledge_map()),
            paydowns_follow(old(self).paydown_map(), final(self).paydown_map()),
            old(self).inventory_consistent() ==> final(self).inventory_consistent(),
            match old(self).cancel_pledge_error(ctx, markers@, *id) {
                Some(e) => r == Err::<Vec<SettlementMsg>, ContractError>(e) && *final(self) == *old(self),
                None => r matches Ok(msgs) && msg_views(msgs@) == Ledger::cancel_pledge_msgs(
                    ctx,
                    old(self).pledge_map()[id@],
                    marker_address_of(markers@, old(self).pledge_map()[id@].asset_marker_denom)->Some_0,
                ) && final(self).pledge_map() == old(self).pledge_map().insert(
                    id@,
                    pledge_with_state(old(self).pledge_map()[id@], PledgeState::Cancelled),
                ) && final(self).asset_map() == old(self).asset_map().remove_keys(
                    old(self).pledge_map()[id@].assets.to_set(),
                ) && final(self).paydown_map() == old(self).paydown_map(),
            },
    {
        let i = match self.pledges.find(id) {
            Some(i) => i,
            None => {
                return Err(ContractError::PledgeNotFound { id: id.clone() });
            },
        };
        let pledge = self.pledges.value_at(i);
        let accepted = pledge.state == PledgeState::Accepted;
        if pledge.state != PledgeState::Proposed && !accepted {
            return Err(ContractError::StateError { action: LedgerAction::CancelPledge });
        }
        if !has_escrow_grant(&ctx.escrow, &ctx.contract) {
            return Err(ContractError::MissingEscrowMarkerGrant);
        }
        let marker_address = match find_marker_address(markers, &pledge.asset_marker_denom) {
            Some(a) => a,
            None => {
                return Err(ContractError::AssetMarkerNotFound { pledge_id: id.clone() });
            },
        };
        let mut msgs: Vec<SettlementMsg> = Vec::new();
        if accepted {
            msgs.push(
                SettlementMsg::WithdrawCoins {
                    marker_denom: ctx.escrow.denom.clone(),
                    amount: pledge.total_advance as u128,
                    denom: ctx.facility.stablecoin_denom.clone(),
                    recipient: ctx.facility.warehouse.clone(),
                },
            );
        }
        let ghost refund = msg_views(msgs@);
        let mut retire = asset_marker_retire_msgs(&pledge.asset_marker_denom, &marker_address, &ctx.facility.originator);
        msgs.append(&mut retire);
        assert(msg_views(msgs@) =~= Ledger::cancel_pledge_msgs(ctx, pledge@, marker_address@));
        let ids = copy_ids(&pledge.assets);
        let updated = pledge_in_state(pledge, PledgeState::Cancelled);
        proof {
            if self.inventory_consistent() {
                lemma_cancel_pledge(self.asset_map(), self.pledge_map(), self.paydown_map(), id@);
            }
        }
        self.pledges.update_at(i, updated);
        remove_assets(&mut self.assets, &ids);
        Ok(msgs)
    }

    /// The error, if any, with which `execute_pledge` refuses its arguments.
    pub open spec fn execute_pledge_error(&self, ctx: &Context, id: String) -> Option<ContractError> {
        if !self.pledge_map().contains_key(id@) {
            Some(ContractError::PledgeNotFound { id })
        } else if self.pledge_map()[id@].state != PledgeState::Accepted {
            Some(ContractError::StateError { action: LedgerAction::ExecutePledge })
        } else if !escrow_ok(ctx) {
            Some(ContractError::MissingEscrowMarkerGrant)
        } else {
            None
        }
    }

    /// Executes accepted pledge `id`: the advance goes from escrow to the originator, and
    /// the pledge's assets enter the inventory.
    pub fn execute_pledge(&mut self, ctx: &Context, id: &String) -> (r: Result<Vec<SettlementMsg>, ContractError>)
        requires
            old(self).wf(),
        ensures
            final(self).wf(),
            pledges_follow(old(self).pledge_map(), final(self).pledge_map()),
            paydowns_follow(old(self).paydown_map(), final(self).paydown_map()),
            old(self).inventory_consistent() ==> final(self).inventory_consistent(),
            match old(self).execute_pledge_error(ctx, *id) {
                Some(e) => r == Err::<Vec<SettlementMsg>, ContractError>(e) && *final(self) == *old(self),
                None => r matches Ok(msgs) && msg_views(msgs@) == seq![
                    MsgView::WithdrawCoins {
                        marker_denom: ctx.escrow.denom@,
                        amount: old(self).pledge_map()[id@].total_advance as u128,
                        denom: ctx.facility.stablecoin_denom@,
                        recipient: ctx.facility.originator@,
                    },
                ] && final(self).pledge_map() == old(self).pledge_map().insert(
                    id@,
                    pledge_with_state(old(self).pledge_map()[id@], PledgeState::Executed),
                ) && final(self).asset_map() == with_states(
                    old(self).asset_map(),
                    old(self).pledge_map()[id@].assets,
                    AssetState::Inventory,
                ) && final(self).paydown_map() == old(self).paydown_map(),
            },
    {
        let i = match self.pledges.find(id) {
            Some(i) => i,
            None => {
                return Err(ContractError::PledgeNotFound { id: id.clone() });
            },
        };
        let pledge = self.pledges.value_at(i);
        if pledge.state != PledgeState::Accepted {
            return Err(ContractError::StateError { action: LedgerAction::ExecutePledge });
        }
        if !has_escrow_grant(&ctx.escrow, &ctx.contract) {
            return Err(ContractError::MissingEscrowMarkerGrant);
        }
        let msgs = vec![
            SettlementMsg::WithdrawCoins {
                marker_denom: ctx.escrow.denom.clone(),
                amount: pledge.total_advance as u128,
                denom: ctx.facility.stablecoin_denom.clone(),
                recipient: ctx.facility.originator.clone(),
            },
        ];
        assert(msg_views(msgs@) =~= seq![
            MsgView::WithdrawCoins {
                marker_denom: ctx.escrow.denom@,
                amount: pledge.total_advance as u128,
                denom: ctx.facility.stablecoin_denom@,
                recipient: ctx.facility.originator@,
            },
        ]);
        let ids = copy_ids(&pledge.assets);
        let updated = pledge_in_state(pledge, PledgeState::Executed);
        proof {
            if self.inventory_consistent() {
                lemma_execute_pledge(self.asset_map(), self.pledge_map(), self.paydown_map(), id@);
            }
        }
        self.pledges.update_at(i, updated);
        set_assets_state(&mut self.assets, &ids, AssetState::Inventory);
        Ok(msgs)
    }
}

} // verus!
