use warehouse_facility::{
    has_escrow_grant, marker_has_grant, AccessGrant, AssetState, Coin, ContractError,
    ContractParty, Context, Facility, Ledger, LedgerAction, Marker, MarkerAccess, PaydownKind,
    PaydownState, PledgeState, SettlementMsg,
};

const CONTRACT: &str = "contract";
const WAREHOUSE: &str = "warehouse";
const ORIGINATOR: &str = "originator";
const BUYER: &str = "buyer";
const STABLE: &str = "stable";

fn s(x: &str) -> String {
    x.to_string()
}

fn ids(xs: &[&str]) -> Vec<String> {
    xs.iter().map(|x| x.to_string()).collect()
}

fn facility() -> Facility {
    Facility {
        originator: s(ORIGINATOR),
        warehouse: s(WAREHOUSE),
        escrow_marker: s("escrow_addr"),
        marker_denom: s("facility.coin"),
        stablecoin_denom: s(STABLE),
        advance_rate: s("75.0"),
    }
}

fn escrow_with(grants: Vec<AccessGrant>) -> Marker {
    Marker { address: s("escrow_addr"), denom: s("escrow.coin"), permissions: grants }
}

fn ctx() -> Context {
    Context {
        facility: facility(),
        contract: s(CONTRACT),
        escrow: escrow_with(vec![AccessGrant {
            address: s(CONTRACT),
            permissions: vec![MarkerAccess::Admin, MarkerAccess::Withdraw, MarkerAccess::Transfer],
        }]),
    }
}

fn ctx_without_grant() -> Context {
    Context {
        facility: facility(),
        contract: s(CONTRACT),
        escrow: escrow_with(vec![AccessGrant {
            address: s(CONTRACT),
            permissions: vec![MarkerAccess::Transfer],
        }]),
    }
}

fn coins(amount: u128, denom: &str) -> Vec<Coin> {
    vec![Coin { denom: s(denom), amount }]
}

fn asset_markers() -> Vec<Marker> {
    vec![
        Marker { address: s("pool1_marker_addr"), denom: s("pool1.marker"), permissions: vec![] },
        Marker { address: s("pool2_marker_addr"), denom: s("pool2.marker"), permissions: vec![] },
    ]
}

fn pledge_state(l: &Ledger, id: &str) -> PledgeState {
    l.get_pledge(&s(id)).unwrap().state
}

fn paydown_state(l: &Ledger, id: &str) -> PaydownState {
    l.get_paydown(&s(id)).unwrap().state
}

fn asset_state(l: &Ledger, id: &str) -> Option<AssetState> {
    l.list_assets().into_iter().find(|a| a.id == id).map(|a| a.state)
}

fn sorted_inventory(l: &Ledger) -> Vec<String> {
    let mut v = l.list_inventory();
    v.sort();
    v
}

/// A ledger with pledge1 over a1 and a2 (advance 1000) proposed and accepted.
fn accepted_pledge() -> Ledger {
    let mut l = Ledger::new();
    l.propose_pledge(&ctx(), s("pledge1"), ids(&["a1", "a2"]), 1000, s("pool1.marker")).unwrap();
    l.accept_pledge(&ctx(), &coins(1000, STABLE), &s("pledge1")).unwrap();
    l
}

/// As `accepted_pledge`, with pledge1 executed.
fn executed_pledge() -> Ledger {
    let mut l = accepted_pledge();
    l.execute_pledge(&ctx(), &s("pledge1")).unwrap();
    l
}

#[test]
fn scenario_a_accept_needs_exact_advance() {
    let mut l = Ledger::new();
    l.propose_pledge(&ctx(), s("pledge1"), ids(&["a1", "a2"]), 1000, s("pool1.marker")).unwrap();
    assert_eq!(pledge_state(&l, "pledge1"), PledgeState::Proposed);
    let err = l.accept_pledge(&ctx(), &coins(999, STABLE), &s("pledge1")).unwrap_err();
    assert_eq!(
        err,
        ContractError::InsufficientPledgeAdvanceFunds {
            need: 1000,
            need_denom: s(STABLE),
            received: 999,
            received_denom: s(STABLE),
        }
    );
    assert_eq!(pledge_state(&l, "pledge1"), PledgeState::Proposed);
    let msgs = l.accept_pledge(&ctx(), &coins(1000, STABLE), &s("pledge1")).unwrap();
    assert_eq!(pledge_state(&l, "pledge1"), PledgeState::Accepted);
    assert_eq!(
        msgs,
        vec![SettlementMsg::BankSend { to_address: s("escrow_addr"), amount: 1000, denom: s(STABLE) }]
    );
}

#[test]
fn scenario_b_execute_pledge_frees_assets() {
    let mut l = accepted_pledge();
    let msgs = l.execute_pledge(&ctx(), &s("pledge1")).unwrap();
    assert_eq!(pledge_state(&l, "pledge1"), PledgeState::Executed);
    assert_eq!(asset_state(&l, "a1"), Some(AssetState::Inventory));
    assert_eq!(asset_state(&l, "a2"), Some(AssetState::Inventory));
    assert_eq!(
        msgs,
        vec![SettlementMsg::WithdrawCoins {
            marker_denom: s("escrow.coin"),
            amount: 1000,
            denom: s(STABLE),
            recipient: s(ORIGINATOR),
        }]
    );
    assert_eq!(sorted_inventory(&l), ids(&["a1", "a2"]));
}

#[test]
fn scenario_c_partial_paydown_keeps_pledge_open() {
    let mut l = executed_pledge();
    let proposal = l.propose_paydown(&ctx(), &coins(1000, STABLE), s("D1"), ids(&["a1"]), 1000).unwrap();
    assert_eq!(proposal.affected_pledges, ids(&["pledge1"]));
    assert_eq!(
        proposal.msgs,
        vec![SettlementMsg::BankSend { to_address: s("escrow_addr"), amount: 1000, denom: s(STABLE) }]
    );
    assert_eq!(asset_state(&l, "a1"), Some(AssetState::PaydownProposed));
    assert_eq!(sorted_inventory(&l), ids(&["a1", "a2"]));
    l.accept_paydown(&ctx(), &s(WAREHOUSE), &vec![], &s("D1")).unwrap();
    assert_eq!(paydown_state(&l, "D1"), PaydownState::Accepted);
    let exec = l.execute_paydown(&ctx(), &asset_markers(), &s("D1")).unwrap();
    assert_eq!(paydown_state(&l, "D1"), PaydownState::Executed);
    assert_eq!(asset_state(&l, "a1"), None);
    assert_eq!(asset_state(&l, "a2"), Some(AssetState::Inventory));
    assert_eq!(exec.affected_pledges, ids(&["pledge1"]));
    assert!(exec.closed_pledges.is_empty());
    assert_eq!(pledge_state(&l, "pledge1"), PledgeState::Executed);
    assert_eq!(
        exec.msgs,
        vec![SettlementMsg::WithdrawCoins {
            marker_denom: s("escrow.coin"),
            amount: 1000,
            denom: s(STABLE),
            recipient: s(WAREHOUSE),
        }]
    );
}

#[test]
fn scenario_d_second_paydown_closes_pledge() {
    let mut l = executed_pledge();
    l.propose_paydown(&ctx(), &coins(1000, STABLE), s("D1"), ids(&["a1"]), 1000).unwrap();
    l.accept_paydown(&ctx(), &s(WAREHOUSE), &vec![], &s("D1")).unwrap();
    l.execute_paydown(&ctx(), &asset_markers(), &s("D1")).unwrap();
    l.propose_paydown(&ctx(), &coins(500, STABLE), s("D2"), ids(&["a2"]), 500).unwrap();
    l.accept_paydown(&ctx(), &s(WAREHOUSE), &vec![], &s("D2")).unwrap();
    let exec = l.execute_paydown(&ctx(), &asset_markers(), &s("D2")).unwrap();
    assert_eq!(pledge_state(&l, "pledge1"), PledgeState::Closed);
    assert_eq!(exec.affected_pledges, ids(&["pledge1"]));
    assert_eq!(exec.closed_pledges, ids(&["pledge1"]));
    assert_eq!(
        exec.msgs,
        vec![
            SettlementMsg::WithdrawCoins {
                marker_denom: s("escrow.coin"),
                amount: 500,
                denom: s(STABLE),
                recipient: s(WAREHOUSE),
            },
            SettlementMsg::TransferMarkerCoins {
                amount: 1,
                denom: s("pool1.marker"),
                from: s("pool1_marker_addr"),
                to: s(ORIGINATOR),
            },
            SettlementMsg::CancelMarker { denom: s("pool1.marker") },
            SettlementMsg::DestroyMarker { denom: s("pool1.marker") },
        ]
    );
    assert!(l.list_inventory().is_empty());
}

#[test]
fn scenario_e_paydown_and_sell_needs_both_parties() {
    let mut l = executed_pledge();
    l.propose_paydown_and_sell(&ctx(), &coins(1000, STABLE), s("D1"), ids(&["a1"]), 1000, s(BUYER), 500)
        .unwrap();
    let d = l.get_paydown(&s("D1")).unwrap();
    assert_eq!(d.kind, PaydownKind::PaydownAndSell);
    assert_eq!(d.sale_info.as_ref().unwrap().price, 500);
    let msgs = l.accept_paydown(&ctx(), &s(WAREHOUSE), &vec![], &s("D1")).unwrap();
    assert!(msgs.is_empty());
    assert_eq!(paydown_state(&l, "D1"), PaydownState::Proposed);
    let msgs = l.accept_paydown(&ctx(), &s(BUYER), &coins(500, STABLE), &s("D1")).unwrap();
    assert_eq!(paydown_state(&l, "D1"), PaydownState::Accepted);
    assert_eq!(
        msgs,
        vec![SettlementMsg::BankSend { to_address: s("escrow_addr"), amount: 500, denom: s(STABLE) }]
    );
    let exec = l.execute_paydown(&ctx(), &asset_markers(), &s("D1")).unwrap();
    assert_eq!(
        exec.msgs,
        vec![
            SettlementMsg::WithdrawCoins {
                marker_denom: s("escrow.coin"),
                amount: 1000,
                denom: s(STABLE),
                recipient: s(WAREHOUSE),
            },
            SettlementMsg::WithdrawCoins {
                marker_denom: s("escrow.coin"),
                amount: 500,
                denom: s(STABLE),
                recipient: s(ORIGINATOR),
            },
        ]
    );
}

#[test]
fn buyer_first_then_warehouse_completes_acceptance() {
    let mut l = executed_pledge();
    l.propose_paydown_and_sell(&ctx(), &coins(1000, STABLE), s("D1"), ids(&["a1"]), 1000, s(BUYER), 500)
        .unwrap();
    l.accept_paydown(&ctx(), &s(BUYER), &coins(500, STABLE), &s("D1")).unwrap();
    assert_eq!(paydown_state(&l, "D1"), PaydownState::Proposed);
    l.accept_paydown(&ctx(), &s(WAREHOUSE), &vec![], &s("D1")).unwrap();
    assert_eq!(paydown_state(&l, "D1"), PaydownState::Accepted);
}

#[test]
fn same_party_cannot_accept_twice() {
    let mut l = executed_pledge();
    l.propose_paydown_and_sell(&ctx(), &coins(1000, STABLE), s("D1"), ids(&["a1"]), 1000, s(BUYER), 500)
        .unwrap();
    l.accept_paydown(&ctx(), &s(WAREHOUSE), &vec![], &s("D1")).unwrap();
    let err = l.accept_paydown(&ctx(), &s(WAREHOUSE), &vec![], &s("D1")).unwrap_err();
    assert_eq!(err, ContractError::PaydownPartyAlreadyAccepted { party: ContractParty::Warehouse });
    let d = l.get_paydown(&s("D1")).unwrap();
    assert!(d.parties_accepted.warehouse);
    assert!(!d.parties_accepted.buyer);
}

#[test]
fn warehouse_cannot_accept_accepted_paydown_only_twice() {
    let mut l = executed_pledge();
    l.propose_paydown(&ctx(), &coins(1000, STABLE), s("D1"), ids(&["a1"]), 1000).unwrap();
    l.accept_paydown(&ctx(), &s(WAREHOUSE), &vec![], &s("D1")).unwrap();
    let err = l.accept_paydown(&ctx(), &s(WAREHOUSE), &vec![], &s("D1")).unwrap_err();
    assert_eq!(err, ContractError::PaydownPartyAlreadyAccepted { party: ContractParty::Warehouse });
}

#[test]
fn no_cancel_after_pledge_execution_or_close() {
    let mut l = executed_pledge();
    let err = l.cancel_pledge(&ctx(), &asset_markers(), &s("pledge1")).unwrap_err();
    assert_eq!(err, ContractError::StateError { action: LedgerAction::CancelPledge });
    l.propose_paydown(&ctx(), &coins(10, STABLE), s("D1"), ids(&["a1", "a2"]), 10).unwrap();
    l.accept_paydown(&ctx(), &s(WAREHOUSE), &vec![], &s("D1")).unwrap();
    let exec = l.execute_paydown(&ctx(), &asset_markers(), &s("D1")).unwrap();
    assert_eq!(exec.closed_pledges, ids(&["pledge1"]));
    let err = l.cancel_pledge(&ctx(), &asset_markers(), &s("pledge1")).unwrap_err();
    assert_eq!(err, ContractError::StateError { action: LedgerAction::CancelPledge });
    let err = l.cancel_paydown(&ctx(), &s("D1")).unwrap_err();
    assert_eq!(err, ContractError::StateError { action: LedgerAction::CancelPaydown });
}

#[test]
fn no_cancel_after_cancel() {
    let mut l = Ledger::new();
    l.propose_pledge(&ctx(), s("pledge1"), ids(&["a1"]), 5, s("pool1.marker")).unwrap();
    l.cancel_pledge(&ctx(), &asset_markers(), &s("pledge1")).unwrap();
    assert_eq!(pledge_state(&l, "pledge1"), PledgeState::Cancelled);
    let err = l.cancel_pledge(&ctx(), &asset_markers(), &s("pledge1")).unwrap_err();
    assert_eq!(err, ContractError::StateError { action: LedgerAction::CancelPledge });
    let mut l = executed_pledge();
    l.propose_paydown(&ctx(), &coins(10, STABLE), s("D1"), ids(&["a1"]), 10).unwrap();
    l.cancel_paydown(&ctx(), &s("D1")).unwrap();
    let err = l.cancel_paydown(&ctx(), &s("D1")).unwrap_err();
    assert_eq!(err, ContractError::StateError { action: LedgerAction::CancelPaydown });
}

#[test]
fn pledge_states_follow_lifecycle() {
    let mut l = Ledger::new();
    l.propose_pledge(&ctx(), s("pledge1"), ids(&["a1"]), 5, s("pool1.marker")).unwrap();
    let err = l.execute_pledge(&ctx(), &s("pledge1")).unwrap_err();
    assert_eq!(err, ContractError::StateError { action: LedgerAction::ExecutePledge });
    l.accept_pledge(&ctx(), &coins(5, STABLE), &s("pledge1")).unwrap();
    let err = l.accept_pledge(&ctx(), &coins(5, STABLE), &s("pledge1")).unwrap_err();
    assert_eq!(err, ContractError::StateError { action: LedgerAction::AcceptPledge });
    l.execute_pledge(&ctx(), &s("pledge1")).unwrap();
    let err = l.execute_pledge(&ctx(), &s("pledge1")).unwrap_err();
    assert_eq!(err, ContractError::StateError { action: LedgerAction::ExecutePledge });
    assert_eq!(pledge_state(&l, "pledge1"), PledgeState::Executed);
}

#[test]
fn paydown_states_follow_lifecycle() {
    let mut l = executed_pledge();
    l.propose_paydown(&ctx(), &coins(10, STABLE), s("D1"), ids(&["a1"]), 10).unwrap();
    let err = l.execute_paydown(&ctx(), &asset_markers(), &s("D1")).unwrap_err();
    assert_eq!(err, ContractError::StateError { action: LedgerAction::ExecutePaydown });
    l.accept_paydown(&ctx(), &s(WAREHOUSE), &vec![], &s("D1")).unwrap();
    l.execute_paydown(&ctx(), &asset_markers(), &s("D1")).unwrap();
    let err = l.execute_paydown(&ctx(), &asset_markers(), &s("D1")).unwrap_err();
    assert_eq!(err, ContractError::StateError { action: LedgerAction::ExecutePaydown });
    assert_eq!(paydown_state(&l, "D1"), PaydownState::Executed);
}

#[test]
fn inventory_listing_tracks_lifecycle() {
    let mut l = Ledger::new();
    l.propose_pledge(&ctx(), s("pledge1"), ids(&["a1", "a2"]), 1000, s("pool1.marker")).unwrap();
    assert!(l.list_inventory().is_empty());
    l.accept_pledge(&ctx(), &coins(1000, STABLE), &s("pledge1")).unwrap();
    assert!(l.list_inventory().is_empty());
    l.execute_pledge(&ctx(), &s("pledge1")).unwrap();
    assert_eq!(sorted_inventory(&l), ids(&["a1", "a2"]));
    l.propose_paydown(&ctx(), &coins(10, STABLE), s("D1"), ids(&["a2"]), 10).unwrap();
    assert_eq!(sorted_inventory(&l), ids(&["a1", "a2"]));
    l.cancel_paydown(&ctx(), &s("D1")).unwrap();
    assert_eq!(asset_state(&l, "a2"), Some(AssetState::Inventory));
    l.propose_paydown(&ctx(), &coins(10, STABLE), s("D2"), ids(&["a2"]), 10).unwrap();
    l.accept_paydown(&ctx(), &s(WAREHOUSE), &vec![], &s("D2")).unwrap();
    l.execute_paydown(&ctx(), &asset_markers(), &s("D2")).unwrap();
    assert_eq!(sorted_inventory(&l), ids(&["a1"]));
}

#[test]
fn propose_pledge_sets_up_asset_marker() {
    let mut l = Ledger::new();
    let msgs = l.propose_pledge(&ctx(), s("pledge1"), ids(&["a1"]), 7, s("pool1.marker")).unwrap();
    assert_eq!(
        msgs,
        vec![
            SettlementMsg::CreateMarker { supply: 1, denom: s("pool1.marker"), restricted: true },
            SettlementMsg::GrantMarkerAccess {
                denom: s("pool1.marker"),
                address: s(CONTRACT),
                permissions: vec![
                    MarkerAccess::Admin,
                    MarkerAccess::Burn,
                    MarkerAccess::Delete,
                    MarkerAccess::Deposit,
                    MarkerAccess::Mint,
                    MarkerAccess::Transfer,
                    MarkerAccess::Withdraw,
                ],
            },
            SettlementMsg::FinalizeMarker { denom: s("pool1.marker") },
            SettlementMsg::ActivateMarker { denom: s("pool1.marker") },
            SettlementMsg::WithdrawCoins {
                marker_denom: s("pool1.marker"),
                amount: 1,
                denom: s("pool1.marker"),
                recipient: s(ORIGINATOR),
            },
        ]
    );
    assert_eq!(asset_state(&l, "a1"), Some(AssetState::PledgeProposed));
    let p = l.get_pledge(&s("pledge1")).unwrap();
    assert_eq!(p.total_advance, 7);
    assert_eq!(p.assets, ids(&["a1"]));
}

#[test]
fn cancel_accepted_pledge_returns_advance_and_drops_assets() {
    let mut l = accepted_pledge();
    let msgs = l.cancel_pledge(&ctx(), &asset_markers(), &s("pledge1")).unwrap();
    assert_eq!(
        msgs,
        vec![
            SettlementMsg::WithdrawCoins {
                marker_denom: s("escrow.coin"),
                amount: 1000,
                denom: s(STABLE),
                recipient: s(WAREHOUSE),
            },
            SettlementMsg::TransferMarkerCoins {
                amount: 1,
                denom: s("pool1.marker"),
                from: s("pool1_marker_addr"),
                to: s(ORIGINATOR),
            },
            SettlementMsg::CancelMarker { denom: s("pool1.marker") },
            SettlementMsg::DestroyMarker { denom: s("pool1.marker") },
        ]
    );
    assert_eq!(pledge_state(&l, "pledge1"), PledgeState::Cancelled);
    assert!(l.list_assets().is_empty());
    l.propose_pledge(&ctx(), s("pledge2"), ids(&["a1"]), 3, s("pool2.marker")).unwrap();
}

#[test]
fn cancel_proposed_pledge_only_retires_marker() {
    let mut l = Ledger::new();
    l.propose_pledge(&ctx(), s("pledge1"), ids(&["a1"]), 5, s("pool1.marker")).unwrap();
    let msgs = l.cancel_pledge(&ctx(), &asset_markers(), &s("pledge1")).unwrap();
    assert_eq!(msgs.len(), 3);
    assert_eq!(msgs[1], SettlementMsg::CancelMarker { denom: s("pool1.marker") });
}

#[test]
fn cancel_paydown_refunds_buyer_who_accepted() {
    let mut l = executed_pledge();
    l.propose_paydown_and_sell(&ctx(), &coins(1000, STABLE), s("D1"), ids(&["a1"]), 1000, s(BUYER), 500)
        .unwrap();
    l.accept_paydown(&ctx(), &s(BUYER), &coins(500, STABLE), &s("D1")).unwrap();
    let msgs = l.cancel_paydown(&ctx(), &s("D1")).unwrap();
    assert_eq!(
        msgs,
        vec![
            SettlementMsg::WithdrawCoins {
                marker_denom: s("escrow.coin"),
                amount: 1000,
                denom: s(STABLE),
                recipient: s(ORIGINATOR),
            },
            SettlementMsg::WithdrawCoins {
                marker_denom: s("escrow.coin"),
                amount: 500,
                denom: s(STABLE),
                recipient: s(BUYER),
            },
        ]
    );
    assert_eq!(paydown_state(&l, "D1"), PaydownState::Cancelled);
    assert_eq!(asset_state(&l, "a1"), Some(AssetState::Inventory));
}

#[test]
fn cancel_paydown_without_buyer_refunds_originator_only() {
    let mut l = executed_pledge();
    l.propose_paydown_and_sell(&ctx(), &coins(1000, STABLE), s("D1"), ids(&["a1"]), 1000, s(BUYER), 500)
        .unwrap();
    let msgs = l.cancel_paydown(&ctx(), &s("D1")).unwrap();
    assert_eq!(msgs.len(), 1);
}

#[test]
fn errors_on_pledge_proposal() {
    let mut l = Ledger::new();
    l.propose_pledge(&ctx(), s("pledge1"), ids(&["a1"]), 5, s("pool1.marker")).unwrap();
    assert_eq!(
        l.propose_pledge(&ctx(), s("pledge1"), ids(&["b1"]), 5, s("x")).unwrap_err(),
        ContractError::PledgeAlreadyExists { id: s("pledge1") }
    );
    assert_eq!(
        l.propose_pledge(&ctx(), s("pledge2"), ids(&["b1", "a1"]), 5, s("x")).unwrap_err(),
        ContractError::AssetsAlreadyPledged
    );
    assert_eq!(
        l.propose_pledge(&ctx_without_grant(), s("pledge2"), ids(&["b1"]), 5, s("x")).unwrap_err(),
        ContractError::MissingEscrowMarkerGrant
    );
    assert_eq!(asset_state(&l, "b1"), None);
}

#[test]
fn errors_on_pledge_acceptance() {
    let mut l = Ledger::new();
    assert_eq!(
        l.accept_pledge(&ctx(), &coins(5, STABLE), &s("pledge9")).unwrap_err(),
        ContractError::PledgeNotFound { id: s("pledge9") }
    );
    l.propose_pledge(&ctx(), s("pledge1"), ids(&["a1"]), 5, s("pool1.marker")).unwrap();
    assert_eq!(
        l.accept_pledge(&ctx(), &vec![], &s("pledge1")).unwrap_err(),
        ContractError::MissingPledgeAdvanceFunds
    );
    assert_eq!(
        l.accept_pledge(&ctx(), &coins(5, "other"), &s("pledge1")).unwrap_err(),
        ContractError::InsufficientPledgeAdvanceFunds {
            need: 5,
            need_denom: s(STABLE),
            received: 5,
            received_denom: s("other"),
        }
    );
    assert_eq!(
        l.accept_pledge(&ctx_without_grant(), &coins(5, STABLE), &s("pledge1")).unwrap_err(),
        ContractError::MissingEscrowMarkerGrant
    );
    assert_eq!(
        l.execute_pledge(&ctx(), &s("pledge9")).unwrap_err(),
        ContractError::PledgeNotFound { id: s("pledge9") }
    );
}

#[test]
fn cancel_pledge_needs_asset_marker() {
    let mut l = Ledger::new();
    l.propose_pledge(&ctx(), s("pledge1"), ids(&["a1"]), 5, s("unknown.marker")).unwrap();
    assert_eq!(
        l.cancel_pledge(&ctx(), &asset_markers(), &s("pledge1")).unwrap_err(),
        ContractError::AssetMarkerNotFound { pledge_id: s("pledge1") }
    );
    assert_eq!(pledge_state(&l, "pledge1"), PledgeState::Proposed);
}

#[test]
fn errors_on_paydown_proposal() {
    let mut l = executed_pledge();
    l.propose_pledge(&ctx(), s("pledge2"), ids(&["b1"]), 5, s("pool2.marker")).unwrap();
    assert_eq!(
        l.propose_paydown(&ctx(), &coins(10, STABLE), s("D1"), ids(&["a1", "b1"]), 10).unwrap_err(),
        ContractError::AssetsNotInInventory
    );
    assert_eq!(
        l.propose_paydown(&ctx(), &coins(10, STABLE), s("D1"), ids(&["zz"]), 10).unwrap_err(),
        ContractError::AssetsNotInInventory
    );
    assert_eq!(
        l.propose_paydown(&ctx(), &vec![], s("D1"), ids(&["a1"]), 10).unwrap_err(),
        ContractError::MissingPaydownFunds
    );
    assert_eq!(
        l.propose_paydown(&ctx(), &coins(9, STABLE), s("D1"), ids(&["a1"]), 10).unwrap_err(),
        ContractError::InsufficientPaydownFunds {
            need: 10,
            need_denom: s(STABLE),
            received: 9,
            received_denom: s(STABLE),
        }
    );
    assert_eq!(
        l.propose_paydown(&ctx_without_grant(), &coins(10, STABLE), s("D1"), ids(&["a1"]), 10).unwrap_err(),
        ContractError::MissingEscrowMarkerGrant
    );
    l.propose_paydown(&ctx(), &coins(10, STABLE), s("D1"), ids(&["a1"]), 10).unwrap();
    assert_eq!(
        l.propose_paydown(&ctx(), &coins(10, STABLE), s("D1"), ids(&["a2"]), 10).unwrap_err(),
        ContractError::PaydownAlreadyExists { id: s("D1") }
    );
    assert_eq!(
        l.propose_paydown(&ctx(), &coins(10, STABLE), s("D2"), ids(&["a1"]), 10).unwrap_err(),
        ContractError::AssetsNotInInventory
    );
}

#[test]
fn errors_on_paydown_acceptance() {
    let mut l = executed_pledge();
    assert_eq!(
        l.accept_paydown(&ctx(), &s(WAREHOUSE), &vec![], &s("D9")).unwrap_err(),
        ContractError::PaydownNotFound { id: s("D9") }
    );
    l.propose_paydown(&ctx(), &coins(10, STABLE), s("D1"), ids(&["a1"]), 10).unwrap();
    assert_eq!(
        l.accept_paydown(&ctx(), &s(BUYER), &vec![], &s("D1")).unwrap_err(),
        ContractError::Unauthorized
    );
    l.propose_paydown_and_sell(&ctx(), &coins(10, STABLE), s("D2"), ids(&["a2"]), 10, s(BUYER), 500)
        .unwrap();
    assert_eq!(
        l.accept_paydown(&ctx(), &s("stranger"), &vec![], &s("D2")).unwrap_err(),
        ContractError::Unauthorized
    );
    assert_eq!(
        l.accept_paydown(&ctx(), &s(BUYER), &vec![], &s("D2")).unwrap_err(),
        ContractError::MissingPurchaseFunds
    );
    assert_eq!(
        l.accept_paydown(&ctx(), &s(BUYER), &coins(499, STABLE), &s("D2")).unwrap_err(),
        ContractError::InsufficientPurchaseFunds {
            need: 500,
            need_denom: s(STABLE),
            received: 499,
            received_denom: s(STABLE),
        }
    );
    assert_eq!(
        l.accept_paydown(&ctx_without_grant(), &s(BUYER), &coins(500, STABLE), &s("D2")).unwrap_err(),
        ContractError::MissingEscrowMarkerGrant
    );
    l.cancel_paydown(&ctx(), &s("D2")).unwrap();
    assert_eq!(
        l.accept_paydown(&ctx(), &s(WAREHOUSE), &vec![], &s("D2")).unwrap_err(),
        ContractError::StateError { action: LedgerAction::AcceptPaydown }
    );
}

#[test]
fn execute_paydown_needs_marker_of_closed_pledge() {
    let mut l = Ledger::new();
    l.propose_pledge(&ctx(), s("pledge1"), ids(&["a1"]), 5, s("unknown.marker")).unwrap();
    l.accept_pledge(&ctx(), &coins(5, STABLE), &s("pledge1")).unwrap();
    l.execute_pledge(&ctx(), &s("pledge1")).unwrap();
    l.propose_paydown(&ctx(), &coins(5, STABLE), s("D1"), ids(&["a1"]), 5).unwrap();
    l.accept_paydown(&ctx(), &s(WAREHOUSE), &vec![], &s("D1")).unwrap();
    assert_eq!(
        l.execute_paydown(&ctx(), &asset_markers(), &s("D1")).unwrap_err(),
        ContractError::AssetMarkerNotFound { pledge_id: s("pledge1") }
    );
    assert_eq!(paydown_state(&l, "D1"), PaydownState::Accepted);
    assert_eq!(asset_state(&l, "a1"), Some(AssetState::PaydownProposed));
    assert_eq!(
        l.execute_paydown(&ctx_without_grant(), &asset_markers(), &s("D1")).unwrap_err(),
        ContractError::MissingEscrowMarkerGrant
    );
}

#[test]
fn paydown_can_close_two_pledges() {
    let mut l = executed_pledge();
    l.propose_pledge(&ctx(), s("pledge2"), ids(&["b1"]), 5, s("pool2.marker")).unwrap();
    l.accept_pledge(&ctx(), &coins(5, STABLE), &s("pledge2")).unwrap();
    l.execute_pledge(&ctx(), &s("pledge2")).unwrap();
    l.propose_paydown(&ctx(), &coins(9, STABLE), s("D1"), ids(&["a1", "a2", "b1"]), 9).unwrap();
    l.accept_paydown(&ctx(), &s(WAREHOUSE), &vec![], &s("D1")).unwrap();
    let exec = l.execute_paydown(&ctx(), &asset_markers(), &s("D1")).unwrap();
    assert_eq!(exec.closed_pledges, ids(&["pledge1", "pledge2"]));
    assert_eq!(exec.msgs.len(), 7);
    assert_eq!(pledge_state(&l, "pledge2"), PledgeState::Closed);
}

#[test]
fn queries_list_by_state() {
    let mut l = executed_pledge();
    l.propose_pledge(&ctx(), s("pledge2"), ids(&["b1"]), 5, s("pool2.marker")).unwrap();
    l.propose_paydown(&ctx(), &coins(9, STABLE), s("D1"), ids(&["a1"]), 9).unwrap();
    assert_eq!(l.list_pledge_ids(), ids(&["pledge1", "pledge2"]));
    assert_eq!(l.list_pledges().len(), 2);
    let proposals = l.list_pledge_proposals();
    assert_eq!(proposals.len(), 1);
    assert_eq!(proposals[0].id, "pledge2");
    assert_eq!(l.list_paydown_ids(), ids(&["D1"]));
    assert_eq!(l.list_paydowns().len(), 1);
    assert_eq!(l.list_paydown_proposals().len(), 1);
    assert_eq!(l.list_assets().len(), 3);
    assert!(l.get_pledge(&s("pledge3")).is_none());
}

#[test]
fn escrow_grant_accepts_any_grant_of_address() {
    let both = vec![MarkerAccess::Transfer, MarkerAccess::Withdraw];
    let m = escrow_with(vec![
        AccessGrant { address: s("other"), permissions: both.clone() },
        AccessGrant { address: s(CONTRACT), permissions: vec![MarkerAccess::Withdraw] },
        AccessGrant { address: s(CONTRACT), permissions: both.clone() },
    ]);
    assert!(has_escrow_grant(&m, &s(CONTRACT)));
    assert!(has_escrow_grant(&m, &s("other")));
    assert!(!has_escrow_grant(&m, &s("nobody")));
    assert!(marker_has_grant(&m, &s(CONTRACT), &vec![MarkerAccess::Withdraw]));
    assert!(marker_has_grant(&m, &s(CONTRACT), &vec![]));
    let short = escrow_with(vec![
        AccessGrant { address: s(CONTRACT), permissions: vec![MarkerAccess::Transfer] },
        AccessGrant { address: s(CONTRACT), permissions: vec![MarkerAccess::Withdraw] },
    ]);
    assert!(!has_escrow_grant(&short, &s(CONTRACT)));
}

#[test]
fn pledge_proposal_accepts_later_full_grant() {
    let c = Context {
        facility: facility(),
        contract: s(CONTRACT),
        escrow: escrow_with(vec![
            AccessGrant { address: s(CONTRACT), permissions: vec![MarkerAccess::Transfer] },
            AccessGrant {
                address: s(CONTRACT),
                permissions: vec![MarkerAccess::Transfer, MarkerAccess::Withdraw],
            },
        ]),
    };
    let mut l = Ledger::new();
    l.propose_pledge(&c, s("pledge1"), ids(&["a1"]), 5, s("pool1.marker")).unwrap();
    assert_eq!(pledge_state(&l, "pledge1"), PledgeState::Proposed);
}

#[test]
fn restore_rebuilds_listed_ledger() {
    let mut l = executed_pledge();
    l.propose_paydown_and_sell(&ctx(), &coins(10, STABLE), s("D1"), ids(&["a1"]), 10, s(BUYER), 4).unwrap();
    let r = Ledger::restore(&l.list_assets(), &l.list_pledges(), &l.list_paydowns()).unwrap();
    assert_eq!(r.list_assets(), l.list_assets());
    assert_eq!(r.list_pledges(), l.list_pledges());
    assert_eq!(r.list_paydowns(), l.list_paydowns());
    let mut r = r;
    r.accept_paydown(&ctx(), &s(BUYER), &coins(4, STABLE), &s("D1")).unwrap();
    assert!(r.get_paydown(&s("D1")).unwrap().parties_accepted.buyer);
}

#[test]
fn restore_refuses_sale_terms_on_plain_paydown() {
    let mut l = executed_pledge();
    l.propose_paydown(&ctx(), &coins(10, STABLE), s("D1"), ids(&["a1"]), 10).unwrap();
    let mut paydowns = l.list_paydowns();
    paydowns[0].sale_info = Some(warehouse_facility::PaydownSaleInfo { buyer: s(BUYER), price: 1 });
    assert!(Ledger::restore(&l.list_assets(), &l.list_pledges(), &paydowns).is_none());
}

#[test]
fn restore_refuses_buyer_acceptance_on_plain_paydown() {
    let mut l = executed_pledge();
    l.propose_paydown(&ctx(), &coins(10, STABLE), s("D1"), ids(&["a1"]), 10).unwrap();
    let mut paydowns = l.list_paydowns();
    paydowns[0].parties_accepted.buyer = true;
    assert!(Ledger::restore(&l.list_assets(), &l.list_pledges(), &paydowns).is_none());
}
