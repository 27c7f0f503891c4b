use vstd::prelude::*;

use crate::consistency::{executed_pledge, open_pledge, paid_down, paydown_holds, pledge_holds, reserved};
use crate::inventory::held_ids;
use crate::ledger::{Context, Ledger};
use crate::paydown::accepting_party;
use crate::types::{AssetState, Coin, ContractError, LedgerAction, Marker, PaydownState, PledgeState};

verus! {

/// Accepting a paydown a second time in the name of the same party is refused with
/// `PaydownPartyAlreadyAccepted`, whatever funds come with it: `before` is the ledger
/// of the first, successful acceptance and `after` the ledger that it leaves.
pub proof fn lemma_acceptance_not_repeated(
    before: Ledger,
    after: Ledger,
    ctx: Context,
    sender: Seq<char>,
    funds: Seq<Coin>,
    again: Seq<Coin>,
    id: String,
)
    requires
        before.wf(),
        before.accept_paydown_error(&ctx, sender, funds, id) is None,
        after.paydown_map() == before.paydown_map().insert(
            id@,
            Ledger::accepted_by(
                before.paydown_map()[id@],
                accepting_party(&ctx, before.paydown_map()[id@], sender)->Some_0,
            ),
        ),
    ensures
        after.accept_paydown_error(&ctx, sender, again, id) == Some(
            ContractError::PaydownPartyAlreadyAccepted {
                party: accepting_party(&ctx, before.paydown_map()[id@], sender)->Some_0,
            },
        ),
{
}

/// A pledge that is executed, closed or cancelled cannot be cancelled.
pub proof fn lemma_no_pledge_cancel_after_end(ledger: Ledger, ctx: Context, markers: Seq<Marker>, id: String)
    requires
        ledger.pledge_map().contains_key(id@),
        ledger.pledge_map()[id@].state == PledgeState::Executed || ledger.pledge_map()[id@].state
            == PledgeState::Closed || ledger.pledge_map()[id@].state == PledgeState::Cancelled,
    ensures
        ledger.cancel_pledge_error(&ctx, markers, id) == Some(
            ContractError::StateError { action: LedgerAction::CancelPledge },
        ),
{
}

/// A paydown that is executed or cancelled cannot be cancelled.
pub proof fn lemma_no_paydown_cancel_after_end(ledger: Ledger, ctx: Context, id: String)
    requires
        ledger.paydown_map().contains_key(id@),
        ledger.paydown_map()[id@].state == PaydownState::Executed || ledger.paydown_map()[id@].state
            == PaydownState::Cancelled,
    ensures
        ledger.cancel_paydown_error(&ctx, id) == Some(
            ContractError::StateError { action: LedgerAction::CancelPaydown },
        ),
{
}

/// In a ledger that keeps its inventory consistent (as every ledger built by `new` and the
/// operations does), the assets that the inventory listing reports are those of executed
/// pledges, less those paid down: every listed asset belongs to an executed pledge, and
/// every asset of an executed pledge is listed unless an executed paydown holds it. Besides,
/// an asset is reserved for a paydown exactly when an open paydown holds it, and for a
/// pledge exactly when an open pledge holds it.
pub proof fn lemma_listing_agrees_with_ledger(ledger: Ledger, a: Seq<char>)
    requires
        ledger.inventory_consistent(),
    ensures
        held_ids(ledger.asset_map()).contains(a) ==> pledge_holds(ledger.pledge_map(), a, executed_pledge()),
        pledge_holds(ledger.pledge_map(), a, executed_pledge()) ==> held_ids(ledger.asset_map()).contains(a)
            || paid_down(ledger.paydown_map(), a),
        reserved(ledger.asset_map(), a, AssetState::PaydownProposed) == paydown_holds(ledger.paydown_map(), a),
        reserved(ledger.asset_map(), a, AssetState::PledgeProposed) == pledge_holds(ledger.pledge_map(), a, open_pledge()),
{
    let pm = ledger.pledge_map();
    if pledge_holds(pm, a, executed_pledge()) {
        let k = choose|k: Seq<char>| #[trigger] pm.contains_key(k) && executed_pledge()(pm[k].state) && pm[k].assets.contains(a);
        assert(pm[k].assets.contains(a));
    }
}

} // verus!
