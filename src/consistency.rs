use vstd::prelude::*;

use crate::inventory::{held_ids, with_states};
use crate::ledger::pledge_with_state;
use crate::paydown::close_pledges;
use crate::types::{AssetState, PaydownState, PaydownView, PledgeState, PledgeView};

verus! {

pub open spec fn pledge_open(s: PledgeState) -> bool {
    s == PledgeState::Proposed || s == PledgeState::Accepted
}

pub open spec fn paydown_open(s: PaydownState) -> bool {
    s == PaydownState::Proposed || s == PaydownState::Accepted
}

pub open spec fn open_pledge() -> spec_fn(PledgeState) -> bool {
    |s: PledgeState| pledge_open(s)
}

pub open spec fn executed_pledge() -> spec_fn(PledgeState) -> bool {
    |s: PledgeState| s == PledgeState::Executed
}

/// Asset `a` is recorded in state `st`.
pub open spec fn reserved(am: Map<Seq<char>, AssetState>, a: Seq<char>, st: AssetState) -> bool {
    am.contains_key(a) && am[a] == st
}

/// Some pledge whose state satisfies `pred` holds asset `a`.
pub open spec fn pledge_holds(pm: Map<Seq<char>, PledgeView>, a: Seq<char>, pred: spec_fn(PledgeState) -> bool) -> bool {
    exists|k: Seq<char>| #[trigger] pm.contains_key(k) && pred(pm[k].state) && pm[k].assets.contains(a)
}

/// Some pledge other than `id` whose state satisfies `pred` holds asset `a`.
pub open spec fn pledge_holds_except(
    pm: Map<Seq<char>, PledgeView>,
    id: Seq<char>,
    a: Seq<char>,
    pred: spec_fn(PledgeState) -> bool,
) -> bool {
    exists|k: Seq<char>| #[trigger] pm.contains_key(k) && k != id && pred(pm[k].state) && pm[k].assets.contains(a)
}

/// Some open paydown holds asset `a`.
pub open spec fn paydown_holds(dm: Map<Seq<char>, PaydownView>, a: Seq<char>) -> bool {
    exists|k: Seq<char>| #[trigger] dm.contains_key(k) && paydown_open(dm[k].state) && dm[k].assets.contains(a)
}

/// Some open paydown other than `id` holds asset `a`.
pub open spec fn paydown_holds_except(dm: Map<Seq<char>, PaydownView>, id: Seq<char>, a: Seq<char>) -> bool {
    exists|k: Seq<char>| #[trigger] dm.contains_key(k) && k != id && paydown_open(dm[k].state) && dm[k].assets.contains(a)
}

/// Some executed paydown holds asset `a`: it has been paid down.
pub open spec fn paid_down(dm: Map<Seq<char>, PaydownView>, a: Seq<char>) -> bool {
    exists|k: Seq<char>| #[trigger] dm.contains_key(k) && dm[k].state == PaydownState::Executed && dm[k].assets.contains(a)
}

/// The inventory agrees with the pledges and paydowns:
/// an asset is `PledgeProposed` exactly when an open pledge holds it;
/// it is `PaydownProposed` exactly when an open paydown holds it;
/// every asset that the inventory listing reports belongs to an executed pledge;
/// every asset of an executed pledge is either listed or paid down;
/// and no asset is held by two open pledges, nor by two open paydowns.
pub open spec fn consistent(
    am: Map<Seq<char>, AssetState>,
    pm: Map<Seq<char>, PledgeView>,
    dm: Map<Seq<char>, PaydownView>,
) -> bool {
    &&& forall|a: Seq<char>|
        #![trigger reserved(am, a, AssetState::PledgeProposed)]
        #![trigger pledge_holds(pm, a, open_pledge())]
        reserved(am, a, AssetState::PledgeProposed) == pledge_holds(pm, a, open_pledge())
    &&& forall|a: Seq<char>|
        #![trigger reserved(am, a, AssetState::PaydownProposed)]
        #![trigger paydown_holds(dm, a)]
        reserved(am, a, AssetState::PaydownProposed) == paydown_holds(dm, a)
    &&& forall|a: Seq<char>| #[trigger] held_ids(am).contains(a) ==> pledge_holds(pm, a, executed_pledge())
    &&& forall|k: Seq<char>, a: Seq<char>|
        pm.contains_key(k) && pm[k].state == PledgeState::Executed && #[trigger] pm[k].assets.contains(a)
            ==> held_ids(am).contains(a) || paid_down(dm, a)
    &&& forall|k1: Seq<char>, k2: Seq<char>, a: Seq<char>|
        pm.contains_key(k1) && pm.contains_key(k2) && k1 != k2 && pledge_open(pm[k1].state)
            && pledge_open(pm[k2].state) && #[trigger] pm[k1].assets.contains(a) ==> !#[trigger] pm[k2].assets.contains(a)
    &&& forall|k1: Seq<char>, k2: Seq<char>, a: Seq<char>|
        dm.contains_key(k1) && dm.contains_key(k2) && k1 != k2 && paydown_open(dm[k1].state)
            && paydown_open(dm[k2].state) && #[trigger] dm[k1].assets.contains(a) ==> !#[trigger] dm[k2].assets.contains(a)
}

pub proof fn lemma_pledge_holds_split(pm: Map<Seq<char>, PledgeView>, id: Seq<char>, a: Seq<char>, pred: spec_fn(PledgeState) -> bool)
    ensures
        pledge_holds(pm, a, pred) == (pledge_holds_except(pm, id, a, pred) || (pm.contains_key(id) && pred(pm[id].state)
            && pm[id].assets.contains(a))),
{
    if pledge_holds(pm, a, pred) {
        let k = choose|k: Seq<char>| #[trigger] pm.contains_key(k) && pred(pm[k].state) && pm[k].assets.contains(a);
        if k != id {
            assert(pledge_holds_except(pm, id, a, pred));
        }
    }
    if pledge_holds_except(pm, id, a, pred) {
        let k = choose|k: Seq<char>| #[trigger] pm.contains_key(k) && k != id && pred(pm[k].state) && pm[k].assets.contains(a);
        assert(pledge_holds(pm, a, pred));
    }
    if pm.contains_key(id) && pred(pm[id].state) && pm[id].assets.contains(a) {
        assert(pledge_holds(pm, a, pred));
    }
}

pub proof fn lemma_pledge_holds_except_insert(
    pm: Map<Seq<char>, PledgeView>,
    id: Seq<char>,
    p: PledgeView,
    a: Seq<char>,
    pred: spec_fn(PledgeState) -> bool,
)
    ensures
        pledge_holds_except(pm.insert(id, p), id, a, pred) == pledge_holds_except(pm, id, a, pred),
{
    let pm2 = pm.insert(id, p);
    if pledge_holds_except(pm2, id, a, pred) {
        let k = choose|k: Seq<char>| #[trigger] pm2.contains_key(k) && k != id && pred(pm2[k].state) && pm2[k].assets.contains(a);
        assert(pm.contains_key(k));
    }
    if pledge_holds_except(pm, id, a, pred) {
        let k = choose|k: Seq<char>| #[trigger] pm.contains_key(k) && k != id && pred(pm[k].state) && pm[k].assets.contains(a);
        assert(pm2.contains_key(k));
    }
}

pub proof fn lemma_paydown_holds_split(dm: Map<Seq<char>, PaydownView>, id: Seq<char>, a: Seq<char>)
    ensures
        paydown_holds(dm, a) == (paydown_holds_except(dm, id, a) || (dm.contains_key(id) && paydown_open(dm[id].state)
            && dm[id].assets.contains(a))),
{
    if paydown_holds(dm, a) {
        let k = choose|k: Seq<char>| #[trigger] dm.contains_key(k) && paydown_open(dm[k].state) && dm[k].assets.contains(a);
        if k != id {
            assert(paydown_holds_except(dm, id, a));
        }
    }
    if paydown_holds_except(dm, id, a) {
        let k = choose|k: Seq<char>| #[trigger] dm.contains_key(k) && k != id && paydown_open(dm[k].state) && dm[k].assets.contains(a);
        assert(paydown_holds(dm, a));
    }
    if dm.contains_key(id) && paydown_open(dm[id].state) && dm[id].assets.contains(a) {
        assert(paydown_holds(dm, a));
    }
}

pub proof fn lemma_paydown_holds_except_insert(dm: Map<Seq<char>, PaydownView>, id: Seq<char>, d: PaydownView, a: Seq<char>)
    ensures
        paydown_holds_except(dm.insert(id, d), id, a) == paydown_holds_except(dm, id, a),
{
    let dm2 = dm.insert(id, d);
    if paydown_holds_except(dm2, id, a) {
        let k = choose|k: Seq<char>| #[trigger] dm2.contains_key(k) && k != id && paydown_open(dm2[k].state) && dm2[k].assets.contains(a);
        assert(dm.contains_key(k));
    }
    if paydown_holds_except(dm, id, a) {
        let k = choose|k: Seq<char>| #[trigger] dm.contains_key(k) && k != id && paydown_open(dm[k].state) && dm[k].assets.contains(a);
        assert(dm2.contains_key(k));
    }
}

/// Proposing pledge `p` under the new id `id`, over assets that the inventory does not
/// record, keeps the inventory consistent.
pub proof fn lemma_propose_pledge(
    am: Map<Seq<char>, AssetState>,
    pm: Map<Seq<char>, PledgeView>,
    dm: Map<Seq<char>, PaydownView>,
    id: Seq<char>,
    p: PledgeView,
)
    requires
        consistent(am, pm, dm),
        !pm.contains_key(id),
        p.state == PledgeState::Proposed,
        forall|j: int| 0 <= j < p.assets.len() ==> !am.contains_key(#[trigger] p.assets[j]),
    ensures
        consistent(with_states(am, p.assets, AssetState::PledgeProposed), pm.insert(id, p), dm),
{
    let am2 = with_states(am, p.assets, AssetState::PledgeProposed);
    let pm2 = pm.insert(id, p);
    assert forall|a: Seq<char>| p.assets.contains(a) implies !am.contains_key(a) by {
        let j = choose|j: int| 0 <= j < p.assets.len() && p.assets[j] == a;
        assert(!am.contains_key(p.assets[j]));
    }
    assert forall|a: Seq<char>| reserved(am2, a, AssetState::PledgeProposed) == pledge_holds(pm2, a, open_pledge()) by {
        lemma_pledge_holds_split(pm2, id, a, open_pledge());
        lemma_pledge_holds_split(pm, id, a, open_pledge());
        lemma_pledge_holds_except_insert(pm, id, p, a, open_pledge());
        assert(reserved(am, a, AssetState::PledgeProposed) == pledge_holds(pm, a, open_pledge()));
    }
    assert forall|a: Seq<char>| reserved(am2, a, AssetState::PaydownProposed) == paydown_holds(dm, a) by {
        assert(reserved(am, a, AssetState::PaydownProposed) == paydown_holds(dm, a));
    }
    assert forall|a: Seq<char>| #[trigger] held_ids(am2).contains(a) implies pledge_holds(pm2, a, executed_pledge()) by {
        assert(held_ids(am).contains(a));
        lemma_pledge_holds_split(pm2, id, a, executed_pledge());
        lemma_pledge_holds_split(pm, id, a, executed_pledge());
        lemma_pledge_holds_except_insert(pm, id, p, a, executed_pledge());
    }
    assert forall|k1: Seq<char>, k2: Seq<char>, a: Seq<char>|
        pm2.contains_key(k1) && pm2.contains_key(k2) && k1 != k2 && pledge_open(pm2[k1].state)
            && pledge_open(pm2[k2].state) && #[trigger] pm2[k1].assets.contains(a) implies !#[trigger] pm2[k2].assets.contains(a) by {
        if k1 == id && pm2[k2].assets.contains(a) {
            assert(pledge_holds(pm, a, open_pledge()));
            assert(reserved(am, a, AssetState::PledgeProposed));
        }
        if k2 == id && pm2[k2].assets.contains(a) {
            assert(pledge_holds(pm, a, open_pledge()));
            assert(reserved(am, a, AssetState::PledgeProposed));
        }
    }
    assert forall|k: Seq<char>, a: Seq<char>|
        pm2.contains_key(k) && pm2[k].state == PledgeState::Executed && #[trigger] pm2[k].assets.contains(a)
            implies held_ids(am2).contains(a) || paid_down(dm, a) by {
        assert(pm[k].assets.contains(a));
        if p.assets.contains(a) {
            assert(!am.contains_key(a));
        }
    }
}

/// Replacing pledge `id` by `p`, with the same assets, open exactly when it was and
/// executed exactly when it was, keeps the inventory consistent.
pub proof fn lemma_pledge_restate(
    am: Map<Seq<char>, AssetState>,
    pm: Map<Seq<char>, PledgeView>,
    dm: Map<Seq<char>, PaydownView>,
    id: Seq<char>,
    p: PledgeView,
)
    requires
        consistent(am, pm, dm),
        pm.contains_key(id),
        p.assets == pm[id].assets,
        pledge_open(p.state) == pledge_open(pm[id].state),
        (p.state == PledgeState::Executed) == (pm[id].state == PledgeState::Executed),
    ensures
        consistent(am, pm.insert(id, p), dm),
{
    let pm2 = pm.insert(id, p);
    assert forall|a: Seq<char>| reserved(am, a, AssetState::PledgeProposed) == pledge_holds(pm2, a, open_pledge()) by {
        lemma_pledge_holds_split(pm2, id, a, open_pledge());
        lemma_pledge_holds_split(pm, id, a, open_pledge());
        lemma_pledge_holds_except_insert(pm, id, p, a, open_pledge());
        assert(reserved(am, a, AssetState::PledgeProposed) == pledge_holds(pm, a, open_pledge()));
    }
    assert forall|a: Seq<char>| #[trigger] held_ids(am).contains(a) implies pledge_holds(pm2, a, executed_pledge()) by {
        lemma_pledge_holds_split(pm2, id, a, executed_pledge());
        lemma_pledge_holds_split(pm, id, a, executed_pledge());
        lemma_pledge_holds_except_insert(pm, id, p, a, executed_pledge());
    }
    assert forall|k1: Seq<char>, k2: Seq<char>, a: Seq<char>|
        pm2.contains_key(k1) && pm2.contains_key(k2) && k1 != k2 && pledge_open(pm2[k1].state)
            && pledge_open(pm2[k2].state) && #[trigger] pm2[k1].assets.contains(a) implies !#[trigger] pm2[k2].assets.contains(a) by {
        assert(pm[k1].assets.contains(a));
    }
    assert forall|k: Seq<char>, a: Seq<char>|
        pm2.contains_key(k) && pm2[k].state == PledgeState::Executed && #[trigger] pm2[k].assets.contains(a)
            implies held_ids(am).contains(a) || paid_down(dm, a) by {
        assert(pm[k].assets.contains(a));
    }
}

/// Cancelling open pledge `id` and dropping its assets keeps the inventory consistent.
pub proof fn lemma_cancel_pledge(
    am: Map<Seq<char>, AssetState>,
    pm: Map<Seq<char>, PledgeView>,
    dm: Map<Seq<char>, PaydownView>,
    id: Seq<char>,
)
    requires
        consistent(am, pm, dm),
        pm.contains_key(id),
        pledge_open(pm[id].state),
    ensures
        consistent(
            am.remove_keys(pm[id].assets.to_set()),
            pm.insert(id, pledge_with_state(pm[id], PledgeState::Cancelled)),
            dm,
        ),
{
    let s = pm[id].assets;
    let p = pledge_with_state(pm[id], PledgeState::Cancelled);
    let am2 = am.remove_keys(s.to_set());
    let pm2 = pm.insert(id, p);
    assert forall|a: Seq<char>| reserved(am2, a, AssetState::PledgeProposed) == pledge_holds(pm2, a, open_pledge()) by {
        lemma_pledge_holds_split(pm2, id, a, open_pledge());
        lemma_pledge_holds_split(pm, id, a, open_pledge());
        lemma_pledge_holds_except_insert(pm, id, p, a, open_pledge());
        assert(reserved(am, a, AssetState::PledgeProposed) == pledge_holds(pm, a, open_pledge()));
        if s.contains(a) && pledge_holds_except(pm, id, a, open_pledge()) {
            let k = choose|k: Seq<char>| #[trigger] pm.contains_key(k) && k != id && open_pledge()(pm[k].state) && pm[k].assets.contains(a);
            assert(!pm[k].assets.contains(a));
        }
    }
    assert forall|a: Seq<char>| reserved(am2, a, AssetState::PaydownProposed) == paydown_holds(dm, a) by {
        assert(reserved(am, a, AssetState::PaydownProposed) == paydown_holds(dm, a));
        if s.contains(a) {
            assert(pledge_holds(pm, a, open_pledge()));
            assert(reserved(am, a, AssetState::PledgeProposed));
        }
    }
    assert forall|a: Seq<char>| #[trigger] held_ids(am2).contains(a) implies pledge_holds(pm2, a, executed_pledge()) by {
        assert(held_ids(am).contains(a));
        lemma_pledge_holds_split(pm2, id, a, executed_pledge());
        lemma_pledge_holds_split(pm, id, a, executed_pledge());
        lemma_pledge_holds_except_insert(pm, id, p, a, executed_pledge());
    }
    assert forall|k1: Seq<char>, k2: Seq<char>, a: Seq<char>|
        pm2.contains_key(k1) && pm2.contains_key(k2) && k1 != k2 && pledge_open(pm2[k1].state)
            && pledge_open(pm2[k2].state) && #[trigger] pm2[k1].assets.contains(a) implies !#[trigger] pm2[k2].assets.contains(a) by {
        assert(pm[k1].assets.contains(a));
    }
    assert forall|k: Seq<char>, a: Seq<char>|
        pm2.contains_key(k) && pm2[k].state == PledgeState::Executed && #[trigger] pm2[k].assets.contains(a)
            implies held_ids(am2).contains(a) || paid_down(dm, a) by {
        assert(pm[k].assets.contains(a));
        if s.contains(a) {
            assert(pledge_holds(pm, a, open_pledge()));
            assert(reserved(am, a, AssetState::PledgeProposed));
        }
    }
}

/// Executing accepted pledge `id`, with its assets entering the inventory, keeps the
/// inventory consistent.
pub proof fn lemma_execute_pledge(
    am: Map<Seq<char>, AssetState>,
    pm: Map<Seq<char>, PledgeView>,
    dm: Map<Seq<char>, PaydownView>,
    id: Seq<char>,
)
    requires
        consistent(am, pm, dm),
        pm.contains_key(id),
        pm[id].state == PledgeState::Accepted,
    ensures
        consistent(
            with_states(am, pm[id].assets, AssetState::Inventory),
            pm.insert(id, pledge_with_state(pm[id], PledgeState::Executed)),
            dm,
        ),
{
    let s = pm[id].assets;
    let p = pledge_with_state(pm[id], PledgeState::Executed);
    let am2 = with_states(am, s, AssetState::Inventory);
    let pm2 = pm.insert(id, p);
    assert forall|a: Seq<char>| reserved(am2, a, AssetState::PledgeProposed) == pledge_holds(pm2, a, open_pledge()) by {
        lemma_pledge_holds_split(pm2, id, a, open_pledge());
        lemma_pledge_holds_split(pm, id, a, open_pledge());
        lemma_pledge_holds_except_insert(pm, id, p, a, open_pledge());
        assert(reserved(am, a, AssetState::PledgeProposed) == pledge_holds(pm, a, open_pledge()));
        if s.contains(a) && pledge_holds_except(pm, id, a, open_pledge()) {
            let k = choose|k: Seq<char>| #[trigger] pm.contains_key(k) && k != id && open_pledge()(pm[k].state) && pm[k].assets.contains(a);
            assert(!pm[k].assets.contains(a));
        }
    }
    assert forall|a: Seq<char>| reserved(am2, a, AssetState::PaydownProposed) == paydown_holds(dm, a) by {
        assert(reserved(am, a, AssetState::PaydownProposed) == paydown_holds(dm, a));
        if s.contains(a) {
            assert(pledge_holds(pm, a, open_pledge()));
            assert(reserved(am, a, AssetState::PledgeProposed));
        }
    }
    assert forall|a: Seq<char>| #[trigger] held_ids(am2).contains(a) implies pledge_holds(pm2, a, executed_pledge()) by {
        lemma_pledge_holds_split(pm2, id, a, executed_pledge());
        lemma_pledge_holds_split(pm, id, a, executed_pledge());
        lemma_pledge_holds_except_insert(pm, id, p, a, executed_pledge());
        if !s.contains(a) {
            assert(held_ids(am).contains(a));
        }
    }
    assert forall|k1: Seq<char>, k2: Seq<char>, a: Seq<char>|
        pm2.contains_key(k1) && pm2.contains_key(k2) && k1 != k2 && pledge_open(pm2[k1].state)
            && pledge_open(pm2[k2].state) && #[trigger] pm2[k1].assets.contains(a) implies !#[trigger] pm2[k2].assets.contains(a) by {
        assert(pm[k1].assets.contains(a));
    }
    assert forall|k: Seq<char>, a: Seq<char>|
        pm2.contains_key(k) && pm2[k].state == PledgeState::Executed && #[trigger] pm2[k].assets.contains(a)
            implies held_ids(am2).contains(a) || paid_down(dm, a) by {
        if k != id {
            assert(pm[k].assets.contains(a));
        }
    }
}

/// Proposing paydown `d` under the new id `id`, over assets that are all free in the
/// inventory, keeps the inventory consistent.
pub proof fn lemma_propose_paydown(
    am: Map<Seq<char>, AssetState>,
    pm: Map<Seq<char>, PledgeView>,
    dm: Map<Seq<char>, PaydownView>,
    id: Seq<char>,
    d: PaydownView,
)
    requires
        consistent(am, pm, dm),
        !dm.contains_key(id),
        d.state == PaydownState::Proposed,
        forall|j: int| 0 <= j < d.assets.len() ==> reserved(am, #[trigger] d.assets[j], AssetState::Inventory),
    ensures
        consistent(with_states(am, d.assets, AssetState::PaydownProposed), pm, dm.insert(id, d)),
{
    let am2 = with_states(am, d.assets, AssetState::PaydownProposed);
    let dm2 = dm.insert(id, d);
    assert forall|a: Seq<char>| d.assets.contains(a) implies reserved(am, a, AssetState::Inventory) by {
        let j = choose|j: int| 0 <= j < d.assets.len() && d.assets[j] == a;
        assert(reserved(am, d.assets[j], AssetState::Inventory));
    }
    assert forall|a: Seq<char>| reserved(am2, a, AssetState::PledgeProposed) == pledge_holds(pm, a, open_pledge()) by {
        assert(reserved(am, a, AssetState::PledgeProposed) == pledge_holds(pm, a, open_pledge()));
    }
    assert forall|a: Seq<char>| reserved(am2, a, AssetState::PaydownProposed) == paydown_holds(dm2, a) by {
        lemma_paydown_holds_split(dm2, id, a);
        lemma_paydown_holds_split(dm, id, a);
        lemma_paydown_holds_except_insert(dm, id, d, a);
        assert(reserved(am, a, AssetState::PaydownProposed) == paydown_holds(dm, a));
    }
    assert forall|a: Seq<char>| #[trigger] held_ids(am2).contains(a) implies pledge_holds(pm, a, executed_pledge()) by {
        assert(held_ids(am).contains(a));
    }
    assert forall|k1: Seq<char>, k2: Seq<char>, a: Seq<char>|
        dm2.contains_key(k1) && dm2.contains_key(k2) && k1 != k2 && paydown_open(dm2[k1].state)
            && paydown_open(dm2[k2].state) && #[trigger] dm2[k1].assets.contains(a) implies !#[trigger] dm2[k2].assets.contains(a) by {
        if k1 == id && dm2[k2].assets.contains(a) {
            assert(paydown_holds(dm, a));
            assert(reserved(am, a, AssetState::PaydownProposed));
        }
        if k2 == id && dm2[k2].assets.contains(a) {
            assert(paydown_holds(dm, a));
            assert(reserved(am, a, AssetState::PaydownProposed));
        }
    }
    assert forall|k: Seq<char>, a: Seq<char>|
        pm.contains_key(k) && pm[k].state == PledgeState::Executed && #[trigger] pm[k].assets.contains(a)
            implies held_ids(am2).contains(a) || paid_down(dm2, a) by {
        assert(pm[k].assets.contains(a));
        if paid_down(dm, a) {
            let w = choose|w: Seq<char>| #[trigger] dm.contains_key(w) && dm[w].state == PaydownState::Executed && dm[w].assets.contains(a);
            assert(dm2.contains_key(w));
        }
    }
}

/// Replacing paydown `id` by `d`, with the same assets, open exactly when it was and
/// executed exactly when it was, keeps the inventory consistent.
pub proof fn lemma_paydown_restate(
    am: Map<Seq<char>, AssetState>,
    pm: Map<Seq<char>, PledgeView>,
    dm: Map<Seq<char>, PaydownView>,
    id: Seq<char>,
    d: PaydownView,
)
    requires
        consistent(am, pm, dm),
        dm.contains_key(id),
        d.assets == dm[id].assets,
        paydown_open(d.state) == paydown_open(dm[id].state),
        (d.state == PaydownState::Executed) == (dm[id].state == PaydownState::Executed),
    ensures
        consistent(am, pm, dm.insert(id, d)),
{
    let dm2 = dm.insert(id, d);
    assert forall|a: Seq<char>| reserved(am, a, AssetState::PaydownProposed) == paydown_holds(dm2, a) by {
        lemma_paydown_holds_split(dm2, id, a);
        lemma_paydown_holds_split(dm, id, a);
        lemma_paydown_holds_except_insert(dm, id, d, a);
        assert(reserved(am, a, AssetState::PaydownProposed) == paydown_holds(dm, a));
    }
    assert forall|k1: Seq<char>, k2: Seq<char>, a: Seq<char>|
        dm2.contains_key(k1) && dm2.contains_key(k2) && k1 != k2 && paydown_open(dm2[k1].state)
            && paydown_open(dm2[k2].state) && #[trigger] dm2[k1].assets.contains(a) implies !#[trigger] dm2[k2].assets.contains(a) by {
        assert(dm[k1].assets.contains(a));
    }
    assert forall|k: Seq<char>, a: Seq<char>|
        pm.contains_key(k) && pm[k].state == PledgeState::Executed && #[trigger] pm[k].assets.contains(a)
            implies held_ids(am).contains(a) || paid_down(dm2, a) by {
        assert(pm[k].assets.contains(a));
        if paid_down(dm, a) {
            let w = choose|w: Seq<char>| #[trigger] dm.contains_key(w) && dm[w].state == PaydownState::Executed && dm[w].assets.contains(a);
            assert(dm2.contains_key(w));
        }
    }
}

/// Cancelling open paydown `d` (now `after`, with the same assets) and freeing its assets
/// keeps the inventory consistent.
pub proof fn lemma_cancel_paydown(
    am: Map<Seq<char>, AssetState>,
    pm: Map<Seq<char>, PledgeView>,
    dm: Map<Seq<char>, PaydownView>,
    id: Seq<char>,
    after: PaydownView,
)
    requires
        consistent(am, pm, dm),
        dm.contains_key(id),
        paydown_open(dm[id].state),
        after.assets == dm[id].assets,
        after.state == PaydownState::Cancelled,
    ensures
        consistent(with_states(am, dm[id].assets, AssetState::Inventory), pm, dm.insert(id, after)),
{
    let s = dm[id].assets;
    let am2 = with_states(am, s, AssetState::Inventory);
    let dm2 = dm.insert(id, after);
    assert forall|a: Seq<char>| reserved(am2, a, AssetState::PledgeProposed) == pledge_holds(pm, a, open_pledge()) by {
        assert(reserved(am, a, AssetState::PledgeProposed) == pledge_holds(pm, a, open_pledge()));
        if s.contains(a) {
            assert(paydown_holds(dm, a));
            assert(reserved(am, a, AssetState::PaydownProposed));
        }
    }
    assert forall|a: Seq<char>| reserved(am2, a, AssetState::PaydownProposed) == paydown_holds(dm2, a) by {
        lemma_paydown_holds_split(dm2, id, a);
        lemma_paydown_holds_split(dm, id, a);
        lemma_paydown_holds_except_insert(dm, id, after, a);
        assert(reserved(am, a, AssetState::PaydownProposed) == paydown_holds(dm, a));
        if s.contains(a) && paydown_holds_except(dm, id, a) {
            let k = choose|k: Seq<char>| #[trigger] dm.contains_key(k) && k != id && paydown_open(dm[k].state) && dm[k].assets.contains(a);
            assert(!dm[k].assets.contains(a));
        }
    }
    assert forall|a: Seq<char>| #[trigger] held_ids(am2).contains(a) implies pledge_holds(pm, a, executed_pledge()) by {
        if s.contains(a) {
            assert(paydown_holds(dm, a));
            assert(reserved(am, a, AssetState::PaydownProposed));
        }
        assert(held_ids(am).contains(a));
    }
    assert forall|k1: Seq<char>, k2: Seq<char>, a: Seq<char>|
        dm2.contains_key(k1) && dm2.contains_key(k2) && k1 != k2 && paydown_open(dm2[k1].state)
            && paydown_open(dm2[k2].state) && #[trigger] dm2[k1].assets.contains(a) implies !#[trigger] dm2[k2].assets.contains(a) by {
        assert(dm[k1].assets.contains(a));
    }
    assert forall|k: Seq<char>, a: Seq<char>|
        pm.contains_key(k) && pm[k].state == PledgeState::Executed && #[trigger] pm[k].assets.contains(a)
            implies held_ids(am2).contains(a) || paid_down(dm2, a) by {
        assert(pm[k].assets.contains(a));
        if paid_down(dm, a) {
            let w = choose|w: Seq<char>| #[trigger] dm.contains_key(w) && dm[w].state == PaydownState::Executed && dm[w].assets.contains(a);
            assert(dm2.contains_key(w));
        }
    }
}

/// Executing accepted paydown `id` (now `after`, with the same assets), taking its
/// assets out of the inventory, and closing executed pledges none of whose assets is
/// still listed, keeps the inventory consistent.
pub proof fn lemma_execute_paydown(
    am: Map<Seq<char>, AssetState>,
    pm: Map<Seq<char>, PledgeView>,
    dm: Map<Seq<char>, PaydownView>,
    id: Seq<char>,
    after: PaydownView,
    closed: Set<Seq<char>>,
)
    requires
        consistent(am, pm, dm),
        dm.contains_key(id),
        dm[id].state == PaydownState::Accepted,
        after.assets == dm[id].assets,
        after.state == PaydownState::Executed,
        forall|k: Seq<char>| #[trigger] closed.contains(k) ==> pm.contains_key(k) && pm[k].state == PledgeState::Executed
            && forall|j: int| 0 <= j < pm[k].assets.len() ==> !held_ids(am.remove_keys(dm[id].assets.to_set())).contains(#[trigger] pm[k].assets[j]),
    ensures
        consistent(am.remove_keys(dm[id].assets.to_set()), close_pledges(pm, closed), dm.insert(id, after)),
{
    let s = dm[id].assets;
    let am2 = am.remove_keys(s.to_set());
    let pm2 = close_pledges(pm, closed);
    let dm2 = dm.insert(id, after);
    assert forall|a: Seq<char>| pledge_holds(pm2, a, open_pledge()) == pledge_holds(pm, a, open_pledge()) by {
        if pledge_holds(pm2, a, open_pledge()) {
            let k = choose|k: Seq<char>| #[trigger] pm2.contains_key(k) && open_pledge()(pm2[k].state) && pm2[k].assets.contains(a);
            assert(pm.contains_key(k));
        }
        if pledge_holds(pm, a, open_pledge()) {
            let k = choose|k: Seq<char>| #[trigger] pm.contains_key(k) && open_pledge()(pm[k].state) && pm[k].assets.contains(a);
            assert(pm2.contains_key(k));
        }
    }
    assert forall|a: Seq<char>| reserved(am2, a, AssetState::PledgeProposed) == pledge_holds(pm2, a, open_pledge()) by {
        assert(reserved(am, a, AssetState::PledgeProposed) == pledge_holds(pm, a, open_pledge()));
        if s.contains(a) {
            assert(paydown_holds(dm, a));
            assert(reserved(am, a, AssetState::PaydownProposed));
        }
    }
    assert forall|a: Seq<char>| reserved(am2, a, AssetState::PaydownProposed) == paydown_holds(dm2, a) by {
        lemma_paydown_holds_split(dm2, id, a);
        lemma_paydown_holds_split(dm, id, a);
        lemma_paydown_holds_except_insert(dm, id, after, a);
        assert(reserved(am, a, AssetState::PaydownProposed) == paydown_holds(dm, a));
        if s.contains(a) && paydown_holds_except(dm, id, a) {
            let k = choose|k: Seq<char>| #[trigger] dm.contains_key(k) && k != id && paydown_open(dm[k].state) && dm[k].assets.contains(a);
            assert(!dm[k].assets.contains(a));
        }
    }
    assert forall|a: Seq<char>| #[trigger] held_ids(am2).contains(a) implies pledge_holds(pm2, a, executed_pledge()) by {
        assert(held_ids(am).contains(a));
        let k = choose|k: Seq<char>| #[trigger] pm.contains_key(k) && executed_pledge()(pm[k].state) && pm[k].assets.contains(a);
        if closed.contains(k) {
            let j = choose|j: int| 0 <= j < pm[k].assets.len() && pm[k].assets[j] == a;
            assert(!held_ids(am2).contains(pm[k].assets[j]));
        }
        assert(pm2.contains_key(k) && pm2[k] == pm[k]);
    }
    assert forall|k1: Seq<char>, k2: Seq<char>, a: Seq<char>|
        pm2.contains_key(k1) && pm2.contains_key(k2) && k1 != k2 && pledge_open(pm2[k1].state)
            && pledge_open(pm2[k2].state) && #[trigger] pm2[k1].assets.contains(a) implies !#[trigger] pm2[k2].assets.contains(a) by {
        assert(pm2[k1] == pm[k1]);
        assert(pm2[k2] == pm[k2]);
    }
    assert forall|k1: Seq<char>, k2: Seq<char>, a: Seq<char>|
        dm2.contains_key(k1) && dm2.contains_key(k2) && k1 != k2 && paydown_open(dm2[k1].state)
            && paydown_open(dm2[k2].state) && #[trigger] dm2[k1].assets.contains(a) implies !#[trigger] dm2[k2].assets.contains(a) by {
        assert(dm[k1].assets.contains(a));
    }
    assert forall|k: Seq<char>, a: Seq<char>|
        pm2.contains_key(k) && pm2[k].state == PledgeState::Executed && #[trigger] pm2[k].assets.contains(a)
            implies held_ids(am2).contains(a) || paid_down(dm2, a) by {
        assert(pm2[k] == pm[k]);
        assert(pm[k].assets.contains(a));
        if s.contains(a) {
            assert(dm2.contains_key(id));
        } else if paid_down(dm, a) {
            let w = choose|w: Seq<char>| #[trigger] dm.contains_key(w) && dm[w].state == PaydownState::Executed && dm[w].assets.contains(a);
            assert(dm2.contains_key(w));
        }
    }
}

} // verus!
