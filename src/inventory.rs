use vstd::prelude::*;

use crate::store::Store;
use crate::types::{id_views, Asset, AssetState};

verus! {

/// `k` is recorded, and, where a state is given, recorded in that state.
pub open spec fn in_state(m: Map<Seq<char>, AssetState>, k: Seq<char>, state: Option<AssetState>) -> bool {
    &&& m.contains_key(k)
    &&& match state {
        Some(s) => m[k] == s,
        None => true,
    }
}

/// `m` with each of `ids` recorded in state `st`.
pub open spec fn with_states(m: Map<Seq<char>, AssetState>, ids: Seq<Seq<char>>, st: AssetState) -> Map<
    Seq<char>,
    AssetState,
> {
    Map::new(
        |k: Seq<char>| m.contains_key(k) || ids.contains(k),
        |k: Seq<char>|
            if ids.contains(k) {
                st
            } else {
                m[k]
            },
    )
}

/// An asset in this state is still held by the facility.
pub open spec fn is_held(st: AssetState) -> bool {
    st == AssetState::Inventory || st == AssetState::PaydownProposed
}

/// The ids that the inventory listing reports.
pub open spec fn held_ids(m: Map<Seq<char>, AssetState>) -> Set<Seq<char>> {
    Set::new(|k: Seq<char>| m.contains_key(k) && is_held(m[k]))
}

/// Records each of `ids` in state `st`, adding the ids that are new.
pub fn set_assets_state(assets: &mut Store<AssetState>, ids: &Vec<String>, st: AssetState)
    requires
        old(assets).wf(),
    ensures
        final(assets).wf(),
        final(assets).view() == with_states(old(assets).view(), id_views(ids@), st),
{
    let ghost m0 = assets.view();
    let mut i: usize = 0;
    while i < ids.len()
        invariant
            i <= ids.len(),
            assets.wf(),
            assets.view() == with_states(m0, id_views(ids@.subrange(0, i as int)), st),
        decreases ids.len() - i,
    {
        let ghost pre = assets.view();
        assets.insert(ids[i].clone(), st);
        proof {
            let a = id_views(ids@.subrange(0, i as int));
            let b = id_views(ids@.subrange(0, i as int + 1));
            assert(b =~= a.push(ids@[i as int]@));
            assert forall|k: Seq<char>| #[trigger] b.contains(k) == (a.contains(k) || k == ids@[i as int]@) by {
                if a.contains(k) {
                    let j = a.index_of(k);
                    assert(b[j] == k);
                }
                if b.contains(k) && k != ids@[i as int]@ {
                    let j = b.index_of(k);
                    assert(a[j] == k);
                }
                if k == ids@[i as int]@ {
                    assert(b[i as int] == k);
                }
            }
            assert(assets.view() =~= with_states(m0, b, st));
        }
        i = i + 1;
    }
    assert(ids@.subrange(0, ids.len() as int) =~= ids@);
}

/// Deletes the records of `ids`.
pub fn remove_assets(assets: &mut Store<AssetState>, ids: &Vec<String>)
    requires
        old(assets).wf(),
    ensures
        final(assets).wf(),
        final(assets).view() == old(assets).view().remove_keys(id_views(ids@).to_set()),
{
    let ghost m0 = assets.view();
    let mut i: usize = 0;
    while i < ids.len()
        invariant
            i <= ids.len(),
            assets.wf(),
            assets.view() == m0.remove_keys(id_views(ids@.subrange(0, i as int)).to_set()),
        decreases ids.len() - i,
    {
        assets.remove(&ids[i]);
        proof {
            let a = id_views(ids@.subrange(0, i as int));
            let b = id_views(ids@.subrange(0, i as int + 1));
            assert(b =~= a.push(ids@[i as int]@));
            assert(b.to_set() =~= a.to_set().insert(ids@[i as int]@)) by {
                assert forall|k: Seq<char>| #[trigger] b.contains(k) == (a.contains(k) || k == ids@[i as int]@) by {
                    if a.contains(k) {
                        let j = a.index_of(k);
                        assert(b[j] == k);
                    }
                    if b.contains(k) && k != ids@[i as int]@ {
                        let j = b.index_of(k);
                        assert(a[j] == k);
                    }
                    if k == ids@[i as int]@ {
                        assert(b[i as int] == k);
                    }
                }
            }
            assert(assets.view() =~= m0.remove_keys(b.to_set()));
        }
        i = i + 1;
    }
    assert(ids@.subrange(0, ids.len() as int) =~= ids@);
}

/// Whether every one of `ids` is recorded (in `state`, where one is given).
pub fn assets_in_inventory(assets: &Store<AssetState>, state: Option<AssetState>, ids: &Vec<String>) -> (r: bool)
    requires
        assets.wf(),
    ensures
        r == forall|j: int| 0 <= j < ids@.len() ==> in_state(assets.view(), #[trigger] ids@[j]@, state),
{
    let mut i: usize = 0;
    while i < ids.len()
        invariant
            i <= ids.len(),
            assets.wf(),
            forall|j: int| 0 <= j < i ==> in_state(assets.view(), #[trigger] ids@[j]@, state),
        decreases ids.len() - i,
    {
        let ok = match assets.get(&ids[i]) {
            Some(s) => match state {
                Some(want) => *s == want,
                None => true,
            },
            None => false,
        };
        if !ok {
            assert(!in_state(assets.view(), ids@[i as int]@, state));
            return false;
        }
        i = i + 1;
    }
    true
}

/// Whether at least one of `ids` is recorded (in `state`, where one is given).
pub fn any_assets_in_inventory(assets: &Store<AssetState>, state: Option<AssetState>, ids: &Vec<String>) -> (r: bool)
    requires
        assets.wf(),
    ensures
        r == exists|j: int| 0 <= j < ids@.len() && in_state(assets.view(), #[trigger] ids@[j]@, state),
{
    let mut i: usize = 0;
    while i < ids.len()
        invariant
            i <= ids.len(),
            assets.wf(),
            forall|j: int| 0 <= j < i ==> !in_state(assets.view(), #[trigger] ids@[j]@, state),
        decreases ids.len() - i,
    {
        let ok = match assets.get(&ids[i]) {
            Some(s) => match state {
                Some(want) => *s == want,
                None => true,
            },
            None => false,
        };
        if ok {
            assert(in_state(assets.view(), ids@[i as int]@, state));
            return true;
        }
        i = i + 1;
    }
    false
}

/// The ids of the assets that the facility still holds: those in `Inventory` or
/// `PaydownProposed`, each once.
pub fn list_inventory(assets: &Store<AssetState>) -> (r: Vec<String>)
    requires
        assets.wf(),
    ensures
        id_views(r@).no_duplicates(),
        id_views(r@).to_set() == held_ids(assets.view()),
{
    let mut r: Vec<String> = Vec::new();
    let n = assets.len();
    let mut i: usize = 0;
    while i < n
        invariant
            i <= n,
            n == assets.key_seq().len(),
            assets.wf(),
            id_views(r@).no_duplicates(),
            forall|k: Seq<char>| #[trigger] id_views(r@).contains(k) <==> (exists|j: int|
                0 <= j < i && assets.key_seq()[j] == k && is_held(assets.view()[k])),
        decreases n - i,
    {
        let st = *assets.value_at(i);
        if st == AssetState::Inventory || st == AssetState::PaydownProposed {
            let ghost pre = id_views(r@);
            let k = assets.key_at(i).clone();
            r.push(k);
            proof {
                let key = assets.key_seq()[i as int];
                assert(id_views(r@) =~= pre.push(key));
                assert(!pre.contains(key)) by {
                    if pre.contains(key) {
                        let j = choose|j: int| 0 <= j < i && assets.key_seq()[j] == key && is_held(assets.view()[key]);
                    }
                }
                assert forall|k: Seq<char>| #[trigger] id_views(r@).contains(k) <==> (exists|j: int|
                    0 <= j < i + 1 && assets.key_seq()[j] == k && is_held(assets.view()[k])) by {
                    if id_views(r@).contains(k) && k != key {
                        let j = id_views(r@).index_of(k);
                        assert(pre[j] == k);
                        assert(pre.contains(k));
                        let w = choose|w: int| 0 <= w < i && assets.key_seq()[w] == k && is_held(assets.view()[k]);
                        assert(0 <= w < i + 1 && assets.key_seq()[w] == k && is_held(assets.view()[k]));
                    }
                    if k != key && (exists|j: int| 0 <= j < i + 1 && assets.key_seq()[j] == k && is_held(assets.view()[k])) {
                        let j = choose|j: int| 0 <= j < i + 1 && assets.key_seq()[j] == k && is_held(assets.view()[k]);
                        assert(j != i);
                        assert(pre.contains(k));
                        let t = pre.index_of(k);
                        assert(id_views(r@)[t] == k);
                    }
                    if k == key {
                        assert(id_views(r@)[id_views(r@).len() - 1] == k);
                        assert(st == assets.view()[key]);
                        assert(0 <= i < i + 1 && assets.key_seq()[i as int] == k && is_held(assets.view()[k]));
                    }
                }
            }
        } else {
            proof {
                let key = assets.key_seq()[i as int];
                assert forall|k: Seq<char>| #[trigger] id_views(r@).contains(k) <==> (exists|j: int|
                    0 <= j < i + 1 && assets.key_seq()[j] == k && is_held(assets.view()[k])) by {
                    if exists|j: int| 0 <= j < i + 1 && assets.key_seq()[j] == k && is_held(assets.view()[k]) {
                        let j = choose|j: int| 0 <= j < i + 1 && assets.key_seq()[j] == k && is_held(assets.view()[k]);
                        if j == i {
                            assert(k == key);
                            assert(st == assets.view()[key]);
                        }
                    }
                    if id_views(r@).contains(k) {
                        let j = choose|j: int| 0 <= j < i && assets.key_seq()[j] == k && is_held(assets.view()[k]);
                        assert(0 <= j < i + 1 && assets.key_seq()[j] == k && is_held(assets.view()[k]));
                    }
                }
            }
        }
        i = i + 1;
    }
    proof {
        assert forall|k: Seq<char>| #[trigger] id_views(r@).to_set().contains(k) == held_ids(assets.view()).contains(k) by {
            if held_ids(assets.view()).contains(k) {
                let j = assets.key_seq().index_of(k);
                assert(assets.key_seq()[j] == k);
            }
        }
        assert(id_views(r@).to_set() =~= held_ids(assets.view()));
    }
    r
}

/// Every recorded asset with its state.
pub fn list_assets(assets: &Store<AssetState>) -> (r: Vec<Asset>)
    requires
        assets.wf(),
    ensures
        r@.len() == assets.key_seq().len(),
        forall|j: int| 0 <= j < r@.len() ==> (#[trigger] r@[j]).id@ == assets.key_seq()[j]
            && r@[j].state == assets.view()[assets.key_seq()[j]],
{
    let mut r: Vec<Asset> = Vec::new();
    let n = assets.len();
    let mut i: usize = 0;
    while i < n
        invariant
            i <= n,
            n == assets.key_seq().len(),
            assets.wf(),
            r@.len() == i,
            forall|j: int| 0 <= j < i ==> (#[trigger] r@[j]).id@ == assets.key_seq()[j]
                && r@[j].state == assets.view()[assets.key_seq()[j]],
        decreases n - i,
    {
        let st = *assets.value_at(i);
        r.push(Asset { id: assets.key_at(i).clone(), state: st });
        i = i + 1;
    }
    r
}

} // verus!
