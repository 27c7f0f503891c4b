use vstd::prelude::*;

use crate::types::{AccessGrant, Marker, MarkerAccess};

verus! {

/// The grant holds every permission in `required`.
pub open spec fn grant_covers(g: AccessGrant, required: Seq<MarkerAccess>) -> bool {
    forall|j: int| 0 <= j < required.len() ==> g.permissions@.contains(#[trigger] required[j])
}

/// Some grant of `m` names `address` and holds every permission in `required`.
pub open spec fn marker_grants(m: Marker, address: Seq<char>, required: Seq<MarkerAccess>) -> bool {
    exists|i: int|
        0 <= i < m.permissions@.len() && #[trigger] m.permissions@[i].address@ == address
            && grant_covers(m.permissions@[i], required)
}

/// The permissions that money-moving operations need on the escrow marker.
pub open spec fn escrow_permissions() -> Seq<MarkerAccess> {
    seq![MarkerAccess::Transfer, MarkerAccess::Withdraw]
}

fn contains_access(perms: &Vec<MarkerAccess>, a: MarkerAccess) -> (r: bool)
    ensures
        r == perms@.contains(a),
{
    let mut i: usize = 0;
    while i < perms.len()
        invariant
            i <= perms.len(),
            forall|j: int| 0 <= j < i ==> perms@[j] != a,
        decreases perms.len() - i,
    {
        if perms[i] == a {
            return true;
        }
        i = i + 1;
    }
    false
}

/// Whether `grant` holds every permission in `required`.
fn grant_has_all(grant: &AccessGrant, required: &Vec<MarkerAccess>) -> (r: bool)
    ensures
        r == grant_covers(*grant, required@),
{
    let mut k: usize = 0;
    while k < required.len()
        invariant
            k <= required.len(),
            forall|j: int| 0 <= j < k ==> grant.permissions@.contains(#[trigger] required@[j]),
        decreases required.len() - k,
    {
        if !contains_access(&grant.permissions, required[k]) {
            return false;
        }
        k = k + 1;
    }
    true
}

/// Whether some grant of `marker` names `address` and holds all of `required`.
pub fn marker_has_grant(marker: &Marker, address: &String, required: &Vec<MarkerAccess>) -> (r:
    bool)
    ensures
        r == marker_grants(*marker, address@, required@),
{
    let grants = &marker.permissions;
    let mut i: usize = 0;
    while i < grants.len()
        invariant
            i <= grants.len(),
            grants == &marker.permissions,
            forall|j: int|
                0 <= j < i ==> !((#[trigger] grants@[j]).address@ == address@ && grant_covers(
                    grants@[j],
                    required@,
                )),
        decreases grants.len() - i,
    {
        if grants[i].address == *address && grant_has_all(&grants[i], required) {
            return true;
        }
        i = i + 1;
    }
    false
}

/// The address of the first marker in `markers` whose denomination is `denom`.
pub open spec fn marker_address_of(markers: Seq<Marker>, denom: Seq<char>) -> Option<Seq<char>>
    decreases markers.len(),
{
    if markers.len() == 0 {
        None
    } else if markers[0].denom@ == denom {
        Some(markers[0].address@)
    } else {
        marker_address_of(markers.drop_first(), denom)
    }
}

/// Looks up the address of the marker with denomination `denom` in a list of snapshots.
pub fn find_marker_address(markers: &Vec<Marker>, denom: &String) -> (r: Option<String>)
    ensures
        match r {
            Some(a) => marker_address_of(markers@, denom@) == Some(a@),
            None => marker_address_of(markers@, denom@) is None,
        },
{
    let mut i: usize = 0;
    assert(markers@.subrange(0, markers@.len() as int) =~= markers@);
    while i < markers.len()
        invariant
            i <= markers.len(),
            marker_address_of(markers@, denom@) == marker_address_of(markers@.subrange(i as int, markers@.len() as int), denom@),
        decreases markers.len() - i,
    {
        let ghost rest = markers@.subrange(i as int, markers@.len() as int);
        assert(rest.drop_first() =~= markers@.subrange(i as int + 1, markers@.len() as int));
        assert(rest[0] == markers@[i as int]);
        if markers[i].denom == *denom {
            return Some(markers[i].address.clone());
        }
        i = i + 1;
    }
    None
}

/// Whether `contract` may transfer and withdraw from the escrow marker.
pub fn has_escrow_grant(escrow: &Marker, contract: &String) -> (r: bool)
    ensures
        r == marker_grants(*escrow, contract@, escrow_permissions()),
{
    let required = vec![MarkerAccess::Transfer, MarkerAccess::Withdraw];
    assert(required@ =~= escrow_permissions());
    marker_has_grant(escrow, contract, &required)
}

} // verus!
