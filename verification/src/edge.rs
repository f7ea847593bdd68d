//! The policy of the HTTP edge: which upgrade requests are admitted, and
//! how client party indices are allocated.
//!
//! The HTTP surface itself (routes, query parsing, the upgrade handshake)
//! lives outside the library; it hands in plain values and acts on the
//! decisions returned here.

use vstd::prelude::*;

use crate::proto::{PartyId, ALL_CLIENT_ID};

verus! {

/// The decision on a `/server` upgrade request.
#[derive(Clone, Copy, Debug, PartialEq, Eq, Structural)]
pub enum ServerUpgradeDecision {
    /// Admit the request: the UUID is right and no server is connected.
    Accept,
    /// Refuse: the UUID is right, but a server is already connected.
    AlreadyJoined,
    /// Refuse: the presented UUID is not the configured one.
    WrongUuid,
}

/// Whether two UUIDs hold the same bytes.
pub fn uuid_eq(a: &[u8; 16], b: &[u8; 16]) -> (r: bool)
    ensures
        r <==> a@ == b@,
{
    let mut i: usize = 0;
    while i < 16
        invariant
            i <= 16,
            forall|j: int| 0 <= j < i ==> a@[j] == b@[j],
        decreases 16 - i,
    {
        if a[i] != b[i] {
            return false;
        }
        i += 1;
    }
    proof {
        assert(a@ =~= b@);
    }
    true
}

/// Decide a `/server` upgrade: only the configured server UUID may connect,
/// and only while no server is connected (the joined flag is the edge's
/// record of that).
pub fn check_server_upgrade(
    client_id: &[u8; 16],
    acceptable_server_uuid: &[u8; 16],
    server_joined: bool,
) -> (r: ServerUpgradeDecision)
    ensures
        r == ServerUpgradeDecision::Accept <==> client_id@ == acceptable_server_uuid@
            && !server_joined,
        r == ServerUpgradeDecision::AlreadyJoined <==> client_id@ == acceptable_server_uuid@
            && server_joined,
        r == ServerUpgradeDecision::WrongUuid <==> client_id@ != acceptable_server_uuid@,
{
    if uuid_eq(client_id, acceptable_server_uuid) {
        if server_joined {
            ServerUpgradeDecision::AlreadyJoined
        } else {
            ServerUpgradeDecision::Accept
        }
    } else {
        ServerUpgradeDecision::WrongUuid
    }
}

/// Allocate a client party index from a room's counter. The counter stops
/// at `ALL_CLIENT_ID`: handing that value out would collide with the
/// all-clients wildcard, so such a join is refused and the room stays
/// exhausted until the counter is reset by server churn.
pub fn next_client_party(counter: u32) -> (r: Option<(PartyId, u32)>)
    ensures
        counter < ALL_CLIENT_ID <==> r is Some,
        r matches Some((party, next)) ==> party == PartyId::Client(counter) && party.valid()
            && next == counter + 1,
{
    if counter >= ALL_CLIENT_ID {
        None
    } else {
        let party = PartyId::from_u32(counter);
        Some((party, counter + 1))
    }
}

} // verus!
