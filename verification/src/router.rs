//! The central router: the authoritative topology (which server is
//! connected, which clients sit in which rooms, which rooms are advertised)
//! and the routing algorithm.
//!
//! The router is a state machine: `handle` takes one inbound event and
//! returns the messages to deliver, each tagged with its target connection.
//! The surrounding process owns the sockets; it maps each target to a
//! connection and performs the sends (fire and forget, as the protocol
//! asks).

use vstd::prelude::*;

use crate::message_stream::{copy_bytes, MessageStream, MessageStreamView};
use crate::proto::{MessageCode, PartyId, PayloadKind};

verus! {

/// One client present in a room: its party index on the wire and the UUID
/// it presented when it joined.
#[derive(Clone, Copy, Debug)]
pub struct RoomMember {
    pub party: u32,
    pub uuid: [u8; 16],
}

/// The mathematical value of a `RoomMember`.
#[verifier::ext_equal]
pub struct RoomMemberView {
    pub party: u32,
    pub uuid: Seq<u8>,
}

impl View for RoomMember {
    type V = RoomMemberView;

    open spec fn view(&self) -> RoomMemberView {
        RoomMemberView { party: self.party, uuid: self.uuid@ }
    }
}

impl DeepView for RoomMember {
    type V = RoomMemberView;

    open spec fn deep_view(&self) -> RoomMemberView {
        self.view()
    }
}

/// One room and the clients in it, in the order the router walks them for
/// broadcasts.
#[derive(Debug)]
pub struct Room {
    pub room_id: u8,
    pub members: Vec<RoomMember>,
}

/// The mathematical value of a `Room`.
#[verifier::ext_equal]
pub struct RoomView {
    pub room_id: u8,
    pub members: Seq<RoomMemberView>,
}

impl View for Room {
    type V = RoomView;

    open spec fn view(&self) -> RoomView {
        RoomView { room_id: self.room_id, members: self.members.deep_view() }
    }
}

impl DeepView for Room {
    type V = RoomView;

    open spec fn deep_view(&self) -> RoomView {
        self.view()
    }
}

impl RoomView {
    /// No party index occurs twice in one room.
    pub open spec fn wf(self) -> bool {
        forall|i: int, j: int|
            0 <= i < j < self.members.len() ==> self.members[i].party != self.members[j].party
    }
}

/// The router's whole state.
#[derive(Debug)]
pub struct GameRoomRouter {
    /// The wire value of the connected server's party id, if one is
    /// connected.
    pub server_handle: Option<u32>,
    /// The rooms that hold at least one past or present client.
    pub game_rooms: Vec<Room>,
    /// The advertised room list, as last published by the server: strictly
    /// ascending room ids.
    pub available_rooms: Vec<u8>,
}

/// The mathematical value of the router state.
#[verifier::ext_equal]
pub struct RouterView {
    pub server_handle: Option<u32>,
    pub game_rooms: Seq<RoomView>,
    pub available_rooms: Seq<u8>,
}

impl View for GameRoomRouter {
    type V = RouterView;

    open spec fn view(&self) -> RouterView {
        RouterView {
            server_handle: self.server_handle,
            game_rooms: self.game_rooms.deep_view(),
            available_rooms: self.available_rooms@,
        }
    }
}

impl RouterView {
    /// Room ids are unique, each room is well formed, and the advertised
    /// list is strictly ascending (hence deduplicated) and fits 256 rooms.
    pub open spec fn wf(self) -> bool {
        &&& forall|i: int, j: int|
            0 <= i < j < self.game_rooms.len() ==> self.game_rooms[i].room_id
                != self.game_rooms[j].room_id
        &&& forall|i: int| 0 <= i < self.game_rooms.len() ==> (#[trigger] self.game_rooms[i]).wf()
        &&& forall|i: int, j: int|
            0 <= i < j < self.available_rooms.len() ==> self.available_rooms[i]
                < self.available_rooms[j]
        &&& self.available_rooms.len() <= 256
    }
}

/// Whether some room in the sequence carries this room id.
pub open spec fn has_room(rooms: Seq<RoomView>, room_id: u8) -> bool {
    exists|i: int| 0 <= i < rooms.len() && rooms[i].room_id == room_id
}

/// The index of the room with this id (meaningful when `has_room`).
pub open spec fn room_index(rooms: Seq<RoomView>, room_id: u8) -> int {
    choose|i: int| 0 <= i < rooms.len() && rooms[i].room_id == room_id
}

/// The members of the room with this id; empty when there is no such room.
pub open spec fn members_of(rooms: Seq<RoomView>, room_id: u8) -> Seq<RoomMemberView> {
    if has_room(rooms, room_id) {
        rooms[room_index(rooms, room_id)].members
    } else {
        Seq::empty()
    }
}

/// Whether some member of the sequence carries this party index.
pub open spec fn has_member(members: Seq<RoomMemberView>, party: u32) -> bool {
    exists|i: int| 0 <= i < members.len() && members[i].party == party
}

/// The index of the member with this party index (meaningful when
/// `has_member`).
pub open spec fn member_index(members: Seq<RoomMemberView>, party: u32) -> int {
    choose|i: int| 0 <= i < members.len() && members[i].party == party
}

/// One inbound event for the router.
#[derive(Debug)]
pub enum RouterEvent {
    /// A server connection was accepted at the edge.
    ServerConnect(PartyId),
    /// A client connection was accepted at the edge: room id, allocated
    /// party id, presented UUID.
    ClientConnect(u8, PartyId, [u8; 16]),
    /// A connection went away. (The connection also reports its UUID; the
    /// router identifies the departed party by its id alone.)
    Disconnect(PartyId),
    /// A connection decoded a frame: originator and frame.
    NewMessage(PartyId, MessageStream),
}

/// The mathematical value of a `RouterEvent`.
pub enum RouterEventView {
    ServerConnect(PartyId),
    ClientConnect(u8, PartyId, Seq<u8>),
    Disconnect(PartyId),
    NewMessage(PartyId, MessageStreamView),
}

impl View for RouterEvent {
    type V = RouterEventView;

    open spec fn view(&self) -> RouterEventView {
        match self {
            RouterEvent::ServerConnect(party) => RouterEventView::ServerConnect(*party),
            RouterEvent::ClientConnect(room_id, party, uuid) => RouterEventView::ClientConnect(
                *room_id,
                *party,
                uuid@,
            ),
            RouterEvent::Disconnect(party) => RouterEventView::Disconnect(*party),
            RouterEvent::NewMessage(party, frame) => RouterEventView::NewMessage(*party, frame@),
        }
    }
}

/// One message the router asks the process to deliver, tagged with its
/// target connection.
#[derive(Debug)]
pub enum RouterOutput {
    /// Hand this frame, spoken by this originator, to the server connection.
    ToServer(PartyId, MessageStream),
    /// Hand this frame, spoken by this originator, to the client with this
    /// party index in this room.
    ToClient(u8, u32, PartyId, MessageStream),
    /// Tell the client with this party index in this room to disconnect;
    /// the party id is decoded for it, and its UUID rides along.
    DisconnectClient(u8, u32, PartyId, [u8; 16]),
}

/// The mathematical value of a `RouterOutput`.
pub enum RouterOutputView {
    ToServer(PartyId, MessageStreamView),
    ToClient(u8, u32, PartyId, MessageStreamView),
    DisconnectClient(u8, u32, PartyId, Seq<u8>),
}

impl View for RouterOutput {
    type V = RouterOutputView;

    open spec fn view(&self) -> RouterOutputView {
        match self {
            RouterOutput::ToServer(party, frame) => RouterOutputView::ToServer(*party, frame@),
            RouterOutput::ToClient(room_id, member, party, frame) => RouterOutputView::ToClient(
                *room_id,
                *member,
                *party,
                frame@,
            ),
            RouterOutput::DisconnectClient(room_id, member, party, uuid) =>
                RouterOutputView::DisconnectClient(*room_id, *member, *party, uuid@),
        }
    }
}

impl DeepView for RouterOutput {
    type V = RouterOutputView;

    open spec fn deep_view(&self) -> RouterOutputView {
        self.view()
    }
}

/// The hello notification: a Special/Info frame to the server whose payload
/// is `0xF0` followed by the joining client's UUID.
pub open spec fn hello_frame(room_id: u8, party: PartyId, uuid: Seq<u8>) -> MessageStreamView {
    MessageStreamView {
        message_code: MessageCode::Special,
        room_id: room_id as u32,
        origin_id: party,
        destination_id: PartyId::Server(0),
        payload_kind: PayloadKind::Info,
        payload: seq![0xF0u8] + uuid,
    }
}

/// The goodbye notification: as the hello, with a `0x0F` prefix.
pub open spec fn goodbye_frame(room_id: u8, party: PartyId, uuid: Seq<u8>) -> MessageStreamView {
    MessageStreamView {
        message_code: MessageCode::Special,
        room_id: room_id as u32,
        origin_id: party,
        destination_id: PartyId::Server(0),
        payload_kind: PayloadKind::Info,
        payload: seq![0x0Fu8] + uuid,
    }
}

/// What connecting a server does: its wire value is stored; nothing else
/// moves and nothing is sent.
pub open spec fn server_connect_post(
    pre: RouterView,
    post: RouterView,
    party: PartyId,
    out: Seq<RouterOutputView>,
) -> bool {
    &&& post.server_handle == Some(party.spec_repr())
    &&& post.game_rooms == pre.game_rooms
    &&& post.available_rooms == pre.available_rooms
    &&& out == Seq::<RouterOutputView>::empty()
}

/// A member list with this member set: replacing the entry with the same
/// party index, or appended when there is none.
pub open spec fn insert_member(members: Seq<RoomMemberView>, m: RoomMemberView) -> Seq<
    RoomMemberView,
> {
    if has_member(members, m.party) {
        members.update(member_index(members, m.party), m)
    } else {
        members.push(m)
    }
}

/// What connecting a client does: it is entered into its room (the room is
/// created if absent), and when a server is connected, the hello frame goes
/// to it.
pub open spec fn client_connect_post(
    pre: RouterView,
    post: RouterView,
    room_id: u8,
    party: PartyId,
    uuid: Seq<u8>,
    out: Seq<RouterOutputView>,
) -> bool {
    let m = RoomMemberView { party: party.spec_repr(), uuid };
    &&& post.server_handle == pre.server_handle
    &&& post.available_rooms == pre.available_rooms
    &&& (if has_room(pre.game_rooms, room_id) {
        let ri = room_index(pre.game_rooms, room_id);
        post.game_rooms == pre.game_rooms.update(
            ri,
            RoomView { room_id, members: insert_member(pre.game_rooms[ri].members, m) },
        )
    } else {
        post.game_rooms == pre.game_rooms.push(RoomView { room_id, members: seq![m] })
    })
    &&& out == (if pre.server_handle is Some {
        seq![RouterOutputView::ToServer(party, hello_frame(room_id, party, uuid))]
    } else {
        Seq::<RouterOutputView>::empty()
    })
}

/// The per-room slice of the server-departure cascade: every member is told
/// to disconnect, in member order.
pub open spec fn room_cascade_outputs(r: RoomView) -> Seq<RouterOutputView> {
    r.members.map_values(
        |m: RoomMemberView|
            RouterOutputView::DisconnectClient(
                r.room_id,
                m.party,
                PartyId::spec_decode(m.party),
                m.uuid,
            ),
    )
}

/// The whole server-departure cascade: every member of every room is told
/// to disconnect, in room order then member order.
pub open spec fn cascade_outputs(rooms: Seq<RoomView>) -> Seq<RouterOutputView> {
    rooms.flat_map(|r: RoomView| room_cascade_outputs(r))
}

/// A member list with the entry carrying this party index removed, if any.
pub open spec fn remove_member(members: Seq<RoomMemberView>, party: u32) -> Seq<RoomMemberView> {
    if has_member(members, party) {
        members.remove(member_index(members, party))
    } else {
        members
    }
}

/// Every room with the departed party removed. Rooms that become empty stay
/// in place.
pub open spec fn rooms_without_member(rooms: Seq<RoomView>, party: u32) -> Seq<RoomView> {
    rooms.map_values(
        |r: RoomView| RoomView { room_id: r.room_id, members: remove_member(r.members, party) },
    )
}

/// The goodbye notifications of a client departure: one frame to the server
/// for each room that held the party, in room order.
pub open spec fn goodbye_outputs(rooms: Seq<RoomView>, party: PartyId, repr: u32) -> Seq<
    RouterOutputView,
>
    decreases rooms.len(),
{
    if rooms.len() == 0 {
        Seq::empty()
    } else {
        let rest = goodbye_outputs(rooms.drop_last(), party, repr);
        let r = rooms.last();
        if has_member(r.members, repr) {
            rest + seq![
                RouterOutputView::ToServer(
                    party,
                    goodbye_frame(
                        r.room_id,
                        party,
                        r.members[member_index(r.members, repr)].uuid,
                    ),
                ),
            ]
        } else {
            rest
        }
    }
}

/// What a departure does. The server's: the advertised list empties, every
/// client is told to disconnect, and the server handle is forgotten (each
/// client leaves its room as its own disconnect comes back in). A client's:
/// it leaves every room that holds it, and when a server is connected a
/// goodbye frame goes to the server for each such room.
pub open spec fn disconnect_post(
    pre: RouterView,
    post: RouterView,
    party: PartyId,
    out: Seq<RouterOutputView>,
) -> bool {
    if party == PartyId::Server(0) {
        &&& post.server_handle is None
        &&& post.game_rooms == pre.game_rooms
        &&& post.available_rooms == Seq::<u8>::empty()
        &&& out == cascade_outputs(pre.game_rooms)
    } else {
        &&& post.server_handle == pre.server_handle
        &&& post.available_rooms == pre.available_rooms
        &&& post.game_rooms == rooms_without_member(pre.game_rooms, party.spec_repr())
        &&& out == (if pre.server_handle is Some {
            goodbye_outputs(pre.game_rooms, party, party.spec_repr())
        } else {
            Seq::<RouterOutputView>::empty()
        })
    }
}

/// The bytes below `k` that occur in `bytes`, in ascending order.
pub open spec fn distinct_upto(bytes: Seq<u8>, k: int) -> Seq<u8>
    decreases k,
{
    if k <= 0 {
        Seq::empty()
    } else {
        let p = distinct_upto(bytes, k - 1);
        if bytes.contains((k - 1) as u8) {
            p.push((k - 1) as u8)
        } else {
            p
        }
    }
}

/// The distinct bytes of a payload in ascending order: the advertised room
/// list that a publication installs.
pub open spec fn sorted_distinct(bytes: Seq<u8>) -> Seq<u8> {
    distinct_upto(bytes, 256)
}

proof fn lemma_distinct_upto(bytes: Seq<u8>, k: int)
    requires
        0 <= k <= 256,
    ensures
        distinct_upto(bytes, k).len() <= k,
        forall|i: int| 0 <= i < distinct_upto(bytes, k).len() ==> (distinct_upto(
            bytes,
            k,
        )[i] as int) < k,
        forall|i: int, j: int|
            0 <= i < j < distinct_upto(bytes, k).len() ==> distinct_upto(bytes, k)[i]
                < distinct_upto(bytes, k)[j],
        forall|b: u8| distinct_upto(bytes, k).contains(b) <==> bytes.contains(b) && (b as int) < k,
    decreases k,
{
    if k > 0 {
        lemma_distinct_upto(bytes, k - 1);
        let p = distinct_upto(bytes, k - 1);
        let s = distinct_upto(bytes, k);
        if bytes.contains((k - 1) as u8) {
            assert forall|b: u8| s.contains(b) implies bytes.contains(b) && (b as int) < k by {
                let i = choose|i: int| 0 <= i < s.len() && s[i] == b;
                if i < p.len() {
                    assert(p.contains(b));
                }
            }
            assert forall|b: u8| bytes.contains(b) && (b as int) < k implies s.contains(b) by {
                if (b as int) < k - 1 {
                    assert(p.contains(b));
                    let i = choose|i: int| 0 <= i < p.len() && p[i] == b;
                    assert(s[i] == b);
                } else {
                    assert(s[s.len() - 1] == b);
                }
            }
        } else {
            assert forall|b: u8| s.contains(b) implies bytes.contains(b) && (b as int) < k by {}
            assert forall|b: u8| bytes.contains(b) && (b as int) < k implies s.contains(b) by {
                if (b as int) < k - 1 {
                    assert(p.contains(b));
                } else {
                    assert(b == (k - 1) as u8);
                    assert(false);
                }
            }
        }
    }
}

/// Law: a published room list is strictly ascending (so deduplicated), has
/// at most 256 entries, and advertises exactly the room ids that the
/// payload names.
pub proof fn lemma_sorted_distinct(bytes: Seq<u8>)
    ensures
        forall|i: int, j: int|
            0 <= i < j < sorted_distinct(bytes).len() ==> sorted_distinct(bytes)[i]
                < sorted_distinct(bytes)[j],
        sorted_distinct(bytes).len() <= 256,
        forall|b: u8| sorted_distinct(bytes).contains(b) <==> bytes.contains(b),
{
    lemma_distinct_upto(bytes, 256);
}

/// The room id a Normal frame addresses: the low byte of its room field.
pub open spec fn room_byte(room_id: u32) -> u8 {
    (room_id & 0xFF) as u8
}

/// The delivery to the server connection, when one is connected.
pub open spec fn server_out(pre: RouterView, origin: PartyId, frame: MessageStreamView) -> Seq<
    RouterOutputView,
> {
    if pre.server_handle is Some {
        seq![RouterOutputView::ToServer(origin, frame)]
    } else {
        Seq::empty()
    }
}

/// Where a Normal frame goes. A frame whose claimed origin is not the
/// connection that spoke it, or whose origin is not a single client or
/// single server, goes nowhere. A wildcard destination reaches the server
/// (when connected) and every client of the addressed room, the sender
/// included. A single server reaches the server when connected; a single
/// client reaches that client when its room holds it.
pub open spec fn route_outputs(pre: RouterView, origin: PartyId, frame: MessageStreamView) -> Seq<
    RouterOutputView,
> {
    if origin != frame.origin_id {
        Seq::empty()
    } else if !(origin matches PartyId::Client(_) || origin matches PartyId::Server(_)) {
        Seq::empty()
    } else {
        let room_id = room_byte(frame.room_id);
        match frame.destination_id {
            PartyId::AllClients | PartyId::AllServers | PartyId::AllClientsWithEcho
                | PartyId::AllServersWithEcho => server_out(pre, origin, frame) + members_of(
                pre.game_rooms,
                room_id,
            ).map_values(
                |m: RoomMemberView| RouterOutputView::ToClient(room_id, m.party, origin, frame),
            ),
            PartyId::Server(_) => server_out(pre, origin, frame),
            PartyId::Client(n) => {
                if has_member(members_of(pre.game_rooms, room_id), n) {
                    seq![RouterOutputView::ToClient(room_id, n, origin, frame)]
                } else {
                    Seq::empty()
                }
            },
        }
    }
}

/// What one frame does. A Special frame is the control channel: spoken by
/// the server with Info kind, its payload replaces the advertised list by
/// its bytes sorted and deduplicated; any other Special frame is dropped.
/// A Normal frame moves no state and is relayed as `route_outputs` says.
pub open spec fn new_message_post(
    pre: RouterView,
    post: RouterView,
    origin: PartyId,
    frame: MessageStreamView,
    out: Seq<RouterOutputView>,
) -> bool {
    match frame.message_code {
        MessageCode::Special => {
            &&& post.server_handle == pre.server_handle
            &&& post.game_rooms == pre.game_rooms
            &&& (if frame.payload_kind == PayloadKind::Info && origin == PartyId::Server(0) {
                post.available_rooms == sorted_distinct(frame.payload)
            } else {
                post.available_rooms == pre.available_rooms
            })
            &&& out == Seq::<RouterOutputView>::empty()
        },
        MessageCode::Normal => {
            &&& post == pre
            &&& out == route_outputs(pre, origin, frame)
        },
    }
}

/// Removing one member keeps the remaining party indices distinct.
proof fn lemma_remove_member_keeps_wf(members: Seq<RoomMemberView>, party: u32)
    requires
        forall|a: int, b: int|
            0 <= a < b < members.len() ==> members[a].party != members[b].party,
    ensures
        forall|a: int, b: int|
            0 <= a < b < remove_member(members, party).len() ==> remove_member(
                members,
                party,
            )[a].party != remove_member(members, party)[b].party,
{
    if has_member(members, party) {
        let k = member_index(members, party);
        let ms = remove_member(members, party);
        assert forall|a: int, b: int| 0 <= a < b < ms.len() implies ms[a].party != ms[b].party by {
            let a0: int = if a < k {
                a
            } else {
                a + 1
            };
            let b0: int = if b < k {
                b
            } else {
                b + 1
            };
            assert(ms[a] == members[a0]);
            assert(ms[b] == members[b0]);
        }
    }
}

impl GameRoomRouter {
    /// A router with no server, no rooms, and nothing advertised.
    pub fn new() -> (r: Self)
        ensures
            r@.wf(),
            r@.server_handle is None,
            r@.game_rooms == Seq::<RoomView>::empty(),
            r@.available_rooms == Seq::<u8>::empty(),
    {
        let r = Self { server_handle: None, game_rooms: Vec::new(), available_rooms: Vec::new() };
        proof {
            assert(r@.game_rooms =~= Seq::<RoomView>::empty());
            assert(r@.available_rooms =~= Seq::<u8>::empty());
        }
        r
    }

    fn on_server_connect(&mut self, party: PartyId)
        requires
            old(self)@.wf(),
            party.reprable(),
        ensures
            final(self)@.wf(),
            server_connect_post(old(self)@, final(self)@, party, Seq::empty()),
    {
        self.server_handle = Some(party.get_repr());
        proof {
            assert(self@.game_rooms == old(self)@.game_rooms);
            assert(self@.available_rooms == old(self)@.available_rooms);
        }
    }

    fn on_client_connect(&mut self, room_id: u8, party: PartyId, client_uuid: [u8; 16]) -> (out:
        Vec<RouterOutput>)
        requires
            old(self)@.wf(),
            party matches PartyId::Client(_),
        ensures
            final(self)@.wf(),
            client_connect_post(
                old(self)@,
                final(self)@,
                room_id,
                party,
                client_uuid@,
                out.deep_view(),
            ),
    {
        let ghost pre = self@;
        let repr = party.get_repr();
        let member = RoomMember { party: repr, uuid: client_uuid };
        match find_room(&self.game_rooms, room_id) {
            Some(ri) => {
                proof {
                    lemma_room_index_unique(pre.game_rooms, room_id, ri as int);
                }
                let mut room = self.game_rooms.remove(ri);
                let ghost ms = room@.members;
                match find_member(&room.members, repr) {
                    Some(mi) => {
                        proof {
                            assert(pre.game_rooms[ri as int].wf());
                            lemma_member_index_unique(ms, repr, mi as int);
                        }
                        room.members.set(mi, member);
                        proof {
                            assert(room@.members =~~= insert_member(ms, member@));
                        }
                    },
                    None => {
                        room.members.push(member);
                        proof {
                            assert(room@.members =~~= insert_member(ms, member@));
                        }
                    },
                }
                self.game_rooms.insert(ri, room);
                proof {
                    assert(self@.game_rooms =~~= pre.game_rooms.update(
                        ri as int,
                        RoomView {
                            room_id,
                            members: insert_member(pre.game_rooms[ri as int].members, member@),
                        },
                    ));
                }
            },
            None => {
                let mut members: Vec<RoomMember> = Vec::new();
                members.push(member);
                self.game_rooms.push(Room { room_id, members });
                proof {
                    assert(self@.game_rooms =~~= pre.game_rooms.push(
                        RoomView { room_id, members: seq![member@] },
                    ));
                }
            },
        }
        let mut out: Vec<RouterOutput> = Vec::new();
        if self.server_handle.is_some() {
            let payload = tagged_uuid_payload(0xF0, &client_uuid);
            let frame = MessageStream::new(
                MessageCode::Special,
                room_id as u32,
                party,
                PartyId::Server(0),
                PayloadKind::Info,
                Some(payload.as_slice()),
            );
            proof {
                assert(frame@ =~= hello_frame(room_id, party, client_uuid@));
            }
            out.push(RouterOutput::ToServer(party, frame));
            proof {
                assert(out.deep_view() =~= seq![
                    RouterOutputView::ToServer(party, hello_frame(room_id, party, client_uuid@)),
                ]);
            }
        } else {
            proof {
                assert(out.deep_view() =~= Seq::<RouterOutputView>::empty());
            }
        }
        out
    }

    fn on_disconnect(&mut self, party: PartyId) -> (out: Vec<RouterOutput>)
        requires
            old(self)@.wf(),
            party.reprable(),
        ensures
            final(self)@.wf(),
            disconnect_post(old(self)@, final(self)@, party, out.deep_view()),
    {
        let ghost pre = self@;
        let mut out: Vec<RouterOutput> = Vec::new();
        if party == PartyId::Server(0) {
            self.available_rooms.clear();
            let ghost rooms0 = pre.game_rooms;
            proof {
                assert(rooms0.subrange(0, 0) =~= Seq::<RoomView>::empty());
                assert(Seq::<RoomView>::empty().map_values(
                    |r: RoomView| room_cascade_outputs(r),
                ) =~= Seq::<Seq<RouterOutputView>>::empty());
                assert(cascade_outputs(rooms0.subrange(0, 0)) =~= Seq::<
                    RouterOutputView,
                >::empty());
                assert(out.deep_view() =~= Seq::<RouterOutputView>::empty());
            }
            let mut ri: usize = 0;
            while ri < self.game_rooms.len()
                invariant
                    self@.game_rooms == rooms0,
                    self@.server_handle == pre.server_handle,
                    self@.available_rooms.len() == 0,
                    ri <= rooms0.len(),
                    out.deep_view() == cascade_outputs(rooms0.subrange(0, ri as int)),
                decreases rooms0.len() - ri,
            {
                let room_id = self.game_rooms[ri].room_id;
                let ghost members = rooms0[ri as int].members;
                let ghost rc = room_cascade_outputs(rooms0[ri as int]);
                proof {
                    assert(rc.take(0) =~= Seq::<RouterOutputView>::empty());
                    assert(out.deep_view() + rc.take(0) =~= out.deep_view());
                }
                let mut mi: usize = 0;
                while mi < self.game_rooms[ri].members.len()
                    invariant
                        self@.game_rooms == rooms0,
                        ri < rooms0.len(),
                        room_id == rooms0[ri as int].room_id,
                        members == rooms0[ri as int].members,
                        rc == room_cascade_outputs(rooms0[ri as int]),
                        mi <= members.len(),
                        out.deep_view() == cascade_outputs(rooms0.subrange(0, ri as int))
                            + rc.take(mi as int),
                    decreases members.len() - mi,
                {
                    let m = self.game_rooms[ri].members[mi];
                    let ghost dv0 = out.deep_view();
                    out.push(
                        RouterOutput::DisconnectClient(
                            room_id,
                            m.party,
                            PartyId::from_u32(m.party),
                            m.uuid,
                        ),
                    );
                    proof {
                        assert(m@ == members[mi as int]);
                        assert(rc[mi as int] == RouterOutputView::DisconnectClient(
                            room_id,
                            m.party,
                            PartyId::spec_decode(m.party),
                            m@.uuid,
                        ));
                        assert(out.deep_view() =~= dv0.push(rc[mi as int]));
                        assert(dv0.push(rc[mi as int]) =~= cascade_outputs(
                            rooms0.subrange(0, ri as int),
                        ) + rc.take(mi + 1 as int));
                        assert(out.deep_view() == cascade_outputs(
                            rooms0.subrange(0, ri as int),
                        ) + rc.take(mi + 1 as int));
                    }
                    mi += 1;
                }
                proof {
                    assert(rc.take(members.len() as int) =~= rc);
                    assert(rooms0.subrange(0, ri as int).push(rooms0[ri as int]) =~= rooms0
                        .subrange(0, ri + 1 as int));
                    rooms0.subrange(0, ri as int).lemma_flat_map_push(
                        |r: RoomView| room_cascade_outputs(r),
                        rooms0[ri as int],
                    );
                    assert(out.deep_view() =~= cascade_outputs(rooms0.subrange(0, ri + 1 as int)));
                }
                ri += 1;
            }
            self.server_handle = None;
            proof {
                assert(rooms0.subrange(0, rooms0.len() as int) =~= rooms0);
                assert(self@.available_rooms =~= Seq::<u8>::empty());
            }
        } else {
            let repr = party.get_repr();
            let ghost rooms0 = pre.game_rooms;
            proof {
                assert(rooms0.subrange(0, 0) =~= Seq::<RoomView>::empty());
                assert(out.deep_view() =~= Seq::<RouterOutputView>::empty());
            }
            let mut ri: usize = 0;
            while ri < self.game_rooms.len()
                invariant
                    pre.wf(),
                    rooms0 == pre.game_rooms,
                    repr == party.spec_repr(),
                    self@.server_handle == pre.server_handle,
                    self@.available_rooms == pre.available_rooms,
                    self@.game_rooms.len() == rooms0.len(),
                    ri <= rooms0.len(),
                    forall|j: int|
                        0 <= j < ri ==> self@.game_rooms[j] == (RoomView {
                            room_id: rooms0[j].room_id,
                            members: remove_member(rooms0[j].members, repr),
                        }),
                    forall|j: int| ri <= j < rooms0.len() ==> self@.game_rooms[j] == rooms0[j],
                    out.deep_view() == (if pre.server_handle is Some {
                        goodbye_outputs(rooms0.subrange(0, ri as int), party, repr)
                    } else {
                        Seq::<RouterOutputView>::empty()
                    }),
                decreases rooms0.len() - ri,
            {
                let ghost cur = self@.game_rooms;
                let mut room = self.game_rooms.remove(ri);
                let room_id = room.room_id;
                match find_member(&room.members, repr) {
                    Some(mi) => {
                        proof {
                            assert(room@ == rooms0[ri as int]);
                            assert(rooms0[ri as int].wf());
                            lemma_member_index_unique(rooms0[ri as int].members, repr, mi as int);
                        }
                        let removed_member = room.members.remove(mi);
                        proof {
                            assert(room@.members =~= remove_member(
                                rooms0[ri as int].members,
                                repr,
                            ));
                        }
                        if self.server_handle.is_some() {
                            let payload = tagged_uuid_payload(0x0F, &removed_member.uuid);
                            let frame = MessageStream::new(
                                MessageCode::Special,
                                room_id as u32,
                                party,
                                PartyId::Server(0),
                                PayloadKind::Info,
                                Some(payload.as_slice()),
                            );
                            proof {
                                assert(frame@ =~= goodbye_frame(
                                    room_id,
                                    party,
                                    removed_member.uuid@,
                                ));
                            }
                            out.push(RouterOutput::ToServer(party, frame));
                        }
                    },
                    None => {
                        proof {
                            assert(room@ == rooms0[ri as int]);
                            assert(room@.members =~= remove_member(
                                rooms0[ri as int].members,
                                repr,
                            ));
                        }
                    },
                }
                self.game_rooms.insert(ri, room);
                proof {
                    assert(self@.game_rooms =~= cur.update(ri as int, room@));
                    let prefix = rooms0.subrange(0, ri + 1 as int);
                    assert(prefix.drop_last() =~= rooms0.subrange(0, ri as int));
                    assert(prefix.last() == rooms0[ri as int]);
                    if pre.server_handle is Some {
                        if has_member(rooms0[ri as int].members, repr) {
                            assert(out.deep_view() =~= goodbye_outputs(prefix, party, repr));
                        } else {
                            assert(out.deep_view() =~= goodbye_outputs(prefix, party, repr));
                        }
                    }
                }
                ri += 1;
            }
            proof {
                assert(rooms0.subrange(0, rooms0.len() as int) =~= rooms0);
                assert(self@.game_rooms =~~= rooms_without_member(rooms0, repr));
                assert forall|j: int|
                    0 <= j < self@.game_rooms.len() implies (#[trigger] self@.game_rooms[j]).wf() by {
                    lemma_remove_member_keeps_wf(rooms0[j].members, repr);
                }
            }
        }
        out
    }

    fn on_new_message(&mut self, origin_party_id: PartyId, message_stream: MessageStream) -> (out:
        Vec<RouterOutput>)
        requires
            old(self)@.wf(),
        ensures
            final(self)@.wf(),
            new_message_post(
                old(self)@,
                final(self)@,
                origin_party_id,
                message_stream@,
                out.deep_view(),
            ),
    {
        let ghost pre = self@;
        let mut out: Vec<RouterOutput> = Vec::new();
        proof {
            assert(out.deep_view() =~= Seq::<RouterOutputView>::empty());
        }
        match message_stream.message_code {
            MessageCode::Special => {
                if message_stream.payload_kind != PayloadKind::Info {
                    return out;
                }
                if origin_party_id != PartyId::Server(0) {
                    return out;
                }
                let mut room_list: Vec<u8> = Vec::new();
                proof {
                    assert(room_list@ =~= distinct_upto(message_stream.payload@, 0));
                }
                let mut k: usize = 0;
                while k < 256
                    invariant
                        k <= 256,
                        room_list@ == distinct_upto(message_stream.payload@, k as int),
                    decreases 256 - k,
                {
                    if bytes_contains(&message_stream.payload, k as u8) {
                        room_list.push(k as u8);
                    }
                    proof {
                        assert(room_list@ =~= distinct_upto(
                            message_stream.payload@,
                            k + 1 as int,
                        ));
                    }
                    k += 1;
                }
                self.available_rooms = room_list;
                proof {
                    lemma_sorted_distinct(message_stream.payload@);
                    assert(self@.game_rooms == pre.game_rooms);
                    assert(self@.available_rooms == sorted_distinct(message_stream.payload@));
                }
                out
            },
            MessageCode::Normal => {
                if origin_party_id != message_stream.origin_id {
                    return out;
                }
                let origin_is_server = origin_party_id.is_single_server_id();
                let origin_is_client = origin_party_id.is_single_client_id();
                if !origin_is_server && !origin_is_client {
                    return out;
                }
                proof {
                    let rid = message_stream.room_id;
                    assert(rid & 0xFF < 256) by (bit_vector);
                }
                let room_id = (message_stream.room_id & 0xFF) as u8;
                match message_stream.destination_id {
                    PartyId::AllClients | PartyId::AllServers | PartyId::AllClientsWithEcho
                    | PartyId::AllServersWithEcho => {
                        if self.server_handle.is_some() {
                            out.push(
                                RouterOutput::ToServer(origin_party_id, message_stream.clone()),
                            );
                        }
                        proof {
                            assert(out.deep_view() =~= server_out(
                                pre,
                                origin_party_id,
                                message_stream@,
                            ));
                        }
                        match find_room(&self.game_rooms, room_id) {
                            Some(ri) => {
                                proof {
                                    lemma_room_index_unique(pre.game_rooms, room_id, ri as int);
                                }
                                let ghost ms = pre.game_rooms[ri as int].members;
                                let ghost base = out.deep_view();
                                let ghost mapped = ms.map_values(
                                    |m: RoomMemberView|
                                        RouterOutputView::ToClient(
                                            room_id,
                                            m.party,
                                            origin_party_id,
                                            message_stream@,
                                        ),
                                );
                                proof {
                                    assert(base + mapped.take(0) =~= base);
                                }
                                let mut mi: usize = 0;
                                while mi < self.game_rooms[ri].members.len()
                                    invariant
                                        self@ == pre,
                                        ri < pre.game_rooms.len(),
                                        ms == pre.game_rooms[ri as int].members,
                                        mapped == ms.map_values(
                                            |m: RoomMemberView|
                                                RouterOutputView::ToClient(
                                                    room_id,
                                                    m.party,
                                                    origin_party_id,
                                                    message_stream@,
                                                ),
                                        ),
                                        mi <= ms.len(),
                                        out.deep_view() == base + mapped.take(mi as int),
                                        base == server_out(pre, origin_party_id, message_stream@),
                                    decreases ms.len() - mi,
                                {
                                    let m = self.game_rooms[ri].members[mi];
                                    let ghost dv0 = out.deep_view();
                                    out.push(
                                        RouterOutput::ToClient(
                                            room_id,
                                            m.party,
                                            origin_party_id,
                                            message_stream.clone(),
                                        ),
                                    );
                                    proof {
                                        assert(m@ == ms[mi as int]);
                                        assert(mapped[mi as int] == RouterOutputView::ToClient(
                                            room_id,
                                            m.party,
                                            origin_party_id,
                                            message_stream@,
                                        ));
                                        assert(out.deep_view() =~= dv0.push(mapped[mi as int]));
                                        assert(dv0.push(mapped[mi as int]) =~= base + mapped.take(
                                            mi + 1 as int,
                                        ));
                                    }
                                    mi += 1;
                                }
                                proof {
                                    assert(mapped.take(ms.len() as int) =~= mapped);
                                    assert(members_of(pre.game_rooms, room_id) == ms);
                                }
                            },
                            None => {
                                proof {
                                    assert(members_of(pre.game_rooms, room_id) =~= Seq::<
                                        RoomMemberView,
                                    >::empty());
                                    assert(members_of(pre.game_rooms, room_id).map_values(
                                        |m: RoomMemberView|
                                            RouterOutputView::ToClient(
                                                room_id,
                                                m.party,
                                                origin_party_id,
                                                message_stream@,
                                            ),
                                    ) =~= Seq::<RouterOutputView>::empty());
                                    assert(out.deep_view() =~= server_out(
                                        pre,
                                        origin_party_id,
                                        message_stream@,
                                    ) + members_of(pre.game_rooms, room_id).map_values(
                                        |m: RoomMemberView|
                                            RouterOutputView::ToClient(
                                                room_id,
                                                m.party,
                                                origin_party_id,
                                                message_stream@,
                                            ),
                                    ));
                                }
                            },
                        }
                        out
                    },
                    PartyId::Server(_) => {
                        if self.server_handle.is_some() {
                            out.push(RouterOutput::ToServer(origin_party_id, message_stream));
                            proof {
                                assert(out.deep_view() =~= route_outputs(
                                    pre,
                                    origin_party_id,
                                    message_stream@,
                                ));
                            }
                        }
                        out
                    },
                    PartyId::Client(client_party_id) => {
                        match find_room(&self.game_rooms, room_id) {
                            Some(ri) => {
                                proof {
                                    lemma_room_index_unique(pre.game_rooms, room_id, ri as int);
                                }
                                match find_member(&self.game_rooms[ri].members, client_party_id) {
                                    Some(_mi) => {
                                        out.push(
                                            RouterOutput::ToClient(
                                                room_id,
                                                client_party_id,
                                                origin_party_id,
                                                message_stream,
                                            ),
                                        );
                                        proof {
                                            assert(out.deep_view() =~= route_outputs(
                                                pre,
                                                origin_party_id,
                                                message_stream@,
                                            ));
                                        }
                                    },
                                    None => {},
                                }
                            },
                            None => {
                                proof {
                                    assert(members_of(pre.game_rooms, room_id) =~= Seq::<
                                        RoomMemberView,
                                    >::empty());
                                }
                            },
                        }
                        out
                    },
                }
            },
        }
    }

    /// Apply one event. The state moves as the event's rule says, and the
    /// returned messages are exactly the deliveries that rule asks for, in
    /// order.
    pub fn handle(&mut self, message: RouterEvent) -> (out: Vec<RouterOutput>)
        requires
            old(self)@.wf(),
            event_ok(message@),
        ensures
            final(self)@.wf(),
            handle_post(old(self)@, final(self)@, message@, out.deep_view()),
    {
        match message {
            RouterEvent::ServerConnect(party_id) => {
                self.on_server_connect(party_id);
                let out: Vec<RouterOutput> = Vec::new();
                proof {
                    assert(out.deep_view() =~= Seq::<RouterOutputView>::empty());
                }
                out
            },
            RouterEvent::ClientConnect(room_id, party_id, client_id) => self.on_client_connect(
                room_id,
                party_id,
                client_id,
            ),
            RouterEvent::Disconnect(party_id) => self.on_disconnect(party_id),
            RouterEvent::NewMessage(origin_party_id, message_stream) => self.on_new_message(
                origin_party_id,
                message_stream,
            ),
        }
    }

    /// A copy of the advertised room list, for the process to publish to
    /// its readers.
    pub fn available_rooms_list(&self) -> (r: Vec<u8>)
        ensures
            r@ == self@.available_rooms,
    {
        copy_bytes(&self.available_rooms)
    }
}

/// Whether an event is one the process can hand in: party ids that the
/// router re-encodes must have a wire value, and a client connect carries a
/// single-client id (the edge allocates nothing else).
pub open spec fn event_ok(ev: RouterEventView) -> bool {
    match ev {
        RouterEventView::ServerConnect(party) => party.reprable(),
        RouterEventView::ClientConnect(_, party, _) => party matches PartyId::Client(_),
        RouterEventView::Disconnect(party) => party.reprable(),
        RouterEventView::NewMessage(_, _) => true,
    }
}

/// The router's whole transition relation: what each event does to the
/// state, and what is delivered where.
pub open spec fn handle_post(
    pre: RouterView,
    post: RouterView,
    ev: RouterEventView,
    out: Seq<RouterOutputView>,
) -> bool {
    match ev {
        RouterEventView::ServerConnect(party) => server_connect_post(pre, post, party, out),
        RouterEventView::ClientConnect(room_id, party, uuid) => client_connect_post(
            pre,
            post,
            room_id,
            party,
            uuid,
            out,
        ),
        RouterEventView::Disconnect(party) => disconnect_post(pre, post, party, out),
        RouterEventView::NewMessage(origin, frame) => new_message_post(
            pre,
            post,
            origin,
            frame,
            out,
        ),
    }
}

/// Whether the byte occurs in the vector.
fn bytes_contains(v: &Vec<u8>, b: u8) -> (r: bool)
    ensures
        r == v@.contains(b),
{
    let mut i: usize = 0;
    while i < v.len()
        invariant
            i <= v@.len(),
            forall|j: int| 0 <= j < i ==> v@[j] != b,
        decreases v@.len() - i,
    {
        if v[i] == b {
            proof {
                assert(v@[i as int] == b);
            }
            return true;
        }
        i += 1;
    }
    false
}

/// In a state whose room ids are unique, any index that carries the id is
/// the room's index.
proof fn lemma_room_index_unique(rooms: Seq<RoomView>, room_id: u8, i: int)
    requires
        forall|a: int, b: int|
            0 <= a < b < rooms.len() ==> rooms[a].room_id != rooms[b].room_id,
        0 <= i < rooms.len(),
        rooms[i].room_id == room_id,
    ensures
        has_room(rooms, room_id),
        room_index(rooms, room_id) == i,
{
    assert(has_room(rooms, room_id));
    let j = room_index(rooms, room_id);
    assert(0 <= j < rooms.len() && rooms[j].room_id == room_id);
    if i < j {
        assert(rooms[i].room_id != rooms[j].room_id);
    } else if j < i {
        assert(rooms[j].room_id != rooms[i].room_id);
    }
}

/// In a room whose party indices are unique, any position that carries the
/// index is the member's position.
proof fn lemma_member_index_unique(members: Seq<RoomMemberView>, party: u32, i: int)
    requires
        forall|a: int, b: int|
            0 <= a < b < members.len() ==> members[a].party != members[b].party,
        0 <= i < members.len(),
        members[i].party == party,
    ensures
        has_member(members, party),
        member_index(members, party) == i,
{
    assert(has_member(members, party));
    let j = member_index(members, party);
    assert(0 <= j < members.len() && members[j].party == party);
    if i < j {
        assert(members[i].party != members[j].party);
    } else if j < i {
        assert(members[j].party != members[i].party);
    }
}

/// The position of the room with this id, scanning from the front.
fn find_room(rooms: &Vec<Room>, room_id: u8) -> (r: Option<usize>)
    ensures
        r matches Some(i) ==> i < rooms.deep_view().len() && rooms.deep_view()[i as int].room_id
            == room_id,
        r is None ==> !has_room(rooms.deep_view(), room_id),
{
    let mut i: usize = 0;
    while i < rooms.len()
        invariant
            i <= rooms@.len(),
            forall|j: int| 0 <= j < i ==> rooms.deep_view()[j].room_id != room_id,
        decreases rooms@.len() - i,
    {
        if rooms[i].room_id == room_id {
            return Some(i);
        }
        i += 1;
    }
    None
}

/// The position of the member with this party index, scanning from the
/// front.
fn find_member(members: &Vec<RoomMember>, party: u32) -> (r: Option<usize>)
    ensures
        r matches Some(i) ==> i < members.deep_view().len() && members.deep_view()[i as int].party
            == party,
        r is None ==> !has_member(members.deep_view(), party),
{
    let mut i: usize = 0;
    while i < members.len()
        invariant
            i <= members@.len(),
            forall|j: int| 0 <= j < i ==> members.deep_view()[j].party != party,
        decreases members@.len() - i,
    {
        if members[i].party == party {
            return Some(i);
        }
        i += 1;
    }
    None
}

/// A payload of one tag byte followed by the sixteen UUID bytes.
fn tagged_uuid_payload(tag: u8, uuid: &[u8; 16]) -> (r: Vec<u8>)
    ensures
        r@ == seq![tag] + uuid@,
{
    let mut r: Vec<u8> = Vec::new();
    r.push(tag);
    let mut i: usize = 0;
    while i < 16
        invariant
            i <= 16,
            r@ == seq![tag] + uuid@.subrange(0, i as int),
        decreases 16 - i,
    {
        r.push(uuid[i]);
        proof {
            assert(r@ =~= seq![tag] + uuid@.subrange(0, i + 1 as int));
        }
        i += 1;
    }
    proof {
        assert(uuid@.subrange(0, 16) =~= uuid@);
    }
    r
}

} // verus!
