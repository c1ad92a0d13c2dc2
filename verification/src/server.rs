//! Server side of the lobby protocol: the authoritative room registry.
//!
//! The registry is the only writer of room state. It assigns unique,
//! nonzero room ids, seats the creator as a room's first player, and
//! appends a player on a successful enter. An unknown room id and a wrong
//! password are deliberately collapsed into the same unsuccessful response.
//! The per-tick handlers drain one channel's inbound requests in arrival
//! order, answer each decodable request with a response echoing its nonce,
//! and drop malformed buffers silently.
#![allow(unused_imports)]
use vstd::prelude::*;

use crate::codec::{
    create_msg_le, decode_create_msg, decode_enter_msg, decode_list_msg, encode_create_msg,
    encode_enter_msg, encode_list_msg, enter_msg_le, list_msg_le, spec_decode_create,
    spec_decode_enter, spec_decode_list,
};
use crate::messages::{
    CreateRoomMessage, CreateRoomMsgView, EnterRoomMessage, EnterRoomMsgView, ListRoomsMessage,
    ListRoomsMsgView, RoomSummary, RoomSummaryView,
};

verus! {

/// One seated player.
pub struct Player {
    pub name: String,
}

/// Mathematical view of a `Player`.
#[verifier::ext_equal]
pub struct PlayerView {
    pub name: Seq<char>,
}

impl View for Player {
    type V = PlayerView;

    open spec fn view(&self) -> PlayerView {
        PlayerView { name: self.name@ }
    }
}

impl DeepView for Player {
    type V = PlayerView;

    open spec fn deep_view(&self) -> PlayerView {
        self.view()
    }
}

/// A room as the registry owns it: server-assigned id, client-chosen name
/// and password, and the players in join order.
pub struct Room {
    pub id: u64,
    pub name: String,
    pub password: String,
    pub players: Vec<Player>,
}

/// Mathematical view of a `Room`.
#[verifier::ext_equal]
pub struct RoomView {
    pub id: u64,
    pub name: Seq<char>,
    pub password: Seq<char>,
    pub players: Seq<PlayerView>,
}

impl View for Room {
    type V = RoomView;

    open spec fn view(&self) -> RoomView {
        RoomView {
            id: self.id,
            name: self.name@,
            password: self.password@,
            players: self.players.deep_view(),
        }
    }
}

impl DeepView for Room {
    type V = RoomView;

    open spec fn deep_view(&self) -> RoomView {
        self.view()
    }
}

/// The authoritative registry: all rooms, and the next id to assign.
pub struct Registry {
    pub rooms: Vec<Room>,
    pub next_id: u64,
}

/// Mathematical view of the registry.
#[verifier::ext_equal]
pub struct RegistryView {
    pub rooms: Seq<RoomView>,
    pub next_id: u64,
}

impl View for Registry {
    type V = RegistryView;

    open spec fn view(&self) -> RegistryView {
        RegistryView { rooms: self.rooms.deep_view(), next_id: self.next_id }
    }
}

impl RegistryView {
    /// Registry invariant: ids are nonzero, below the allocation cursor,
    /// and pairwise distinct.
    pub open spec fn wf(self) -> bool {
        &&& 1 <= self.next_id
        &&& forall|k: int| 0 <= k < self.rooms.len() ==> 0 < (#[trigger] self.rooms[k]).id < self.next_id
        &&& forall|k: int, l: int|
            0 <= k < l < self.rooms.len() ==> self.rooms[k].id != self.rooms[l].id
    }
}

/// What a room looks like in a list snapshot: id, name and player count.
/// The password is never echoed.
pub open spec fn summary_of(r: RoomView) -> RoomSummaryView {
    RoomSummaryView { room_id: r.id, room_name: r.name, player_count: r.players.len() as u64 }
}

/// The snapshot the registry hands to list responses.
pub open spec fn registry_summaries(reg: RegistryView) -> Seq<RoomSummaryView> {
    reg.rooms.map_values(|r: RoomView| summary_of(r))
}

/// The index of the last room with id `room_id`, or `-1` when there is
/// none. Under the registry invariant ids are unique, so "last" is "the".
pub open spec fn room_index(rooms: Seq<RoomView>, room_id: u64) -> int
    decreases rooms.len(),
{
    if rooms.len() == 0 {
        -1
    } else if rooms.last().id == room_id {
        rooms.len() - 1
    } else {
        room_index(rooms.drop_last(), room_id)
    }
}

/// `room_index` finds a room with the id when one exists, and `-1`
/// exactly when none does.
pub proof fn lemma_room_index_spec(rooms: Seq<RoomView>, room_id: u64)
    ensures
        room_index(rooms, room_id) == -1 <==> forall|k: int|
            0 <= k < rooms.len() ==> (#[trigger] rooms[k]).id != room_id,
        room_index(rooms, room_id) != -1 ==> 0 <= room_index(rooms, room_id) < rooms.len()
            && rooms[room_index(rooms, room_id)].id == room_id,
    decreases rooms.len(),
{
    if rooms.len() > 0 && rooms.last().id != room_id {
        lemma_room_index_spec(rooms.drop_last(), room_id);
        assert forall|k: int| 0 <= k < rooms.len() - 1 implies rooms.drop_last()[k] == rooms[k] by {}
    }
}

/// One create request applied to the registry: a fresh room under a new
/// unique id, with the requester seated as its first player; the response
/// echoes the request with the room id filled in.
pub open spec fn apply_create(reg: RegistryView, m: CreateRoomMsgView) -> (RegistryView, CreateRoomMsgView) {
    let room = RoomView {
        id: reg.next_id,
        name: m.room_name,
        password: m.room_password,
        players: seq![PlayerView { name: m.player_name }],
    };
    (
        RegistryView { rooms: reg.rooms.push(room), next_id: (reg.next_id + 1) as u64 },
        CreateRoomMsgView { room_id: reg.next_id, ..m },
    )
}

/// One enter request applied to the registry. When the room exists and the
/// password matches exactly, the requester is appended to its players and
/// the response reports success; otherwise the registry is unchanged and
/// the response reports failure, the same way for an unknown room and for
/// a wrong password.
pub open spec fn apply_enter(reg: RegistryView, m: EnterRoomMsgView) -> (RegistryView, EnterRoomMsgView) {
    let idx = room_index(reg.rooms, m.room_id);
    if idx != -1 && reg.rooms[idx].password == m.room_password {
        let room = reg.rooms[idx];
        let updated = RoomView {
            players: room.players.push(PlayerView { name: m.player_name }),
            ..room
        };
        (
            RegistryView { rooms: reg.rooms.update(idx, updated), ..reg },
            EnterRoomMsgView { success: true, ..m },
        )
    } else {
        (reg, EnterRoomMsgView { success: false, ..m })
    }
}

/// The responses of one drain of the list-rooms channel: one snapshot per
/// decodable request, echoing its nonce, in arrival order. The registry is
/// not mutated, so every response carries the same snapshot.
pub open spec fn run_list(rooms: Seq<RoomSummaryView>, inbound: Seq<Seq<u8>>) -> Seq<Seq<u8>>
    decreases inbound.len(),
{
    if inbound.len() == 0 {
        Seq::<Seq<u8>>::empty()
    } else {
        let rest = run_list(rooms, inbound.drop_last());
        match spec_decode_list(inbound.last()) {
            Some(m) => rest.push(list_msg_le(ListRoomsMsgView { nonce: m.nonce, rooms })),
            None => rest,
        }
    }
}

/// Registry state and responses after one drain of the create-room
/// channel: each decodable request registers one fresh room, in arrival
/// order, and is answered; malformed buffers are dropped.
pub open spec fn run_create(reg: RegistryView, inbound: Seq<Seq<u8>>) -> (RegistryView, Seq<Seq<u8>>)
    decreases inbound.len(),
{
    if inbound.len() == 0 {
        (reg, Seq::<Seq<u8>>::empty())
    } else {
        let (reg1, rest) = run_create(reg, inbound.drop_last());
        match spec_decode_create(inbound.last()) {
            Some(m) => {
                let (reg2, resp) = apply_create(reg1, m);
                (reg2, rest.push(create_msg_le(resp)))
            },
            None => (reg1, rest),
        }
    }
}

/// Registry state and responses after one drain of the enter-room channel:
/// each decodable request is looked up against the registry as the
/// requests before it left it, in arrival order.
pub open spec fn run_enter(reg: RegistryView, inbound: Seq<Seq<u8>>) -> (RegistryView, Seq<Seq<u8>>)
    decreases inbound.len(),
{
    if inbound.len() == 0 {
        (reg, Seq::<Seq<u8>>::empty())
    } else {
        let (reg1, rest) = run_enter(reg, inbound.drop_last());
        match spec_decode_enter(inbound.last()) {
            Some(m) => {
                let (reg2, resp) = apply_enter(reg1, m);
                (reg2, rest.push(enter_msg_le(resp)))
            },
            None => (reg1, rest),
        }
    }
}

impl Registry {
    /// An empty registry; ids start at `1`, so `0` stays a request-side
    /// sentinel forever.
    pub fn new() -> (r: Self)
        ensures
            r@.rooms == Seq::<RoomView>::empty(),
            r@.next_id == 1,
            r@.wf(),
    {
        let r = Registry { rooms: Vec::new(), next_id: 1 };
        proof {
            assert(r@.rooms =~= Seq::<RoomView>::empty());
        }
        r
    }

    /// A snapshot of all rooms for a list response.
    pub fn handle_list(&self) -> (r: Vec<RoomSummary>)
        ensures
            r.deep_view() == registry_summaries(self@),
    {
        let mut out: Vec<RoomSummary> = Vec::new();
        let mut i: usize = 0;
        while i < self.rooms.len()
            invariant
                i <= self.rooms@.len(),
                out.deep_view() == self@.rooms.take(i as int).map_values(
                    |r: RoomView| summary_of(r),
                ),
            decreases self.rooms@.len() - i,
        {
            let room = &self.rooms[i];
            let ghost prev = out.deep_view();
            out.push(
                RoomSummary {
                    room_id: room.id,
                    room_name: room.name.clone(),
                    player_count: room.players.len() as u64,
                },
            );
            proof {
                assert(out.deep_view() =~= prev.push(summary_of(self@.rooms[i as int])));
                assert(self@.rooms.take(i + 1) =~= self@.rooms.take(i as int).push(
                    self@.rooms[i as int],
                ));
                assert(self@.rooms.take(i + 1).map_values(|r: RoomView| summary_of(r))
                    =~= self@.rooms.take(i as int).map_values(|r: RoomView| summary_of(r)).push(
                    summary_of(self@.rooms[i as int]),
                ));
            }
            i = i + 1;
        }
        proof {
            assert(self@.rooms.take(self.rooms@.len() as int) =~= self@.rooms);
        }
        out
    }

    /// Register a new room from a create request and answer it.
    pub fn handle_create(&mut self, req: CreateRoomMessage) -> (resp: CreateRoomMessage)
        requires
            old(self)@.wf(),
            old(self)@.next_id < u64::MAX,
        ensures
            final(self)@.wf(),
            final(self)@ == apply_create(old(self)@, req@).0,
            resp@ == apply_create(old(self)@, req@).1,
            final(self)@.next_id == old(self)@.next_id + 1,
    {
        let id = self.next_id;
        self.next_id = self.next_id + 1;
        let mut players: Vec<Player> = Vec::new();
        players.push(Player { name: req.player_name.clone() });
        let room = Room {
            id,
            name: req.room_name.clone(),
            password: req.room_password.clone(),
            players,
        };
        self.rooms.push(room);
        let resp = CreateRoomMessage {
            nonce: req.nonce,
            room_name: req.room_name,
            room_password: req.room_password,
            player_name: req.player_name,
            room_id: id,
        };
        proof {
            let (regv, respv) = apply_create(old(self)@, req@);
            assert(self@.rooms =~~= regv.rooms);
            assert(self@ =~~= regv);
            assert(resp@ =~= respv);
        }
        resp
    }

    /// Look an enter request up, seat the player on success, and answer it.
    pub fn handle_enter(&mut self, req: EnterRoomMessage) -> (resp: EnterRoomMessage)
        requires
            old(self)@.wf(),
        ensures
            final(self)@.wf(),
            final(self)@ == apply_enter(old(self)@, req@).0,
            resp@ == apply_enter(old(self)@, req@).1,
    {
        proof {
            lemma_room_index_spec(old(self)@.rooms, req.room_id);
        }
        let ghost spec_idx = room_index(old(self)@.rooms, req@.room_id);
        let mut found: Option<usize> = None;
        let mut i: usize = 0;
        while i < self.rooms.len()
            invariant
                self == old(self),
                i <= self.rooms@.len(),
                match found {
                    Some(f) => f < i && self@.rooms[f as int].id == req.room_id,
                    None => forall|k: int|
                        0 <= k < i ==> (#[trigger] self@.rooms[k]).id != req.room_id,
                },
            decreases self.rooms@.len() - i,
        {
            if self.rooms[i].id == req.room_id {
                found = Some(i);
            }
            i = i + 1;
        }
        match found {
            Some(f) => {
                proof {
                    assert(spec_idx != -1) by {
                        lemma_room_index_spec(old(self)@.rooms, req@.room_id);
                    }
                    // ids are unique, so the found index is the spec index
                    assert(old(self)@.rooms[spec_idx].id == req@.room_id);
                    assert(f as int == spec_idx) by {
                        if f as int != spec_idx {
                            assert(old(self)@.rooms[f as int].id == old(self)@.rooms[spec_idx].id);
                        }
                    }
                }
                let password_matches = self.rooms[f].password == req.room_password;
                if password_matches {
                    self.rooms[f].players.push(Player { name: req.player_name.clone() });
                    let resp = EnterRoomMessage {
                        nonce: req.nonce,
                        room_id: req.room_id,
                        room_password: req.room_password,
                        player_name: req.player_name,
                        success: true,
                    };
                    proof {
                        let (regv, respv) = apply_enter(old(self)@, req@);
                        assert(self@.rooms =~~= regv.rooms);
                        assert(self@ =~~= regv);
                        assert(resp@ =~= respv);
                        assert forall|k: int| 0 <= k < self@.rooms.len() implies 0 < (
                        #[trigger] self@.rooms[k]).id < self@.next_id by {
                            assert(old(self)@.rooms[k].id == self@.rooms[k].id);
                        }
                    }
                    resp
                } else {
                    let resp = EnterRoomMessage {
                        nonce: req.nonce,
                        room_id: req.room_id,
                        room_password: req.room_password,
                        player_name: req.player_name,
                        success: false,
                    };
                    proof {
                        let (regv, respv) = apply_enter(old(self)@, req@);
                        assert(self@ =~= regv);
                        assert(resp@ =~= respv);
                    }
                    resp
                }
            },
            None => {
                proof {
                    lemma_room_index_spec(old(self)@.rooms, req@.room_id);
                    assert(spec_idx == -1);
                }
                let resp = EnterRoomMessage {
                    nonce: req.nonce,
                    room_id: req.room_id,
                    room_password: req.room_password,
                    player_name: req.player_name,
                    success: false,
                };
                proof {
                    let (regv, respv) = apply_enter(old(self)@, req@);
                    assert(self@ =~= regv);
                    assert(resp@ =~= respv);
                }
                resp
            },
        }
    }
}

/// One server tick of the list-rooms channel: answer every decodable
/// inbound request with the current full snapshot, echoing its nonce.
pub fn handle_get_rooms(reg: &Registry, inbound: &Vec<Vec<u8>>) -> (out: Vec<Vec<u8>>)
    ensures
        out.deep_view() == run_list(registry_summaries(reg@), inbound.deep_view()),
{
    let mut out: Vec<Vec<u8>> = Vec::new();
    let mut i: usize = 0;
    while i < inbound.len()
        invariant
            i <= inbound@.len(),
            out.deep_view() == run_list(registry_summaries(reg@), inbound.deep_view().take(i as int)),
        decreases inbound@.len() - i,
    {
        proof {
            assert(inbound.deep_view().take(i + 1).drop_last() =~= inbound.deep_view().take(
                i as int,
            ));
            assert(inbound.deep_view().take(i + 1).last() == inbound.deep_view()[i as int]);
            assert(inbound.deep_view()[i as int] =~= inbound@[i as int]@);
        }
        match decode_list_msg(&inbound[i]) {
            Some(m) => {
                let rooms = reg.handle_list();
                let resp = ListRoomsMessage { nonce: m.nonce, rooms };
                let ghost prev = out.deep_view();
                out.push(encode_list_msg(&resp));
                proof {
                    assert(resp@ =~= ListRoomsMsgView {
                        nonce: m@.nonce,
                        rooms: registry_summaries(reg@),
                    });
                    assert(out.deep_view() =~~= prev.push(list_msg_le(resp@)));
                }
            },
            None => {},
        }
        i = i + 1;
    }
    proof {
        assert(inbound.deep_view().take(inbound@.len() as int) =~= inbound.deep_view());
    }
    out
}

/// One server tick of the create-room channel: register one fresh room per
/// decodable inbound request, in arrival order, and answer each.
pub fn handle_create_room(reg: &mut Registry, inbound: &Vec<Vec<u8>>) -> (out: Vec<Vec<u8>>)
    requires
        old(reg)@.wf(),
        old(reg)@.next_id + inbound@.len() <= u64::MAX,
    ensures
        final(reg)@.wf(),
        final(reg)@ == run_create(old(reg)@, inbound.deep_view()).0,
        out.deep_view() == run_create(old(reg)@, inbound.deep_view()).1,
{
    let mut out: Vec<Vec<u8>> = Vec::new();
    let mut i: usize = 0;
    while i < inbound.len()
        invariant
            i <= inbound@.len(),
            reg@.wf(),
            reg@.next_id + (inbound@.len() - i) <= u64::MAX,
            reg@ == run_create(old(reg)@, inbound.deep_view().take(i as int)).0,
            out.deep_view() == run_create(old(reg)@, inbound.deep_view().take(i as int)).1,
        decreases inbound@.len() - i,
    {
        proof {
            assert(inbound.deep_view().take(i + 1).drop_last() =~= inbound.deep_view().take(
                i as int,
            ));
            assert(inbound.deep_view().take(i + 1).last() == inbound.deep_view()[i as int]);
            assert(inbound.deep_view()[i as int] =~= inbound@[i as int]@);
        }
        match decode_create_msg(&inbound[i]) {
            Some(m) => {
                let resp = reg.handle_create(m);
                let ghost prev = out.deep_view();
                out.push(encode_create_msg(&resp));
                proof {
                    assert(out.deep_view() =~~= prev.push(create_msg_le(resp@)));
                }
            },
            None => {},
        }
        i = i + 1;
    }
    proof {
        assert(inbound.deep_view().take(inbound@.len() as int) =~= inbound.deep_view());
    }
    out
}

/// One server tick of the enter-room channel: look each decodable inbound
/// request up, seat its player on success, and answer each, in arrival
/// order.
pub fn handle_enter_room(reg: &mut Registry, inbound: &Vec<Vec<u8>>) -> (out: Vec<Vec<u8>>)
    requires
        old(reg)@.wf(),
    ensures
        final(reg)@.wf(),
        final(reg)@ == run_enter(old(reg)@, inbound.deep_view()).0,
        out.deep_view() == run_enter(old(reg)@, inbound.deep_view()).1,
{
    let mut out: Vec<Vec<u8>> = Vec::new();
    let mut i: usize = 0;
    while i < inbound.len()
        invariant
            i <= inbound@.len(),
            reg@.wf(),
            reg@ == run_enter(old(reg)@, inbound.deep_view().take(i as int)).0,
            out.deep_view() == run_enter(old(reg)@, inbound.deep_view().take(i as int)).1,
        decreases inbound@.len() - i,
    {
        proof {
            assert(inbound.deep_view().take(i + 1).drop_last() =~= inbound.deep_view().take(
                i as int,
            ));
            assert(inbound.deep_view().take(i + 1).last() == inbound.deep_view()[i as int]);
            assert(inbound.deep_view()[i as int] =~= inbound@[i as int]@);
        }
        match decode_enter_msg(&inbound[i]) {
            Some(m) => {
                let resp = reg.handle_enter(m);
                let ghost prev = out.deep_view();
                out.push(encode_enter_msg(&resp));
                proof {
                    assert(out.deep_view() =~~= prev.push(enter_msg_le(resp@)));
                }
            },
            None => {},
        }
        i = i + 1;
    }
    proof {
        assert(inbound.deep_view().take(inbound@.len() as int) =~= inbound.deep_view());
    }
    out
}

} // verus!
