//! The three lobby message shapes and their mathematical views.
//!
//! One message type per logical channel: listing rooms, creating a room,
//! entering a room. A request and its response share a shape; the response
//! echoes the request's nonce so the sender can correlate it.
#![allow(unused_imports)]
use vstd::prelude::*;

verus! {

/// The three logical channels, one per operation kind. Each channel is
/// routed independently: messages on one channel never interfere with
/// correlation on another.
#[derive(Debug, Clone, Copy, PartialEq, Eq, Structural)]
pub enum ChannelKind {
    ListRooms,
    CreateRoom,
    EnterRoom,
}

impl ChannelKind {
    /// The transport-level id of this kind's channel.
    pub open spec fn spec_channel_id(self) -> u8 {
        match self {
            ChannelKind::ListRooms => 0,
            ChannelKind::CreateRoom => 1,
            ChannelKind::EnterRoom => 2,
        }
    }

    /// The transport-level id of this kind's channel.
    pub fn channel_id(self) -> (r: u8)
        ensures
            r == self.spec_channel_id(),
    {
        match self {
            ChannelKind::ListRooms => 0,
            ChannelKind::CreateRoom => 1,
            ChannelKind::EnterRoom => 2,
        }
    }
}

/// Distinct kinds go out on distinct channels, so the router never mixes
/// two operation kinds.
pub proof fn lemma_channel_ids_distinct(a: ChannelKind, b: ChannelKind)
    ensures
        a.spec_channel_id() == b.spec_channel_id() ==> a == b,
{
}

/// One row of a room-list snapshot: what the server tells clients about a
/// room. The room's password is never part of a summary.
pub struct RoomSummary {
    pub room_id: u64,
    pub room_name: String,
    pub player_count: u64,
}

/// Mathematical view of a `RoomSummary`.
#[verifier::ext_equal]
pub struct RoomSummaryView {
    pub room_id: u64,
    pub room_name: Seq<char>,
    pub player_count: u64,
}

impl View for RoomSummary {
    type V = RoomSummaryView;

    open spec fn view(&self) -> RoomSummaryView {
        RoomSummaryView {
            room_id: self.room_id,
            room_name: self.room_name@,
            player_count: self.player_count,
        }
    }
}

impl DeepView for RoomSummary {
    type V = RoomSummaryView;

    open spec fn deep_view(&self) -> RoomSummaryView {
        self.view()
    }
}

/// Message on the list-rooms channel. A request carries an empty `rooms`;
/// a response carries the full snapshot.
pub struct ListRoomsMessage {
    pub nonce: u64,
    pub rooms: Vec<RoomSummary>,
}

/// Mathematical view of a `ListRoomsMessage`.
#[verifier::ext_equal]
pub struct ListRoomsMsgView {
    pub nonce: u64,
    pub rooms: Seq<RoomSummaryView>,
}

impl View for ListRoomsMessage {
    type V = ListRoomsMsgView;

    open spec fn view(&self) -> ListRoomsMsgView {
        ListRoomsMsgView { nonce: self.nonce, rooms: self.rooms.deep_view() }
    }
}

/// Message on the create-room channel. A request carries `room_id == 0`
/// (ids are assigned by the server alone); the response echoes the nonce
/// and fills in the created room's id.
pub struct CreateRoomMessage {
    pub nonce: u64,
    pub room_name: String,
    pub room_password: String,
    pub player_name: String,
    pub room_id: u64,
}

/// Mathematical view of a `CreateRoomMessage`.
#[verifier::ext_equal]
pub struct CreateRoomMsgView {
    pub nonce: u64,
    pub room_name: Seq<char>,
    pub room_password: Seq<char>,
    pub player_name: Seq<char>,
    pub room_id: u64,
}

impl View for CreateRoomMessage {
    type V = CreateRoomMsgView;

    open spec fn view(&self) -> CreateRoomMsgView {
        CreateRoomMsgView {
            nonce: self.nonce,
            room_name: self.room_name@,
            room_password: self.room_password@,
            player_name: self.player_name@,
            room_id: self.room_id,
        }
    }
}

/// Message on the enter-room channel. A request carries `success == false`;
/// the response echoes the nonce and the room id and sets `success`.
pub struct EnterRoomMessage {
    pub nonce: u64,
    pub room_id: u64,
    pub room_password: String,
    pub player_name: String,
    pub success: bool,
}

/// Mathematical view of an `EnterRoomMessage`.
#[verifier::ext_equal]
pub struct EnterRoomMsgView {
    pub nonce: u64,
    pub room_id: u64,
    pub room_password: Seq<char>,
    pub player_name: Seq<char>,
    pub success: bool,
}

impl View for EnterRoomMessage {
    type V = EnterRoomMsgView;

    open spec fn view(&self) -> EnterRoomMsgView {
        EnterRoomMsgView {
            nonce: self.nonce,
            room_id: self.room_id,
            room_password: self.room_password@,
            player_name: self.player_name@,
            success: self.success,
        }
    }
}

} // verus!
