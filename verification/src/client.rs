//! Client side of the lobby protocol.
//!
//! Two concerns live here. The request tracker keeps, per operation kind,
//! the nonce of the one in-flight request; a newer send silently overwrites
//! it, and only a response bearing the stored nonce can trigger the local
//! `Lobby` to `Gaming` transition. The poller sends periodic list-rooms
//! requests on a cooldown and replaces the local room-list snapshot with
//! whatever the latest decodable response carries.
#![allow(unused_imports)]
use vstd::prelude::*;

use crate::codec::{
    create_msg_le, decode_create_msg, decode_enter_msg, decode_list_msg, encode_create_msg,
    encode_enter_msg, encode_list_msg, enter_msg_le, list_msg_le, spec_decode_create,
    spec_decode_enter, spec_decode_list,
};
use crate::messages::{
    CreateRoomMessage, CreateRoomMsgView, EnterRoomMessage, EnterRoomMsgView, ListRoomsMessage,
    ListRoomsMsgView, RoomSummary, RoomSummaryView,
};
use crate::AppState;

verus! {

/// The display name the local player attaches to create and enter requests.
pub struct PlayerName(pub String);

/// Room name and password the user entered ahead of a create action.
pub struct NewRoomSettings {
    pub room_name: String,
    pub room_password: String,
}

/// A user intent, handed in by the presentation layer, to create a room
/// with the current settings.
pub struct CreateRoomEvent {}

/// A user intent to enter an existing room.
pub struct EnterRoomEvent {
    pub room_id: u64,
    pub room_password: String,
}

/// Client-local snapshot of the server's rooms. It is only ever replaced
/// whole by a list-rooms response, never patched.
pub struct RoomList(pub Vec<RoomSummary>);

/// Per operation kind: the nonce of the last request sent and not yet
/// overwritten, or `None` when nothing was ever sent on that kind.
pub struct RequestTracker {
    pub pending: Option<u64>,
}

impl RequestTracker {
    /// A tracker with no request in flight.
    pub fn new() -> (r: Self)
        ensures
            r.pending is None,
    {
        RequestTracker { pending: None }
    }
}

/// Whether a buffer on the create-room channel matches the pending
/// request: it decodes, and its nonce is the pending nonce.
pub open spec fn create_match(pending: Option<u64>, bytes: Seq<u8>) -> bool {
    match spec_decode_create(bytes) {
        Some(m) => pending == Some(m.nonce),
        None => false,
    }
}

/// Whether a buffer on the enter-room channel matches the pending request:
/// it decodes, its nonce is the pending nonce, and the server reported
/// success. An unsuccessful response never matches.
pub open spec fn enter_match(pending: Option<u64>, bytes: Seq<u8>) -> bool {
    match spec_decode_enter(bytes) {
        Some(m) => pending == Some(m.nonce) && m.success,
        None => false,
    }
}

/// The room id carried by the last inbound create-room response that
/// matches `pending`, if any. Later responses override earlier ones.
pub open spec fn create_outcome(pending: Option<u64>, inbound: Seq<Seq<u8>>) -> Option<u64>
    decreases inbound.len(),
{
    if inbound.len() == 0 {
        None
    } else if create_match(pending, inbound.last()) {
        Some(spec_decode_create(inbound.last()).unwrap().room_id)
    } else {
        create_outcome(pending, inbound.drop_last())
    }
}

/// The room id carried by the last inbound enter-room response that
/// matches `pending`, if any.
pub open spec fn enter_outcome(pending: Option<u64>, inbound: Seq<Seq<u8>>) -> Option<u64>
    decreases inbound.len(),
{
    if inbound.len() == 0 {
        None
    } else if enter_match(pending, inbound.last()) {
        Some(spec_decode_enter(inbound.last()).unwrap().room_id)
    } else {
        enter_outcome(pending, inbound.drop_last())
    }
}

/// The view of the create request sent for the current settings: a fresh
/// nonce, the settings, and the id sentinel `0` (ids come from the server
/// alone).
pub open spec fn create_request_view(
    now: u64,
    settings: &NewRoomSettings,
    player_name: &PlayerName,
) -> CreateRoomMsgView {
    CreateRoomMsgView {
        nonce: now,
        room_name: settings.room_name@,
        room_password: settings.room_password@,
        player_name: player_name.0@,
        room_id: 0,
    }
}

/// The view of the enter request sent for one enter intent: a fresh nonce,
/// the target room and password, and `success == false`.
pub open spec fn enter_request_view(
    now: u64,
    ev: &EnterRoomEvent,
    player_name: &PlayerName,
) -> EnterRoomMsgView {
    EnterRoomMsgView {
        nonce: now,
        room_id: ev.room_id,
        room_password: ev.room_password@,
        player_name: player_name.0@,
        success: false,
    }
}

/// Cooldown reset value between list-rooms polls, in time units.
pub const LIST_POLL_INTERVAL: u64 = 5;

/// The list poller's cooldown state. A fresh poller carries no cooldown,
/// so its first tick with any elapsed time sends at once.
pub struct ListPoller {
    pub refresh_cd: u64,
}

impl ListPoller {
    /// A poller that is ready to send on its first tick.
    pub fn new() -> (r: Self)
        ensures
            r.refresh_cd == 0,
    {
        ListPoller { refresh_cd: 0 }
    }
}

/// Whether a tick with `delta` elapsed time units sends a list request:
/// exactly when the elapsed time exceeds the remaining cooldown.
pub open spec fn poll_tick_sends(cd: u64, delta: u64) -> bool {
    delta > cd
}

/// The cooldown after a tick: reset to the full interval on a send, else
/// counted down by the elapsed time.
pub open spec fn poll_cd_after(cd: u64, delta: u64) -> u64 {
    if delta > cd {
        LIST_POLL_INTERVAL
    } else {
        (cd - delta) as u64
    }
}

/// The room list after draining `inbound`: the full snapshot of the last
/// decodable response, untouched by any prior state, or `prior` when
/// nothing decodes.
pub open spec fn room_list_after(
    prior: Seq<RoomSummaryView>,
    inbound: Seq<Seq<u8>>,
) -> Seq<RoomSummaryView>
    decreases inbound.len(),
{
    if inbound.len() == 0 {
        prior
    } else {
        match spec_decode_list(inbound.last()) {
            Some(m) => m.rooms,
            None => room_list_after(prior, inbound.drop_last()),
        }
    }
}

/// The view of the list request sent at `now`: a fresh nonce and an empty
/// room list.
pub open spec fn list_request_view(now: u64) -> ListRoomsMsgView {
    ListRoomsMsgView { nonce: now, rooms: Seq::<RoomSummaryView>::empty() }
}

/// One lobby tick of the list-rooms channel.
///
/// Count the cooldown down by the elapsed time; when it runs out, send one
/// list request stamped with `now` and reset the cooldown to the full
/// interval. Then drain the inbound responses in arrival order: each
/// decodable one replaces the local snapshot whole, so the last decodable
/// response wins; list responses are not correlated against any pending
/// nonce.
pub fn get_rooms(
    poller: &mut ListPoller,
    room_list: &mut RoomList,
    delta: u64,
    now: u64,
    inbound: &Vec<Vec<u8>>,
) -> (req: Option<Vec<u8>>)
    ensures
        final(poller).refresh_cd == poll_cd_after(old(poller).refresh_cd, delta),
        req is Some <==> poll_tick_sends(old(poller).refresh_cd, delta),
        req matches Some(bytes) ==> bytes@ == list_msg_le(list_request_view(now)),
        final(room_list).0.deep_view() == room_list_after(
            old(room_list).0.deep_view(),
            inbound.deep_view(),
        ),
{
    let req: Option<Vec<u8>> = if delta > poller.refresh_cd {
        let msg = ListRoomsMessage { nonce: now, rooms: Vec::new() };
        poller.refresh_cd = LIST_POLL_INTERVAL;
        proof {
            assert(msg@.rooms =~= Seq::<RoomSummaryView>::empty());
            assert(msg@ =~= list_request_view(now));
        }
        Some(encode_list_msg(&msg))
    } else {
        poller.refresh_cd = poller.refresh_cd - delta;
        None
    };
    let mut i: usize = 0;
    while i < inbound.len()
        invariant
            i <= inbound@.len(),
            room_list.0.deep_view() == room_list_after(
                old(room_list).0.deep_view(),
                inbound.deep_view().take(i as int),
            ),
        decreases inbound@.len() - i,
    {
        proof {
            assert(inbound.deep_view().take(i + 1).drop_last() =~= inbound.deep_view().take(
                i as int,
            ));
            assert(inbound.deep_view().take(i + 1).last() == inbound.deep_view()[i as int]);
            assert(inbound.deep_view()[i as int] =~= inbound@[i as int]@);
        }
        match decode_list_msg(&inbound[i]) {
            Some(m) => {
                room_list.0 = m.rooms;
            },
            None => {},
        }
        i = i + 1;
    }
    proof {
        assert(inbound.deep_view().take(inbound@.len() as int) =~= inbound.deep_view());
    }
    req
}

/// The pending nonce after a sequence of sends on one operation kind:
/// each send overwrites the slot, so only the last nonce remains.
pub open spec fn pending_after(sends: Seq<u64>) -> Option<u64> {
    if sends.len() == 0 {
        None
    } else {
        Some(sends.last())
    }
}

/// For any sequence of sends on the create-room kind, a response matches
/// afterwards exactly when it decodes and bears the nonce of the most
/// recent send. A response carrying the nonce of an earlier, overwritten
/// send never matches, however late it arrives.
pub proof fn lemma_create_only_latest_nonce_matches(sends: Seq<u64>, bytes: Seq<u8>)
    requires
        sends.len() > 0,
    ensures
        create_match(pending_after(sends), bytes) <==> (spec_decode_create(bytes) matches Some(m)
            && m.nonce == sends.last()),
{
}

/// The same for the enter-room kind, where a match additionally requires
/// the response to report success.
pub proof fn lemma_enter_only_latest_nonce_matches(sends: Seq<u64>, bytes: Seq<u8>)
    requires
        sends.len() > 0,
    ensures
        enter_match(pending_after(sends), bytes) <==> (spec_decode_enter(bytes) matches Some(m)
            && m.nonce == sends.last() && m.success),
{
}

/// A create-room drain reports a transition exactly when some inbound
/// buffer matches the pending nonce: no match, no transition.
pub proof fn lemma_create_outcome_iff_match(pending: Option<u64>, inbound: Seq<Seq<u8>>)
    ensures
        create_outcome(pending, inbound) is Some <==> exists|k: int|
            0 <= k < inbound.len() && create_match(pending, #[trigger] inbound[k]),
    decreases inbound.len(),
{
    if inbound.len() > 0 {
        lemma_create_outcome_iff_match(pending, inbound.drop_last());
        assert(forall|k: int|
            0 <= k < inbound.len() - 1 ==> inbound.drop_last()[k] == #[trigger] inbound[k]);
        if create_match(pending, inbound.last()) {
            assert(create_match(pending, inbound[inbound.len() - 1]));
        }
    }
}

/// An enter-room drain reports a transition exactly when some inbound
/// buffer matches the pending nonce and reports success.
pub proof fn lemma_enter_outcome_iff_match(pending: Option<u64>, inbound: Seq<Seq<u8>>)
    ensures
        enter_outcome(pending, inbound) is Some <==> exists|k: int|
            0 <= k < inbound.len() && enter_match(pending, #[trigger] inbound[k]),
    decreases inbound.len(),
{
    if inbound.len() > 0 {
        lemma_enter_outcome_iff_match(pending, inbound.drop_last());
        assert(forall|k: int|
            0 <= k < inbound.len() - 1 ==> inbound.drop_last()[k] == #[trigger] inbound[k]);
        if enter_match(pending, inbound.last()) {
            assert(enter_match(pending, inbound[inbound.len() - 1]));
        }
    }
}

/// An unsuccessful enter-room response never matches, whatever nonce it
/// carries and whatever is pending.
pub proof fn lemma_enter_failure_never_matches(pending: Option<u64>, bytes: Seq<u8>)
    requires
        spec_decode_enter(bytes) matches Some(m) && !m.success,
    ensures
        !enter_match(pending, bytes),
{
}

/// Once any inbound response decodes, the room list after the drain is the
/// snapshot of the last decodable response alone: no trace of the prior
/// list survives, whatever it held.
pub proof fn lemma_room_list_replaced_whole(
    prior_a: Seq<RoomSummaryView>,
    prior_b: Seq<RoomSummaryView>,
    inbound: Seq<Seq<u8>>,
)
    requires
        exists|k: int| 0 <= k < inbound.len() && spec_decode_list(#[trigger] inbound[k]) is Some,
    ensures
        room_list_after(prior_a, inbound) == room_list_after(prior_b, inbound),
    decreases inbound.len(),
{
    let k = choose|k: int| 0 <= k < inbound.len() && spec_decode_list(#[trigger] inbound[k]) is Some;
    if spec_decode_list(inbound.last()) is None {
        assert(k < inbound.len() - 1);
        assert(inbound.drop_last()[k] == inbound[k]);
        lemma_room_list_replaced_whole(prior_a, prior_b, inbound.drop_last());
    }
}

/// The total elapsed time over a run of ticks.
pub open spec fn sum_of(deltas: Seq<u64>) -> int
    decreases deltas.len(),
{
    if deltas.len() == 0 {
        0
    } else {
        sum_of(deltas.drop_last()) + deltas.last()
    }
}

/// The poller's cooldown after a run of ticks with the given elapsed
/// times, starting from `cd0`.
pub open spec fn poll_cd_run(cd0: u64, deltas: Seq<u64>) -> u64
    decreases deltas.len(),
{
    if deltas.len() == 0 {
        cd0
    } else {
        poll_cd_after(poll_cd_run(cd0, deltas.drop_last()), deltas.last())
    }
}

/// Whether tick `i` of the run sends a list request.
pub open spec fn poll_sends_at(cd0: u64, deltas: Seq<u64>, i: int) -> bool {
    poll_tick_sends(poll_cd_run(cd0, deltas.take(i)), deltas[i])
}

/// Over ticks that send nothing, the cooldown counts down exactly by the
/// elapsed time, and never runs out.
proof fn lemma_poll_quiet_run(cd0: u64, deltas: Seq<u64>, i: int, j: int)
    requires
        0 <= i <= j <= deltas.len(),
        forall|k: int| i <= k < j ==> !poll_sends_at(cd0, deltas, k),
    ensures
        sum_of(deltas.subrange(i, j)) <= poll_cd_run(cd0, deltas.take(i)),
        poll_cd_run(cd0, deltas.take(j)) == poll_cd_run(cd0, deltas.take(i)) - sum_of(
            deltas.subrange(i, j),
        ),
    decreases j - i,
{
    if i == j {
        assert(deltas.subrange(i, j) =~= Seq::<u64>::empty());
    } else {
        lemma_poll_quiet_run(cd0, deltas, i, j - 1);
        assert(!poll_sends_at(cd0, deltas, j - 1));
        assert(deltas.take(j).drop_last() =~= deltas.take(j - 1));
        assert(deltas.take(j).last() == deltas[j - 1]);
        assert(deltas.subrange(i, j).drop_last() =~= deltas.subrange(i, j - 1));
        assert(deltas.subrange(i, j).last() == deltas[j - 1]);
    }
}

/// Between any two sends of the poller, strictly more than the full poll
/// interval of time elapses: once the cooldown is set, no two list
/// requests can be sent closer together than the interval.
pub proof fn lemma_poll_interval(cd0: u64, deltas: Seq<u64>, i: int, j: int)
    requires
        0 <= i < j < deltas.len(),
        poll_sends_at(cd0, deltas, i),
        poll_sends_at(cd0, deltas, j),
        forall|k: int| i < k < j ==> !poll_sends_at(cd0, deltas, k),
    ensures
        sum_of(deltas.subrange(i + 1, j + 1)) > LIST_POLL_INTERVAL,
{
    assert(poll_cd_run(cd0, deltas.take(i + 1)) == LIST_POLL_INTERVAL) by {
        assert(deltas.take(i + 1).drop_last() =~= deltas.take(i));
        assert(deltas.take(i + 1).last() == deltas[i]);
    }
    lemma_poll_quiet_run(cd0, deltas, i + 1, j);
    assert(deltas[j] > poll_cd_run(cd0, deltas.take(j)));
    assert(deltas.subrange(i + 1, j + 1).drop_last() =~= deltas.subrange(i + 1, j));
    assert(deltas.subrange(i + 1, j + 1).last() == deltas[j]);
}

/// One lobby tick of the create-room channel.
///
/// For each create intent, send one request stamped with `now` and store
/// `now` as the pending nonce, overwriting any earlier one. Then drain the
/// inbound responses: exactly a decodable response bearing the pending
/// nonce triggers the one-way transition to `Gaming`, and the last such
/// response's room id is reported. Undecodable or stale responses are
/// dropped silently.
pub fn create_room(
    tracker: &mut RequestTracker,
    events: &Vec<CreateRoomEvent>,
    settings: &NewRoomSettings,
    player_name: &PlayerName,
    now: u64,
    inbound: &Vec<Vec<u8>>,
    state: &mut AppState,
) -> (r: (Vec<Vec<u8>>, Option<u64>))
    ensures
        r.0@.len() == events@.len(),
        forall|k: int|
            0 <= k < r.0@.len() ==> r.0@[k]@ == create_msg_le(
                create_request_view(now, settings, player_name),
            ),
        final(tracker).pending == if events@.len() > 0 {
            Some(now)
        } else {
            old(tracker).pending
        },
        r.1 == create_outcome(final(tracker).pending, inbound.deep_view()),
        *final(state) == if r.1 is Some {
            AppState::Gaming
        } else {
            *old(state)
        },
{
    let mut out: Vec<Vec<u8>> = Vec::new();
    let mut ei: usize = 0;
    while ei < events.len()
        invariant
            ei <= events@.len(),
            out@.len() == ei,
            forall|k: int|
                0 <= k < ei ==> out@[k]@ == create_msg_le(
                    create_request_view(now, settings, player_name),
                ),
            tracker.pending == if ei > 0 {
                Some(now)
            } else {
                old(tracker).pending
            },
        decreases events@.len() - ei,
    {
        let msg = CreateRoomMessage {
            nonce: now,
            room_name: settings.room_name.clone(),
            room_password: settings.room_password.clone(),
            player_name: player_name.0.clone(),
            room_id: 0,
        };
        out.push(encode_create_msg(&msg));
        tracker.pending = Some(now);
        ei = ei + 1;
    }
    let mut matched: Option<u64> = None;
    let mut i: usize = 0;
    while i < inbound.len()
        invariant
            i <= inbound@.len(),
            tracker.pending == if events@.len() > 0 {
                Some(now)
            } else {
                old(tracker).pending
            },
            matched == create_outcome(tracker.pending, inbound.deep_view().take(i as int)),
            out@.len() == events@.len(),
            forall|k: int|
                0 <= k < out@.len() ==> out@[k]@ == create_msg_le(
                    create_request_view(now, settings, player_name),
                ),
        decreases inbound@.len() - i,
    {
        proof {
            assert(inbound.deep_view().take(i + 1).drop_last() =~= inbound.deep_view().take(
                i as int,
            ));
            assert(inbound.deep_view().take(i + 1).last() == inbound.deep_view()[i as int]);
            assert(inbound.deep_view()[i as int] =~= inbound@[i as int]@);
        }
        match decode_create_msg(&inbound[i]) {
            Some(m) => {
                let is_match = match tracker.pending {
                    Some(p) => p == m.nonce,
                    None => false,
                };
                if is_match {
                    matched = Some(m.room_id);
                }
            },
            None => {},
        }
        i = i + 1;
    }
    proof {
        assert(inbound.deep_view().take(inbound@.len() as int) =~= inbound.deep_view());
    }
    if matched.is_some() {
        *state = AppState::Gaming;
    }
    (out, matched)
}

/// One lobby tick of the enter-room channel.
///
/// For each enter intent, send one request stamped with `now` and store
/// `now` as the pending nonce, overwriting any earlier one. Then drain the
/// inbound responses: exactly a decodable response bearing the pending
/// nonce *and* `success == true` triggers the one-way transition to
/// `Gaming`. Unsuccessful, stale or undecodable responses are dropped
/// silently, so a wrong password and a vanished room look the same here.
pub fn enter_room(
    tracker: &mut RequestTracker,
    events: &Vec<EnterRoomEvent>,
    player_name: &PlayerName,
    now: u64,
    inbound: &Vec<Vec<u8>>,
    state: &mut AppState,
) -> (r: (Vec<Vec<u8>>, Option<u64>))
    ensures
        r.0@.len() == events@.len(),
        forall|k: int|
            0 <= k < r.0@.len() ==> r.0@[k]@ == enter_msg_le(
                enter_request_view(now, &events@[k], player_name),
            ),
        final(tracker).pending == if events@.len() > 0 {
            Some(now)
        } else {
            old(tracker).pending
        },
        r.1 == enter_outcome(final(tracker).pending, inbound.deep_view()),
        *final(state) == if r.1 is Some {
            AppState::Gaming
        } else {
            *old(state)
        },
{
    let mut out: Vec<Vec<u8>> = Vec::new();
    let mut ei: usize = 0;
    while ei < events.len()
        invariant
            ei <= events@.len(),
            out@.len() == ei,
            forall|k: int|
                0 <= k < ei ==> out@[k]@ == enter_msg_le(
                    enter_request_view(now, &events@[k], player_name),
                ),
            tracker.pending == if ei > 0 {
                Some(now)
            } else {
                old(tracker).pending
            },
        decreases events@.len() - ei,
    {
        let ev = &events[ei];
        let msg = EnterRoomMessage {
            nonce: now,
            room_id: ev.room_id,
            room_password: ev.room_password.clone(),
            player_name: player_name.0.clone(),
            success: false,
        };
        out.push(encode_enter_msg(&msg));
        tracker.pending = Some(now);
        ei = ei + 1;
    }
    let mut matched: Option<u64> = None;
    let mut i: usize = 0;
    while i < inbound.len()
        invariant
            i <= inbound@.len(),
            tracker.pending == if events@.len() > 0 {
                Some(now)
            } else {
                old(tracker).pending
            },
            matched == enter_outcome(tracker.pending, inbound.deep_view().take(i as int)),
            out@.len() == events@.len(),
            forall|k: int|
                0 <= k < out@.len() ==> out@[k]@ == enter_msg_le(
                    enter_request_view(now, &events@[k], player_name),
                ),
        decreases inbound@.len() - i,
    {
        proof {
            assert(inbound.deep_view().take(i + 1).drop_last() =~= inbound.deep_view().take(
                i as int,
            ));
            assert(inbound.deep_view().take(i + 1).last() == inbound.deep_view()[i as int]);
            assert(inbound.deep_view()[i as int] =~= inbound@[i as int]@);
        }
        match decode_enter_msg(&inbound[i]) {
            Some(m) => {
                let is_match = match tracker.pending {
                    Some(p) => p == m.nonce && m.success,
                    None => false,
                };
                if is_match {
                    matched = Some(m.room_id);
                }
            },
            None => {},
        }
        i = i + 1;
    }
    proof {
        assert(inbound.deep_view().take(inbound@.len() as int) =~= inbound.deep_view());
    }
    if matched.is_some() {
        *state = AppState::Gaming;
    }
    (out, matched)
}

} // verus!
