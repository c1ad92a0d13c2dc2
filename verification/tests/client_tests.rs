use texas_holdem_lobby::client::{
    create_room, enter_room, get_rooms, CreateRoomEvent, EnterRoomEvent, ListPoller,
    NewRoomSettings, PlayerName, RequestTracker, RoomList,
};
use texas_holdem_lobby::codec::{encode_create_msg, encode_enter_msg, encode_list_msg};
use texas_holdem_lobby::messages::{
    CreateRoomMessage, EnterRoomMessage, ListRoomsMessage, RoomSummary,
};
use texas_holdem_lobby::AppState;

fn settings() -> NewRoomSettings {
    NewRoomSettings { room_name: String::from("Table1"), room_password: String::from("pw") }
}

fn create_response(nonce: u64, room_id: u64) -> Vec<u8> {
    encode_create_msg(&CreateRoomMessage {
        nonce,
        room_name: String::from("Table1"),
        room_password: String::from("pw"),
        player_name: String::from("Alice"),
        room_id,
    })
}

fn enter_response(nonce: u64, room_id: u64, success: bool) -> Vec<u8> {
    encode_enter_msg(&EnterRoomMessage {
        nonce,
        room_id,
        room_password: String::from("x"),
        player_name: String::from("Alice"),
        success,
    })
}

#[test]
fn scenario_a_create_then_matching_response_enters_gaming() {
    let mut tracker = RequestTracker::new();
    let mut state = AppState::Lobby;
    let alice = PlayerName(String::from("Alice"));

    // tick one: the user asks for a room; a request goes out under nonce 100
    let (out, matched) = create_room(
        &mut tracker,
        &vec![CreateRoomEvent {}],
        &settings(),
        &alice,
        100,
        &Vec::new(),
        &mut state,
    );
    assert_eq!(out.len(), 1);
    assert!(matched.is_none());
    assert_eq!(state, AppState::Lobby);

    // tick two: the server answers under the same nonce with room id 7
    let inbound = vec![create_response(100, 7)];
    let (out2, matched2) = create_room(
        &mut tracker,
        &Vec::new(),
        &settings(),
        &alice,
        101,
        &inbound,
        &mut state,
    );
    assert!(out2.is_empty());
    assert_eq!(matched2, Some(7));
    assert_eq!(state, AppState::Gaming);
}

#[test]
fn scenario_b_overwritten_nonce_is_stale_forever() {
    let mut tracker = RequestTracker::new();
    let mut state = AppState::Lobby;
    let alice = PlayerName(String::from("Alice"));

    // two sends before any response: nonce 100 is overwritten by 200
    create_room(
        &mut tracker,
        &vec![CreateRoomEvent {}],
        &settings(),
        &alice,
        100,
        &Vec::new(),
        &mut state,
    );
    create_room(
        &mut tracker,
        &vec![CreateRoomEvent {}],
        &settings(),
        &alice,
        200,
        &Vec::new(),
        &mut state,
    );

    // a late response to the first request arrives: no transition
    let inbound = vec![create_response(100, 7)];
    let (_, matched) = create_room(
        &mut tracker,
        &Vec::new(),
        &settings(),
        &alice,
        201,
        &inbound,
        &mut state,
    );
    assert!(matched.is_none());
    assert_eq!(state, AppState::Lobby);
}

#[test]
fn scenario_c_unsuccessful_enter_response_never_transitions() {
    let mut tracker = RequestTracker::new();
    let mut state = AppState::Lobby;
    let alice = PlayerName(String::from("Alice"));

    // the user asks to enter room 7 under nonce 50
    let events = vec![EnterRoomEvent { room_id: 7, room_password: String::from("x") }];
    let (out, _) = enter_room(&mut tracker, &events, &alice, 50, &Vec::new(), &mut state);
    assert_eq!(out.len(), 1);

    // the password was wrong: the response matches the nonce but reports
    // failure, so nothing happens
    let inbound = vec![enter_response(50, 7, false)];
    let (_, matched) = enter_room(&mut tracker, &Vec::new(), &alice, 51, &inbound, &mut state);
    assert!(matched.is_none());
    assert_eq!(state, AppState::Lobby);
}

#[test]
fn successful_enter_response_transitions() {
    let mut tracker = RequestTracker::new();
    let mut state = AppState::Lobby;
    let alice = PlayerName(String::from("Alice"));

    let events = vec![EnterRoomEvent { room_id: 7, room_password: String::from("x") }];
    enter_room(&mut tracker, &events, &alice, 50, &Vec::new(), &mut state);

    let inbound = vec![enter_response(50, 7, true)];
    let (_, matched) = enter_room(&mut tracker, &Vec::new(), &alice, 51, &inbound, &mut state);
    assert_eq!(matched, Some(7));
    assert_eq!(state, AppState::Gaming);
}

#[test]
fn stale_enter_response_is_dropped_even_on_success() {
    let mut tracker = RequestTracker::new();
    let mut state = AppState::Lobby;
    let alice = PlayerName(String::from("Alice"));

    let events = vec![EnterRoomEvent { room_id: 7, room_password: String::from("x") }];
    enter_room(&mut tracker, &events, &alice, 50, &Vec::new(), &mut state);

    // a successful response to some other nonce never matches
    let inbound = vec![enter_response(49, 7, true)];
    let (_, matched) = enter_room(&mut tracker, &Vec::new(), &alice, 51, &inbound, &mut state);
    assert!(matched.is_none());
    assert_eq!(state, AppState::Lobby);
}

#[test]
fn response_without_any_send_never_matches() {
    let mut tracker = RequestTracker::new();
    let mut state = AppState::Lobby;
    let alice = PlayerName(String::from("Alice"));

    let inbound = vec![create_response(0, 7)];
    let (_, matched) = create_room(
        &mut tracker,
        &Vec::new(),
        &settings(),
        &alice,
        1,
        &inbound,
        &mut state,
    );
    assert!(matched.is_none());
    assert_eq!(state, AppState::Lobby);
}

fn snapshot(nonce: u64, names: &[&str]) -> Vec<u8> {
    let rooms: Vec<RoomSummary> = names
        .iter()
        .enumerate()
        .map(|(i, n)| RoomSummary {
            room_id: i as u64 + 1,
            room_name: String::from(*n),
            player_count: 1,
        })
        .collect();
    encode_list_msg(&ListRoomsMessage { nonce, rooms })
}

#[test]
fn scenario_d_last_snapshot_in_a_tick_wins() {
    let mut poller = ListPoller::new();
    let mut room_list = RoomList(vec![RoomSummary {
        room_id: 99,
        room_name: String::from("stale"),
        player_count: 5,
    }]);

    let inbound = vec![snapshot(1, &["one", "two"]), snapshot(2, &["three"])];
    get_rooms(&mut poller, &mut room_list, 0, 10, &inbound);

    // the room list is exactly the second snapshot: nothing of the first
    // one and nothing of the prior list survives
    assert_eq!(room_list.0.len(), 1);
    assert_eq!(room_list.0[0].room_name, "three");
    assert_eq!(room_list.0[0].room_id, 1);
}

#[test]
fn undecodable_snapshot_keeps_the_previous_list() {
    let mut poller = ListPoller::new();
    let mut room_list = RoomList(Vec::new());

    let inbound = vec![snapshot(1, &["one"]), vec![0xFF, 1, 2]];
    get_rooms(&mut poller, &mut room_list, 0, 10, &inbound);
    assert_eq!(room_list.0.len(), 1);
    assert_eq!(room_list.0[0].room_name, "one");
}

#[test]
fn poll_cooldown_spaces_requests_apart() {
    let mut poller = ListPoller::new();
    let mut room_list = RoomList(Vec::new());
    let none: Vec<Vec<u8>> = Vec::new();

    // a fresh poller sends as soon as any time has elapsed
    assert!(get_rooms(&mut poller, &mut room_list, 1, 100, &none).is_some());
    // then the cooldown holds the line for five time units
    assert!(get_rooms(&mut poller, &mut room_list, 2, 101, &none).is_none());
    assert!(get_rooms(&mut poller, &mut room_list, 3, 102, &none).is_none());
    // 2 + 3 + 1 > 5: only now may the next request go out
    assert!(get_rooms(&mut poller, &mut room_list, 1, 103, &none).is_some());
}

#[test]
fn poll_tick_without_elapsed_time_sends_nothing() {
    let mut poller = ListPoller::new();
    let mut room_list = RoomList(Vec::new());
    let none: Vec<Vec<u8>> = Vec::new();
    assert!(get_rooms(&mut poller, &mut room_list, 0, 100, &none).is_none());
}
