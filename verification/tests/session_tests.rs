use texas_holdem_lobby::client::{
    create_room, enter_room, get_rooms, CreateRoomEvent, EnterRoomEvent, ListPoller,
    NewRoomSettings, PlayerName, RequestTracker, RoomList,
};
use texas_holdem_lobby::messages::ChannelKind;
use texas_holdem_lobby::server::{
    handle_create_room, handle_enter_room, handle_get_rooms, Registry,
};
use texas_holdem_lobby::AppState;

#[test]
fn channel_ids_are_distinct() {
    let ids = [
        ChannelKind::ListRooms.channel_id(),
        ChannelKind::CreateRoom.channel_id(),
        ChannelKind::EnterRoom.channel_id(),
    ];
    assert_ne!(ids[0], ids[1]);
    assert_ne!(ids[0], ids[2]);
    assert_ne!(ids[1], ids[2]);
}

#[test]
fn end_to_end_create_list_enter_session() {
    let mut registry = Registry::new();

    // first client creates a room and transitions on the echoed response
    let mut create_tracker = RequestTracker::new();
    let mut state_a = AppState::default();
    assert_eq!(state_a, AppState::Lobby);
    let alice = PlayerName(String::from("Alice"));
    let settings = NewRoomSettings {
        room_name: String::from("Table1"),
        room_password: String::from("pw"),
    };
    let (requests, _) = create_room(
        &mut create_tracker,
        &vec![CreateRoomEvent {}],
        &settings,
        &alice,
        100,
        &Vec::new(),
        &mut state_a,
    );
    let responses = handle_create_room(&mut registry, &requests);
    let (_, created) = create_room(
        &mut create_tracker,
        &Vec::new(),
        &settings,
        &alice,
        101,
        &responses,
        &mut state_a,
    );
    let room_id = created.expect("the echoed response must match");
    assert_eq!(state_a, AppState::Gaming);
    assert_ne!(room_id, 0);

    // second client polls the list and sees the room
    let mut poller = ListPoller::new();
    let mut room_list = RoomList(Vec::new());
    let mut enter_tracker = RequestTracker::new();
    let mut state_b = AppState::default();
    let bob = PlayerName(String::from("Bob"));
    let list_req = get_rooms(&mut poller, &mut room_list, 1, 200, &Vec::new())
        .expect("a fresh poller sends at once");
    let list_resp = handle_get_rooms(&registry, &vec![list_req]);
    get_rooms(&mut poller, &mut room_list, 1, 201, &list_resp);
    assert_eq!(room_list.0.len(), 1);
    assert_eq!(room_list.0[0].room_id, room_id);
    assert_eq!(room_list.0[0].room_name, "Table1");
    assert_eq!(room_list.0[0].player_count, 1);

    // it enters with the right password and transitions too
    let (enter_requests, _) = enter_room(
        &mut enter_tracker,
        &vec![EnterRoomEvent { room_id, room_password: String::from("pw") }],
        &bob,
        300,
        &Vec::new(),
        &mut state_b,
    );
    let enter_responses = handle_enter_room(&mut registry, &enter_requests);
    let (_, entered) = enter_room(
        &mut enter_tracker,
        &Vec::new(),
        &bob,
        301,
        &enter_responses,
        &mut state_b,
    );
    assert_eq!(entered, Some(room_id));
    assert_eq!(state_b, AppState::Gaming);
    assert_eq!(registry.rooms[0].players.len(), 2);
    assert_eq!(registry.rooms[0].players[1].name, "Bob");
}
