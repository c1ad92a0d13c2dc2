use texas_holdem_lobby::codec::{
    decode_create_msg, decode_list_msg, encode_create_msg, encode_enter_msg, encode_list_msg,
};
use texas_holdem_lobby::messages::{
    CreateRoomMessage, EnterRoomMessage, ListRoomsMessage, RoomSummary,
};
use texas_holdem_lobby::server::{
    handle_create_room, handle_enter_room, handle_get_rooms, Registry,
};

fn create_req(nonce: u64, name: &str, password: &str, player: &str) -> CreateRoomMessage {
    CreateRoomMessage {
        nonce,
        room_name: String::from(name),
        room_password: String::from(password),
        player_name: String::from(player),
        room_id: 0,
    }
}

fn enter_req(nonce: u64, room_id: u64, password: &str, player: &str) -> EnterRoomMessage {
    EnterRoomMessage {
        nonce,
        room_id,
        room_password: String::from(password),
        player_name: String::from(player),
        success: false,
    }
}

#[test]
fn create_assigns_unique_nonzero_ids_and_echoes_nonce() {
    let mut reg = Registry::new();
    let r1 = reg.handle_create(create_req(100, "Table1", "pw", "Alice"));
    let r2 = reg.handle_create(create_req(200, "Table2", "pw", "Bob"));
    assert_eq!(r1.nonce, 100);
    assert_eq!(r2.nonce, 200);
    assert_ne!(r1.room_id, 0);
    assert_ne!(r2.room_id, 0);
    assert_ne!(r1.room_id, r2.room_id);
    assert_eq!(reg.rooms.len(), 2);
    // the creator is seated as the room's first player
    assert_eq!(reg.rooms[0].players.len(), 1);
    assert_eq!(reg.rooms[0].players[0].name, "Alice");
}

#[test]
fn enter_unknown_room_fails_and_changes_nothing() {
    let mut reg = Registry::new();
    reg.handle_create(create_req(1, "Table1", "pw", "Alice"));
    let resp = reg.handle_enter(enter_req(50, 999, "pw", "Bob"));
    assert!(!resp.success);
    assert_eq!(resp.nonce, 50);
    assert_eq!(resp.room_id, 999);
    assert_eq!(reg.rooms[0].players.len(), 1);
}

#[test]
fn enter_wrong_password_fails_like_unknown_room() {
    let mut reg = Registry::new();
    let created = reg.handle_create(create_req(1, "Table1", "secret", "Alice"));
    let resp = reg.handle_enter(enter_req(50, created.room_id, "wrong", "Bob"));
    assert!(!resp.success);
    assert_eq!(reg.rooms[0].players.len(), 1);
}

#[test]
fn enter_with_matching_password_seats_the_player() {
    let mut reg = Registry::new();
    let created = reg.handle_create(create_req(1, "Table1", "secret", "Alice"));
    let resp = reg.handle_enter(enter_req(50, created.room_id, "secret", "Bob"));
    assert!(resp.success);
    assert_eq!(resp.nonce, 50);
    assert_eq!(resp.room_id, created.room_id);
    // join order is kept
    assert_eq!(reg.rooms[0].players.len(), 2);
    assert_eq!(reg.rooms[0].players[0].name, "Alice");
    assert_eq!(reg.rooms[0].players[1].name, "Bob");
}

#[test]
fn list_snapshot_reports_ids_names_and_counts() {
    let mut reg = Registry::new();
    let c1 = reg.handle_create(create_req(1, "Table1", "pw", "Alice"));
    let c2 = reg.handle_create(create_req(2, "Table2", "pw", "Bob"));
    reg.handle_enter(enter_req(3, c2.room_id, "pw", "Carol"));
    let rooms = reg.handle_list();
    assert_eq!(rooms.len(), 2);
    assert_eq!(rooms[0].room_id, c1.room_id);
    assert_eq!(rooms[0].room_name, "Table1");
    assert_eq!(rooms[0].player_count, 1);
    assert_eq!(rooms[1].room_id, c2.room_id);
    assert_eq!(rooms[1].player_count, 2);
}

#[test]
fn get_rooms_tick_answers_each_decodable_request() {
    let mut reg = Registry::new();
    reg.handle_create(create_req(1, "Table1", "pw", "Alice"));

    let req1 = encode_list_msg(&ListRoomsMessage { nonce: 10, rooms: Vec::new() });
    let req2 = encode_list_msg(&ListRoomsMessage { nonce: 20, rooms: Vec::new() });
    let garbage = vec![1, 2, 3];
    let inbound = vec![req1, garbage, req2];

    let out = handle_get_rooms(&reg, &inbound);
    assert_eq!(out.len(), 2);
    let r1 = decode_list_msg(&out[0]).expect("a response must decode");
    let r2 = decode_list_msg(&out[1]).expect("a response must decode");
    assert_eq!(r1.nonce, 10);
    assert_eq!(r2.nonce, 20);
    assert_eq!(r1.rooms.len(), 1);
    assert_eq!(r1.rooms[0].room_name, "Table1");
}

#[test]
fn create_room_tick_registers_in_arrival_order() {
    let mut reg = Registry::new();
    let inbound = vec![
        encode_create_msg(&create_req(100, "first", "a", "Alice")),
        vec![0xFF],
        encode_create_msg(&create_req(200, "second", "b", "Bob")),
    ];
    let out = handle_create_room(&mut reg, &inbound);
    assert_eq!(out.len(), 2);
    assert_eq!(reg.rooms.len(), 2);
    assert_eq!(reg.rooms[0].name, "first");
    assert_eq!(reg.rooms[1].name, "second");
    let r1 = decode_create_msg(&out[0]).expect("a response must decode");
    assert_eq!(r1.nonce, 100);
    assert_eq!(r1.room_id, reg.rooms[0].id);
}

#[test]
fn enter_room_tick_sees_rooms_created_earlier_in_the_session() {
    let mut reg = Registry::new();
    let created = reg.handle_create(create_req(1, "Table1", "pw", "Alice"));
    let inbound = vec![encode_enter_msg(&enter_req(50, created.room_id, "pw", "Bob"))];
    let out = handle_enter_room(&mut reg, &inbound);
    assert_eq!(out.len(), 1);
    assert_eq!(reg.rooms[0].players.len(), 2);
}
