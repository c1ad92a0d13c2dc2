use texas_holdem_lobby::codec::{
    decode_create_msg, decode_enter_msg, decode_list_msg, encode_create_msg, encode_enter_msg,
    encode_list_msg,
};
use texas_holdem_lobby::messages::{
    CreateRoomMessage, EnterRoomMessage, ListRoomsMessage, RoomSummary,
};

#[test]
fn create_msg_round_trip() {
    let m = CreateRoomMessage {
        nonce: 100,
        room_name: String::from("Table1"),
        room_password: String::from("sésame 🃏"),
        player_name: String::from("Alice"),
        room_id: 0,
    };
    let bytes = encode_create_msg(&m);
    let d = decode_create_msg(&bytes).expect("the encoding must decode");
    assert_eq!(d.nonce, 100);
    assert_eq!(d.room_name, "Table1");
    assert_eq!(d.room_password, "sésame 🃏");
    assert_eq!(d.player_name, "Alice");
    assert_eq!(d.room_id, 0);
}

#[test]
fn enter_msg_round_trip() {
    for success in [false, true] {
        let m = EnterRoomMessage {
            nonce: 7,
            room_id: 42,
            room_password: String::from("x"),
            player_name: String::from(""),
            success,
        };
        let bytes = encode_enter_msg(&m);
        let d = decode_enter_msg(&bytes).expect("the encoding must decode");
        assert_eq!(d.nonce, 7);
        assert_eq!(d.room_id, 42);
        assert_eq!(d.room_password, "x");
        assert_eq!(d.player_name, "");
        assert_eq!(d.success, success);
    }
}

#[test]
fn list_msg_round_trip() {
    let m = ListRoomsMessage {
        nonce: 3,
        rooms: vec![
            RoomSummary { room_id: 1, room_name: String::from("a"), player_count: 2 },
            RoomSummary { room_id: 9, room_name: String::from("héllo"), player_count: 0 },
        ],
    };
    let bytes = encode_list_msg(&m);
    let d = decode_list_msg(&bytes).expect("the encoding must decode");
    assert_eq!(d.nonce, 3);
    assert_eq!(d.rooms.len(), 2);
    assert_eq!(d.rooms[0].room_id, 1);
    assert_eq!(d.rooms[0].room_name, "a");
    assert_eq!(d.rooms[0].player_count, 2);
    assert_eq!(d.rooms[1].room_id, 9);
    assert_eq!(d.rooms[1].room_name, "héllo");
    assert_eq!(d.rooms[1].player_count, 0);
}

#[test]
fn empty_list_msg_exact_bytes() {
    let m = ListRoomsMessage { nonce: 1, rooms: Vec::new() };
    let bytes = encode_list_msg(&m);
    // nonce as eight little-endian bytes, then a zero entry count
    let expected: Vec<u8> = vec![1, 0, 0, 0, 0, 0, 0, 0, 0, 0, 0, 0, 0, 0, 0, 0];
    assert_eq!(bytes, expected);
}

#[test]
fn create_msg_exact_bytes() {
    let m = CreateRoomMessage {
        nonce: 0x0102030405060708,
        room_name: String::from("AB"),
        room_password: String::new(),
        player_name: String::new(),
        room_id: 0,
    };
    let bytes = encode_create_msg(&m);
    let mut expected: Vec<u8> = vec![8, 7, 6, 5, 4, 3, 2, 1];
    expected.extend([2, 0, 0, 0, 0, 0, 0, 0]); // two characters
    expected.extend([0x41, 0, 0, 0, 0x42, 0, 0, 0]); // 'A', 'B' as scalars
    expected.extend([0, 0, 0, 0, 0, 0, 0, 0]); // empty password
    expected.extend([0, 0, 0, 0, 0, 0, 0, 0]); // empty player name
    expected.extend([0, 0, 0, 0, 0, 0, 0, 0]); // room id sentinel
    assert_eq!(bytes, expected);
}

#[test]
fn decode_rejects_malformed_buffers() {
    // too short for any message
    assert!(decode_create_msg(&Vec::new()).is_none());
    assert!(decode_enter_msg(&vec![0; 15]).is_none());
    assert!(decode_list_msg(&vec![0; 15]).is_none());

    // a valid encoding, truncated
    let m = CreateRoomMessage {
        nonce: 5,
        room_name: String::from("room"),
        room_password: String::from("pw"),
        player_name: String::from("p"),
        room_id: 0,
    };
    let mut bytes = encode_create_msg(&m);
    bytes.pop();
    assert!(decode_create_msg(&bytes).is_none());

    // a valid encoding with trailing garbage
    let mut padded = encode_create_msg(&m);
    padded.push(0);
    assert!(decode_create_msg(&padded).is_none());
}

#[test]
fn decode_rejects_surrogate_scalar() {
    // one-character name whose scalar value 0xD800 is no char
    let mut bytes: Vec<u8> = vec![0; 8]; // nonce
    bytes.extend([1, 0, 0, 0, 0, 0, 0, 0]); // one character
    bytes.extend([0x00, 0xD8, 0, 0]); // 0xD800, a surrogate
    bytes.extend([0; 8]); // empty password
    bytes.extend([0; 8]); // empty player name
    bytes.extend([0; 8]); // room id
    assert!(decode_create_msg(&bytes).is_none());
}

#[test]
fn decode_rejects_bad_flag_byte() {
    let m = EnterRoomMessage {
        nonce: 1,
        room_id: 2,
        room_password: String::new(),
        player_name: String::new(),
        success: false,
    };
    let mut bytes = encode_enter_msg(&m);
    let last = bytes.len() - 1;
    bytes[last] = 2; // neither 0 nor 1
    assert!(decode_enter_msg(&bytes).is_none());
}
