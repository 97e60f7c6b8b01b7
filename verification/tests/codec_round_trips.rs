//! Round trips and exact byte forms of the wire codec.

use item_wars::model::{Direction, Player, Position, Potion, PotionType};
use item_wars::model::NetworkedGame;
use item_wars::codec::{encode_position, parse_player, parse_position};
use item_wars::num::parse_i64;
use item_wars::wire::{
    encode_game_bytes, encode_player_bytes, encode_request_bytes, parse_game_full,
    parse_game_id_reply, parse_player_full, parse_request_full, RequestWire,
};

fn b(s: &str) -> Vec<u8> {
    s.as_bytes().to_vec()
}

fn still(x: i64, y: i64, w: i64, h: i64, name: &str) -> Player {
    Player {
        body: Position { x, y, w, h },
        dir: Direction::default(),
        last_dir: Direction::default(),
        ate: None,
        name: b(name),
        hp: 100,
        mp: 30,
        str: 10,
        current_accel: 4,
        jumping: false,
        jump_offset: 0,
        jump_direction: true,
    }
}

#[test]
fn player_encodes_to_exact_json() {
    let p = still(10, 20, 34, 44, "Fred");
    let bytes = encode_player_bytes(&p);
    let expected = "{\"body\":{\"x\":10,\"y\":20,\"w\":34,\"h\":44},\
\"dir\":{\"up\":false,\"down\":false,\"left\":false,\"right\":false},\
\"last_dir\":{\"up\":false,\"down\":false,\"left\":false,\"right\":false},\
\"ate\":null,\"name\":\"Fred\",\"hp\":100,\"mp\":30,\"str\":10,\
\"current_accel\":4,\"jumping\":false,\"jump_offset\":0,\"jump_direction\":true}";
    assert_eq!(String::from_utf8(bytes).unwrap(), expected);
}

#[test]
fn player_round_trip_plain() {
    let p = still(10, 20, 34, 44, "Fred");
    let bytes = encode_player_bytes(&p);
    assert_eq!(parse_player_full(&bytes), Some(p));
}

#[test]
fn player_round_trip_extremes_and_potion() {
    let mut p = still(i64::MIN, i64::MAX, -1, 0, "Zed");
    p.ate = Some(Potion {
        pos: Position { x: 7, y: -8, w: 42, h: 42 },
        potion_type: PotionType::Mana,
    });
    p.dir = Direction { up: true, down: false, left: true, right: false };
    p.last_dir = Direction { up: false, down: true, left: false, right: true };
    p.jumping = true;
    p.jump_offset = 3;
    p.jump_direction = false;
    p.current_accel = -10;
    let bytes = encode_player_bytes(&p);
    assert_eq!(parse_player_full(&bytes), Some(p));
}

#[test]
fn player_round_trip_escaped_name() {
    let mut p = still(1, 2, 3, 4, "");
    p.name = b("a\"b\\c");
    let bytes = encode_player_bytes(&p);
    let text = String::from_utf8(bytes.clone()).unwrap();
    assert!(text.contains("\"name\":\"a\\\"b\\\\c\""));
    assert_eq!(parse_player_full(&bytes), Some(p));
}

#[test]
fn player_rejects_trailing_bytes() {
    let p = still(1, 2, 3, 4, "Ann");
    let mut bytes = encode_player_bytes(&p);
    bytes.push(b' ');
    assert_eq!(parse_player_full(&bytes), None);
}

#[test]
fn game_round_trip_with_two_players() {
    let g = NetworkedGame {
        players: vec![still(0, 0, 340, 440, "Fred"), still(9, 9, 340, 440, "Mary")],
        session_id: b("abc-123"),
        started: true,
        completed: false,
    };
    let bytes = encode_game_bytes(&g);
    assert_eq!(parse_game_full(&bytes), Some(g));
}

#[test]
fn game_round_trip_empty_roster() {
    let g = NetworkedGame {
        players: vec![],
        session_id: b("s"),
        started: false,
        completed: false,
    };
    let bytes = encode_game_bytes(&g);
    let text = String::from_utf8(bytes.clone()).unwrap();
    assert_eq!(
        text,
        "{\"players\":[],\"session_id\":\"s\",\"started\":false,\"completed\":false}"
    );
    assert_eq!(parse_game_full(&bytes), Some(g));
}

#[test]
fn request_encodes_to_exact_json() {
    let req = RequestWire {
        command: b("getworld"),
        game_id: b("g1"),
        meta: b(""),
        name: b("Fred"),
    };
    let bytes = encode_request_bytes(&req);
    assert_eq!(
        String::from_utf8(bytes).unwrap(),
        "{\"command\":\"getworld\",\"game_id\":\"g1\",\"meta\":\"\",\"name\":\"Fred\"}"
    );
}

#[test]
fn request_round_trip_with_nested_meta() {
    let p = still(10, 20, 34, 44, "Fred");
    let req = RequestWire {
        command: b("sendposition"),
        game_id: b("g1"),
        meta: encode_player_bytes(&p),
        name: b("Fred"),
    };
    let bytes = encode_request_bytes(&req);
    let back = parse_request_full(&bytes).unwrap();
    assert_eq!(back, req);
    assert_eq!(parse_player_full(&back.meta), Some(p));
}

#[test]
fn request_rejects_malformed_buffers() {
    assert_eq!(parse_request_full(&b("")), None);
    assert_eq!(parse_request_full(&b("{}")), None);
    assert_eq!(parse_request_full(&b("{\"command\":\"x\"}")), None);
    assert_eq!(parse_request_full(&b("not json at all")), None);
}

#[test]
fn integers_parse_canonically() {
    let cases: Vec<(&str, Option<(i64, usize)>)> = vec![
        ("0", Some((0, 1))),
        ("7", Some((7, 1))),
        ("-1", Some((-1, 2))),
        ("9223372036854775807", Some((i64::MAX, 19))),
        ("-9223372036854775808", Some((i64::MIN, 20))),
        ("9223372036854775808", None),
        ("-9223372036854775809", None),
        ("01", None),
        ("-0", None),
        ("", None),
        ("-", None),
        ("x", None),
    ];
    for (text, want) in cases {
        let v = b(text);
        assert_eq!(parse_i64(&v, 0), want, "case {}", text);
    }
    let v = b("12,");
    assert_eq!(parse_i64(&v, 0), Some((12, 2)));
}

#[test]
fn position_codec_round_trip() {
    let pos = Position { x: -5, y: 0, w: 34, h: 44 };
    let mut buf: Vec<u8> = Vec::new();
    encode_position(&mut buf, &pos);
    assert_eq!(String::from_utf8(buf.clone()).unwrap(), "{\"x\":-5,\"y\":0,\"w\":34,\"h\":44}");
    let (back, used) = parse_position(&buf, 0).unwrap();
    assert_eq!(back, pos);
    assert_eq!(used, buf.len());
}

#[test]
fn player_parse_rejects_field_order_changes() {
    let text = "{\"dir\":{\"up\":false,\"down\":false,\"left\":false,\"right\":false},\
\"body\":{\"x\":1,\"y\":2,\"w\":3,\"h\":4},\
\"last_dir\":{\"up\":false,\"down\":false,\"left\":false,\"right\":false},\
\"ate\":null,\"name\":\"A\",\"hp\":1,\"mp\":1,\"str\":1,\
\"current_accel\":1,\"jumping\":false,\"jump_offset\":0,\"jump_direction\":true}";
    let v = b(text);
    assert_eq!(parse_player(&v, 0), None);
}

#[test]
fn game_id_reply_parses() {
    let v = b("{\"game_id\":\"abc-def\"}");
    assert_eq!(parse_game_id_reply(&v), Some(b("abc-def")));
    assert_eq!(parse_game_id_reply(&b("{\"game_id\":\"abc\"} ")), None);
    assert_eq!(parse_game_id_reply(&b("{\"error\":\"Invalid Command\"}")), None);
}
