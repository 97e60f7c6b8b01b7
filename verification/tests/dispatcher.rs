//! End-to-end scenarios against the server: session creation, joining,
//! capacity, state pulls and error replies.

use item_wars::model::{Direction, Player, Position};
use item_wars::server::GameServer;
use item_wars::wire::{
    encode_player_bytes, encode_request_bytes, parse_game_full, parse_game_id_reply,
    RequestWire, Response,
};
use item_wars::client::{get_world_request, join_game_request, send_position_request};

fn b(s: &str) -> Vec<u8> {
    s.as_bytes().to_vec()
}

fn req(command: &str, game_id: &[u8], name: &str, meta: Vec<u8>) -> RequestWire {
    RequestWire {
        command: b(command),
        game_id: game_id.to_vec(),
        meta,
        name: b(name),
    }
}

fn new_game_id(server: &mut GameServer) -> Vec<u8> {
    match server.handle_request(&req("newgame", b"", "", Vec::new())) {
        Response::GameId(id) => id,
        other => panic!("newgame answered {:?}", other),
    }
}

#[test]
fn newgame_yields_fresh_ids_and_lists_them_empty() {
    let mut server = GameServer::new(b("localhost"));
    let id1 = new_game_id(&mut server);
    let id2 = new_game_id(&mut server);
    assert_ne!(id1, id2);
    assert_eq!(id1.len(), 36);
    match server.handle_request(&req("listgames", b"", "", Vec::new())) {
        Response::Games(list) => {
            assert_eq!(list.len(), 2);
            assert_eq!(list[0], (id1.clone(), 0));
            assert_eq!(list[1], (id2.clone(), 0));
        },
        other => panic!("listgames answered {:?}", other),
    }
}

#[test]
fn two_joins_start_the_game_and_unlist_it() {
    let mut server = GameServer::new(b("h"));
    let id = new_game_id(&mut server);
    let r1 = server.handle_request(&req("joingame", &id, "Fred", Vec::new()));
    assert_eq!(
        r1,
        Response::Joined { game_id: id.clone(), started: false, count: 1 }
    );
    let enc1 = String::from_utf8(item_wars::wire::encode_response(&r1)).unwrap();
    let id_text = String::from_utf8(id.clone()).unwrap();
    assert_eq!(
        enc1,
        format!("{{\"info\":\"joined not started game {} with 1 players\"}}", id_text)
    );
    let r2 = server.handle_request(&req("joingame", &id, "Mary", Vec::new()));
    assert_eq!(
        r2,
        Response::Joined { game_id: id.clone(), started: true, count: 2 }
    );
    let enc2 = String::from_utf8(item_wars::wire::encode_response(&r2)).unwrap();
    assert_eq!(
        enc2,
        format!("{{\"info\":\"joined started game {} with 2 players\"}}", id_text)
    );
    match server.handle_request(&req("listgames", b"", "", Vec::new())) {
        Response::Games(list) => assert!(list.iter().all(|e| e.0 != id)),
        other => panic!("listgames answered {:?}", other),
    }
}

#[test]
fn third_join_is_rejected_and_count_stays_two() {
    let mut server = GameServer::new(b("h"));
    let id = new_game_id(&mut server);
    server.handle_request(&req("joingame", &id, "Fred", Vec::new()));
    server.handle_request(&req("joingame", &id, "Mary", Vec::new()));
    let r3 = server.handle_request(&req("joingame", &id, "Late", Vec::new()));
    assert_eq!(r3, Response::ErrorGameFull(id.clone()));
    let enc = String::from_utf8(item_wars::wire::encode_response(&r3)).unwrap();
    let id_text = String::from_utf8(id.clone()).unwrap();
    assert_eq!(enc, format!("{{\"error\":\"game {} is full\"}}", id_text));
    match server.handle_request(&req("gameinfo", &id, "", Vec::new())) {
        Response::GameSummary { game_id, count } => {
            assert_eq!(game_id, id);
            assert_eq!(count, 2);
        },
        other => panic!("gameinfo answered {:?}", other),
    }
}

#[test]
fn sendposition_updates_fred_and_getworld_reports_it() {
    let mut server = GameServer::new(b("h"));
    let id = new_game_id(&mut server);
    let join = join_game_request(&id, &b("Fred"));
    assert!(server.handle_packet(&join).is_some());
    let join2 = join_game_request(&id, &b("Mary"));
    assert!(server.handle_packet(&join2).is_some());

    let mut fred = Player::new(b("Fred"), Position { x: 10, y: 20, w: 34, h: 44 });
    fred.dir = Direction { up: false, down: false, left: false, right: true };
    let push = send_position_request(&id, &fred);
    let reply = server.handle_packet(&push).expect("sendposition got no reply");
    let world = parse_game_full(&reply).expect("sendposition reply is not a session");
    assert_eq!(world.session_id, id);

    let pull = get_world_request(&id, &b("Mary"));
    let reply2 = server.handle_packet(&pull).expect("getworld got no reply");
    let world2 = parse_game_full(&reply2).expect("getworld reply is not a session");
    let entry = world2.players.iter().find(|p| p.name == b("Fred")).unwrap();
    assert_eq!(entry.body, Position { x: 10, y: 20, w: 34, h: 44 });
    assert_eq!(entry, &fred);
    assert_eq!(world2.players.len(), 2);
}

#[test]
fn lookups_on_unknown_ids_fail_without_mutation() {
    let mut server = GameServer::new(b("h"));
    let id = new_game_id(&mut server);
    server.handle_request(&req("joingame", &id, "Fred", Vec::new()));
    for command in ["gameinfo", "getworld", "sendposition", "joingame"] {
        let meta = if command == "sendposition" {
            encode_player_bytes(&Player::new(b("X"), Position { x: 0, y: 0, w: 1, h: 1 }))
        } else {
            Vec::new()
        };
        let r = server.handle_request(&req(command, b"no-such-id", "X", meta));
        assert_eq!(r, Response::ErrorInvalidGame(b("no-such-id")), "command {}", command);
    }
    assert_eq!(server.games.len(), 1);
    assert_eq!(server.games[0].players.len(), 1);
    let r = server.handle_request(&req("gameinfo", b"fabricated-id", "", Vec::new()));
    let enc = String::from_utf8(item_wars::wire::encode_response(&r)).unwrap();
    assert_eq!(enc, "{\"error\":\"Invalid Game fabricated-id\"}");
}

#[test]
fn sendposition_with_absent_name_is_a_no_op() {
    let mut server = GameServer::new(b("h"));
    let id = new_game_id(&mut server);
    server.handle_request(&req("joingame", &id, "Fred", Vec::new()));
    let before = server.games[0].clone();
    let ghostly = Player::new(b("Nobody"), Position { x: 1, y: 2, w: 3, h: 4 });
    let meta = encode_player_bytes(&ghostly);
    let r = server.handle_request(&req("sendposition", &id, "Nobody", meta));
    match r {
        Response::World(world) => assert_eq!(world, before),
        other => panic!("sendposition answered {:?}", other),
    }
    assert_eq!(server.games[0], before);
}

#[test]
fn unknown_commands_and_bad_meta_are_invalid() {
    let mut server = GameServer::new(b("h"));
    let id = new_game_id(&mut server);
    server.handle_request(&req("joingame", &id, "Fred", Vec::new()));
    let r = server.handle_request(&req("frobnicate", &id, "", Vec::new()));
    assert_eq!(r, Response::ErrorInvalidCommand);
    let enc = String::from_utf8(item_wars::wire::encode_response(&r)).unwrap();
    assert_eq!(enc, "{\"error\":\"Invalid Command\"}");
    let r2 = server.handle_request(&req("sendposition", &id, "Fred", b("not a player")));
    assert_eq!(r2, Response::ErrorInvalidCommand);
}

#[test]
fn malformed_packets_are_dropped() {
    let mut server = GameServer::new(b("h"));
    let id = new_game_id(&mut server);
    assert_eq!(server.handle_packet(&b("{{{{")), None);
    assert_eq!(server.handle_packet(&b("")), None);
    assert_eq!(server.handle_packet(&b("{\"command\":\"newgame\"}")), None);
    assert_eq!(server.games.len(), 1);
    assert_eq!(server.games[0].session_id, id);
}

#[test]
fn newgame_packet_round_trip_yields_listed_id() {
    let mut server = GameServer::new(b("h"));
    let newgame = RequestWire { command: b("newgame"), game_id: b(""), meta: b(""), name: b("") };
    let raw = encode_request_bytes(&newgame);
    let reply = server.handle_packet(&raw).expect("newgame got no reply");
    let id = parse_game_id_reply(&reply).expect("newgame reply is not a game_id object");
    assert_eq!(id.len(), 36);
    match server.handle_request(&req("listgames", b"", "", Vec::new())) {
        Response::Games(list) => assert_eq!(list, vec![(id, 0)]),
        other => panic!("listgames answered {:?}", other),
    }
}

#[test]
fn listgames_and_gameinfo_encode_as_documented() {
    let mut server = GameServer::new(b("h"));
    let id = new_game_id(&mut server);
    let id_text = String::from_utf8(id.clone()).unwrap();
    let r = server.handle_request(&req("listgames", b"", "", Vec::new()));
    let enc = String::from_utf8(item_wars::wire::encode_response(&r)).unwrap();
    assert_eq!(enc, format!("{{\"games\":[[\"{}\",\"0\"]]}}", id_text));
    let r2 = server.handle_request(&req("gameinfo", &id, "", Vec::new()));
    let enc2 = String::from_utf8(item_wars::wire::encode_response(&r2)).unwrap();
    assert_eq!(enc2, format!("{{\"game\":[\"{}\",\"0\"]}}", id_text));
    server.handle_request(&req("joingame", &id, "Fred", Vec::new()));
    let r3 = server.handle_request(&req("listgames", b"", "", Vec::new()));
    let enc3 = String::from_utf8(item_wars::wire::encode_response(&r3)).unwrap();
    assert_eq!(enc3, format!("{{\"games\":[[\"{}\",\"1\"]]}}", id_text));
}
