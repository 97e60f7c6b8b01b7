//! Local simulation and client synchronization behavior.

use item_wars::model::{
    Direction, NetworkedGame, Player, Position, Potion, PotionType, MAX_PLAYERS,
    PLAYER_STARTING_ACCEL, SCREEN_HEIGHT, SCREEN_WIDTH,
};
use item_wars::physics::overlaps;
use item_wars::client::{spawn_potion, GameState};

fn b(s: &str) -> Vec<u8> {
    s.as_bytes().to_vec()
}

fn spawned(name: &str, x: i64, y: i64) -> Player {
    Player::new(b(name), Position { x, y, w: 340, h: 440 })
}

#[test]
fn spawned_player_has_documented_defaults() {
    let p = spawned("Fred", 1000, 1000);
    assert_eq!(p.hp, 100);
    assert_eq!(p.mp, 30);
    assert_eq!(p.str, 10);
    assert_eq!(p.current_accel, PLAYER_STARTING_ACCEL);
    assert_eq!(p.dir, Direction::default());
    assert_eq!(p.last_dir, Direction::default());
    assert_eq!(p.ate, None);
    assert!(!p.jumping);
    assert_eq!(p.jump_offset, 0);
    assert!(p.jump_direction);
    assert_eq!(p.duplicate(), p);
}

#[test]
fn moving_right_accelerates_toward_the_cap() {
    let mut p = spawned("Fred", 1000, 1000);
    p.dir.right = true;
    p.update();
    assert_eq!(p.current_accel, 6);
    assert_eq!(p.body.x, 1036);
    assert_eq!(p.body.y, 1000);
    assert!(p.last_dir.right);
    assert!(!p.last_dir.left && !p.last_dir.up && !p.last_dir.down);
    for _ in 0..40 {
        p.update();
    }
    assert_eq!(p.current_accel, 50);
}

#[test]
fn releasing_input_decelerates_with_friction() {
    let mut p = spawned("Fred", 1000, 1000);
    p.dir.right = true;
    p.update();
    p.update();
    p.dir.right = false;
    let x_before = p.body.x;
    p.update();
    assert!(p.body.x > x_before, "drift continues along last_dir");
    assert_eq!(p.current_accel, -2);
    let x_drifted = p.body.x;
    p.update();
    assert_eq!(p.body.x, x_drifted, "no more drift once acceleration is spent");
}

#[test]
fn movement_respects_screen_bounds() {
    let mut p = spawned("Fred", 0, 1000);
    p.dir.left = true;
    p.update();
    assert_eq!(p.body.x, 0, "no movement past the left edge");
    let mut q = spawned("Mary", 1000, 440);
    q.dir.up = true;
    q.update();
    assert_eq!(q.body.y, 440, "no movement past the top band");
}

#[test]
fn jump_runs_one_triangular_cycle() {
    let mut p = spawned("Fred", 1000, 1000);
    p.jumping = true;
    let mut offsets: Vec<i64> = Vec::new();
    for _ in 0..12 {
        p.update();
        offsets.push(p.jump_offset);
    }
    assert_eq!(offsets, vec![1, 2, 3, 4, 5, 5, 4, 3, 2, 1, 0, 0]);
    assert!(!p.jumping);
    assert!(p.jump_direction);
}

#[test]
fn overlap_is_checked_on_closed_edges() {
    let a = Position { x: 0, y: 0, w: 10, h: 10 };
    let touching = Position { x: 10, y: 10, w: 5, h: 5 };
    let apart = Position { x: 11, y: 0, w: 5, h: 5 };
    assert!(overlaps(&a, &touching));
    assert!(!overlaps(&a, &apart));
    let p = spawned("Fred", 0, 0);
    let near = Potion { pos: Position { x: 5, y: 5, w: 42, h: 42 }, potion_type: PotionType::Mana };
    assert!(p.eats(&near));
}

#[test]
fn animation_row_prefers_held_input_over_frozen_direction() {
    let mut p = spawned("Fred", 0, 0);
    assert_eq!(p.get_animation_direction(), 0);
    p.last_dir.left = true;
    assert_eq!(p.get_animation_direction(), 2);
    p.dir.up = true;
    assert_eq!(p.get_animation_direction(), 1);
}

#[test]
fn potions_spawn_inside_the_screen() {
    for _ in 0..32 {
        let potion = spawn_potion();
        assert!(0 <= potion.pos.x && potion.pos.x < SCREEN_WIDTH);
        assert!(0 <= potion.pos.y && potion.pos.y < SCREEN_HEIGHT);
        assert_eq!(potion.potion_type, PotionType::Health);
    }
}

#[test]
fn session_ids_are_long_and_fresh() {
    let g1 = NetworkedGame::new();
    let g2 = NetworkedGame::new();
    assert_eq!(g1.session_id.len(), 36);
    assert_ne!(g1.session_id, g2.session_id);
    assert!(g1.players.is_empty());
    assert!(!g1.started);
    assert!(!g1.completed);
    assert!(g1.players.len() <= MAX_PLAYERS);
}

fn world_with(players: Vec<Player>, started: bool) -> NetworkedGame {
    NetworkedGame { players, session_id: b("game-1"), started, completed: false }
}

#[test]
fn pregame_poll_waits_for_the_start_flag() {
    let mut st = GameState::new(b("Fred"), b("localhost"), b("game-1"));
    let waiting = world_with(vec![spawned("Fred", 0, 0)], false);
    st.pregame_poll(&waiting);
    assert!(!st.started);
    let mut remote = spawned("Mary", 50, 60);
    remote.jumping = true;
    let running = world_with(vec![spawned("Fred", 0, 0), remote], true);
    st.pregame_poll(&running);
    assert!(st.started);
    assert_eq!(st.opponent.name, b("Mary"));
    assert_eq!(st.opponent.body, Position { x: 50, y: 60, w: 340, h: 440 });
    assert!(st.opponent.jumping);
    assert_eq!(st.opponent.hp, 100, "vitals are not synchronized");
}

#[test]
fn net_tick_syncs_the_first_differing_name_and_advances_it() {
    let mut st = GameState::new(b("Fred"), b("localhost"), b("game-1"));
    let mut remote = spawned("Mary", 50, 60);
    remote.dir.right = true;
    let world = world_with(vec![spawned("Fred", 0, 0), remote], true);
    st.net_tick(&world);
    assert_eq!(st.opponent.name, b("Mary"));
    assert_eq!(st.opponent.body.x, 50 + 30 + 6, "one local tick was applied to the pull");
    let alone = world_with(vec![spawned("Fred", 0, 0)], true);
    let before = st.opponent.clone();
    st.net_tick(&alone);
    assert_eq!(st.opponent, before, "nothing to mirror, nothing changes");
}

#[test]
fn local_tick_moves_only_the_local_player() {
    let mut st = GameState::new(b("Fred"), b("localhost"), b("game-1"));
    st.player.dir.down = true;
    let opponent_before = st.opponent.clone();
    st.local_tick();
    assert_eq!(st.player.body.y, 1036);
    assert_eq!(st.opponent, opponent_before);
}
