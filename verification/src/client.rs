//! Client-side session state and its synchronization steps.
//!
//! The client runs on two cadences: a local render/physics tick and a
//! network tick that pushes the local player and pulls the remote session.
//! Wall-clock timing and the datagram round trips belong to the caller;
//! the state transitions here are pure and fully specified.

use vstd::prelude::*;
use crate::model::{
    GameView, NetworkedGame, Player, PlayerView, Position, PositionView, Potion, PotionType,
    PotionView, copy_bytes, player_spawn, POTION_HEIGHT, POTION_WIDTH, PLAYER_CELL_HEIGHT,
    PLAYER_CELL_WIDTH, SCREEN_HEIGHT, SCREEN_WIDTH,
};
use crate::physics::{accel_in_range, update_spec};
use crate::codec::{
    c_getworld, c_getworld_vec, c_joingame, c_joingame_vec, c_listgames, c_listgames_vec,
    c_newgame, c_newgame_vec, c_sendposition, c_sendposition_vec, enc_player,
};
use crate::wire::{
    enc_request, encode_player_bytes, encode_request_bytes, RequestWire, RequestWireView,
};

verus! {

/// Relies on `rand::random_range` over `lo..hi`: a uniformly drawn value
/// within the given half-open range, which must not be empty.
#[verifier::external_body]
fn random_in_range(lo: i64, hi: i64) -> (r: i64)
    requires
        lo < hi,
    ensures
        lo <= r < hi,
{
    rand::random_range(lo..hi)
}

/// Spawns a health potion at a random spot within the screen bounds.
pub fn spawn_potion() -> (p: Potion)
    ensures
        0 <= p@.pos.x < SCREEN_WIDTH as int,
        0 <= p@.pos.y < SCREEN_HEIGHT as int,
        p@.pos.w == POTION_WIDTH as int,
        p@.pos.h == POTION_HEIGHT as int,
        p@.potion_type == PotionType::Health,
{
    let x = random_in_range(0, SCREEN_WIDTH);
    let y = random_in_range(0, SCREEN_HEIGHT);
    Potion::new(Position { x, y, w: POTION_WIDTH, h: POTION_HEIGHT }, PotionType::Health)
}

/// One client's in-game state: the locally authored player, the last
/// pulled copy of the opponent, the local pickup, and the session handle.
pub struct GameState {
    pub player: Player,
    pub opponent: Player,
    pub food: Potion,
    pub server: Vec<u8>,
    pub game_id: Vec<u8>,
    pub started: bool,
    pub gameover: bool,
}

/// Mathematical view of a [`GameState`].
#[verifier::ext_equal]
pub struct GameStateView {
    pub player: PlayerView,
    pub opponent: PlayerView,
    pub food: PotionView,
    pub server: Seq<u8>,
    pub game_id: Seq<u8>,
    pub started: bool,
    pub gameover: bool,
}

impl View for GameState {
    type V = GameStateView;

    open spec fn view(&self) -> GameStateView {
        GameStateView {
            player: self.player@,
            opponent: self.opponent@,
            food: self.food@,
            server: self.server@,
            game_id: self.game_id@,
            started: self.started,
            gameover: self.gameover,
        }
    }
}

/// Both players' acceleration scalars are in simulation range.
pub open spec fn state_wf(st: GameStateView) -> bool {
    accel_in_range(st.player.current_accel) && accel_in_range(st.opponent.current_accel)
}

/// The index of the first participant whose name differs from `my_name`,
/// or `-1`: how the client picks the opponent out of a pulled session.
pub open spec fn opponent_index(ps: Seq<PlayerView>, my_name: Seq<u8>) -> int
    decreases ps.len(),
{
    if ps.len() == 0 {
        -1
    } else if ps[0].name != my_name {
        0
    } else {
        let r = opponent_index(ps.skip(1), my_name);
        if r == -1 {
            -1
        } else {
            r + 1
        }
    }
}

/// What [`opponent_index`] finds.
pub proof fn lemma_opponent_index(ps: Seq<PlayerView>, my_name: Seq<u8>)
    ensures
        opponent_index(ps, my_name) == -1 || (0 <= opponent_index(ps, my_name) < ps.len()
            && ps[opponent_index(ps, my_name)].name != my_name),
        opponent_index(ps, my_name) == -1 ==> forall|i: int|
            0 <= i < ps.len() ==> (#[trigger] ps[i]).name == my_name,
        opponent_index(ps, my_name) >= 0 ==> forall|i: int|
            0 <= i < opponent_index(ps, my_name) ==> (#[trigger] ps[i]).name == my_name,
    decreases ps.len(),
{
    if ps.len() == 0 {
    } else if ps[0].name != my_name {
    } else {
        lemma_opponent_index(ps.skip(1), my_name);
        assert(forall|i: int| 1 <= i < ps.len() ==> (#[trigger] ps[i]) == ps.skip(1)[i - 1]);
    }
}

/// The first differing index is determined by the players before it.
pub proof fn lemma_opponent_index_is_first(ps: Seq<PlayerView>, my_name: Seq<u8>, i: int)
    requires
        0 <= i < ps.len(),
        ps[i].name != my_name,
        forall|k: int| 0 <= k < i ==> (#[trigger] ps[k]).name == my_name,
    ensures
        opponent_index(ps, my_name) == i,
    decreases i,
{
    if i == 0 {
    } else {
        assert(ps.skip(1)[i - 1] == ps[i]);
        assert(forall|k: int| 0 <= k < i - 1 ==> (#[trigger] ps.skip(1)[k]) == ps[k + 1]);
        lemma_opponent_index_is_first(ps.skip(1), my_name, i - 1);
    }
}

/// The local opponent record after one pull: name, hitbox, both direction
/// records and the jump flag come from the first remote participant whose
/// name differs; vitals and animation state are not synchronized. With no
/// such participant the record is unchanged.
pub open spec fn sync_opponent_spec(
    opp: PlayerView,
    world: GameView,
    my_name: Seq<u8>,
) -> PlayerView {
    let i = opponent_index(world.players, my_name);
    if i == -1 {
        opp
    } else {
        PlayerView {
            name: world.players[i].name,
            body: world.players[i].body,
            dir: world.players[i].dir,
            last_dir: world.players[i].last_dir,
            jumping: world.players[i].jumping,
            ..opp
        }
    }
}

/// The client state after a pre-game poll: nothing changes until the
/// pulled session reports it has started; then the opponent is hydrated
/// and the client switches to running.
pub open spec fn pregame_spec(st: GameStateView, world: GameView) -> GameStateView {
    if world.started {
        GameStateView {
            opponent: sync_opponent_spec(st.opponent, world, st.player.name),
            started: true,
            ..st
        }
    } else {
        st
    }
}

/// The client state after one local render/physics tick.
pub open spec fn local_tick_spec(st: GameStateView) -> GameStateView {
    GameStateView { player: update_spec(st.player), ..st }
}

/// The client state after one network tick's pull: the opponent is
/// overwritten from the session and advanced one tick; with no remote
/// participant to mirror, nothing changes.
pub open spec fn net_tick_spec(st: GameStateView, world: GameView) -> GameStateView {
    let i = opponent_index(world.players, st.player.name);
    if i == -1 {
        st
    } else {
        GameStateView {
            opponent: update_spec(sync_opponent_spec(st.opponent, world, st.player.name)),
            ..st
        }
    }
}

impl GameState {
    /// A fresh client state for the given session: both player records
    /// spawn under the local name, and a potion lands somewhere on screen.
    pub fn new(player_name: Vec<u8>, host: Vec<u8>, game_id: Vec<u8>) -> (s: GameState)
        ensures
            s@.player == player_spawn(
                player_name@,
                PositionView {
                    x: 1000,
                    y: 1000,
                    w: PLAYER_CELL_WIDTH as int,
                    h: PLAYER_CELL_HEIGHT as int,
                },
            ),
            s@.opponent == s@.player,
            s@.server == host@,
            s@.game_id == game_id@,
            !s@.started,
            !s@.gameover,
            0 <= s@.food.pos.x < SCREEN_WIDTH as int,
            0 <= s@.food.pos.y < SCREEN_HEIGHT as int,
            s@.food.potion_type == PotionType::Health,
            state_wf(s@),
    {
        let pos = Position { x: 1000, y: 1000, w: PLAYER_CELL_WIDTH, h: PLAYER_CELL_HEIGHT };
        let player = Player::new(copy_bytes(&player_name), pos);
        let opponent = Player::new(player_name, pos);
        let food = spawn_potion();
        GameState {
            player,
            opponent,
            food,
            server: host,
            game_id,
            started: false,
            gameover: false,
        }
    }

    /// Overwrites the local opponent from a pulled session, as
    /// [`sync_opponent_spec`] describes.
    pub fn sync_opponent(&mut self, world: &NetworkedGame)
        ensures
            final(self)@ == (GameStateView {
                opponent: sync_opponent_spec(
                    old(self)@.opponent,
                    world@,
                    old(self)@.player.name,
                ),
                ..old(self)@
            }),
    {
        let ghost vw = world@;
        let ghost myname = self.player.name@;
        let mut k: usize = 0;
        let n = world.players.len();
        while k < n
            invariant
                k <= n,
                n == world.players.len(),
                vw == world@,
                myname == self@.player.name,
                *self == *old(self),
                forall|t: int| 0 <= t < k ==> (#[trigger] vw.players[t]).name == myname,
            decreases n - k,
        {
            if !crate::server::bytes_eq(&world.players[k].name, &self.player.name) {
                proof {
                    assert(vw.players[k as int] == world.players@[k as int]@);
                    lemma_opponent_index_is_first(vw.players, myname, k as int);
                }
                let remote = &world.players[k];
                self.opponent.name = copy_bytes(&remote.name);
                self.opponent.body = remote.body;
                self.opponent.dir = remote.dir;
                self.opponent.last_dir = remote.last_dir;
                self.opponent.jumping = remote.jumping;
                proof {
                    assert(self@ =~= (GameStateView {
                        opponent: sync_opponent_spec(old(self)@.opponent, vw, myname),
                        ..old(self)@
                    }));
                }
                return ;
            }
            proof {
                assert(vw.players[k as int] == world.players@[k as int]@);
            }
            k = k + 1;
        }
        proof {
            lemma_opponent_index(vw.players, myname);
            if opponent_index(vw.players, myname) >= 0 {
                assert(vw.players[opponent_index(vw.players, myname)].name != myname);
            }
            assert(self@ =~= (GameStateView {
                opponent: sync_opponent_spec(old(self)@.opponent, vw, myname),
                ..old(self)@
            }));
        }
    }

    /// One pre-game poll against a pulled session, as [`pregame_spec`]
    /// describes.
    pub fn pregame_poll(&mut self, world: &NetworkedGame)
        requires
            state_wf(old(self)@),
        ensures
            final(self)@ == pregame_spec(old(self)@, world@),
            state_wf(final(self)@),
    {
        if world.started {
            self.sync_opponent(world);
            self.started = true;
            proof {
                assert(self@ =~= pregame_spec(old(self)@, world@));
            }
        } else {
            proof {
                assert(self@ =~= pregame_spec(old(self)@, world@));
            }
        }
    }

    /// One local render/physics tick, as [`local_tick_spec`] describes.
    pub fn local_tick(&mut self)
        requires
            state_wf(old(self)@),
        ensures
            final(self)@ == local_tick_spec(old(self)@),
            state_wf(final(self)@),
    {
        self.player.update();
        proof {
            assert(self@ =~= local_tick_spec(old(self)@));
        }
    }

    /// One network tick against a pulled session, as [`net_tick_spec`]
    /// describes.
    pub fn net_tick(&mut self, world: &NetworkedGame)
        requires
            state_wf(old(self)@),
        ensures
            final(self)@ == net_tick_spec(old(self)@, world@),
            state_wf(final(self)@),
    {
        let ghost st0 = self@;
        let mut k: usize = 0;
        let n = world.players.len();
        let mut found = false;
        while k < n && !found
            invariant
                k <= n,
                n == world.players.len(),
                *self == *old(self),
                !found ==> forall|t: int|
                    0 <= t < k ==> (#[trigger] world@.players[t]).name == st0.player.name,
                found ==> k > 0 && k - 1 == opponent_index(world@.players, st0.player.name),
                st0 == self@,
            decreases n - k + (if found { 0int } else { 1int }),
        {
            if !crate::server::bytes_eq(&world.players[k].name, &self.player.name) {
                proof {
                    assert(world@.players[k as int] == world.players@[k as int]@);
                    lemma_opponent_index_is_first(world@.players, st0.player.name, k as int);
                }
                found = true;
            } else {
                proof {
                    assert(world@.players[k as int] == world.players@[k as int]@);
                }
            }
            k = k + 1;
        }
        if found {
            self.sync_opponent(world);
            self.opponent.update();
            proof {
                assert(self@ =~= net_tick_spec(st0, world@));
            }
        } else {
            proof {
                lemma_opponent_index(world@.players, st0.player.name);
                if opponent_index(world@.players, st0.player.name) >= 0 {
                    assert(world@.players[opponent_index(world@.players, st0.player.name)].name
                        != st0.player.name);
                }
                assert(self@ =~= net_tick_spec(st0, world@));
            }
        }
    }
}

/// The request a client sends to join a session under a player name.
pub fn join_game_request(game_id: &Vec<u8>, player: &Vec<u8>) -> (r: Vec<u8>)
    ensures
        r@ == enc_request(
            RequestWireView {
                command: c_joingame(),
                game_id: game_id@,
                meta: Seq::empty(),
                name: player@,
            },
        ),
{
    let req = RequestWire {
        command: c_joingame_vec(),
        game_id: copy_bytes(game_id),
        meta: Vec::new(),
        name: copy_bytes(player),
    };
    proof {
        assert(req@ =~= (RequestWireView {
            command: c_joingame(),
            game_id: game_id@,
            meta: Seq::empty(),
            name: player@,
        }));
    }
    encode_request_bytes(&req)
}

/// The request a client sends to pull the whole session.
pub fn get_world_request(game_id: &Vec<u8>, player: &Vec<u8>) -> (r: Vec<u8>)
    ensures
        r@ == enc_request(
            RequestWireView {
                command: c_getworld(),
                game_id: game_id@,
                meta: Seq::empty(),
                name: player@,
            },
        ),
{
    let req = RequestWire {
        command: c_getworld_vec(),
        game_id: copy_bytes(game_id),
        meta: Vec::new(),
        name: copy_bytes(player),
    };
    proof {
        assert(req@ =~= (RequestWireView {
            command: c_getworld(),
            game_id: game_id@,
            meta: Seq::empty(),
            name: player@,
        }));
    }
    encode_request_bytes(&req)
}

/// The request a client sends to push its own record: the record rides
/// in the `meta` field as an encoded player.
pub fn send_position_request(game_id: &Vec<u8>, player: &Player) -> (r: Vec<u8>)
    ensures
        r@ == enc_request(
            RequestWireView {
                command: c_sendposition(),
                game_id: game_id@,
                meta: enc_player(player@),
                name: player@.name,
            },
        ),
{
    let meta = encode_player_bytes(player);
    let req = RequestWire {
        command: c_sendposition_vec(),
        game_id: copy_bytes(game_id),
        meta,
        name: copy_bytes(&player.name),
    };
    proof {
        assert(req@ =~= (RequestWireView {
            command: c_sendposition(),
            game_id: game_id@,
            meta: enc_player(player@),
            name: player@.name,
        }));
    }
    encode_request_bytes(&req)
}

/// The request an operator sends to create a session.
pub fn new_game_request() -> (r: Vec<u8>)
    ensures
        r@ == enc_request(
            RequestWireView {
                command: c_newgame(),
                game_id: Seq::empty(),
                meta: Seq::empty(),
                name: Seq::empty(),
            },
        ),
{
    let req = RequestWire {
        command: c_newgame_vec(),
        game_id: Vec::new(),
        meta: Vec::new(),
        name: Vec::new(),
    };
    proof {
        assert(req@ =~= (RequestWireView {
            command: c_newgame(),
            game_id: Seq::empty(),
            meta: Seq::empty(),
            name: Seq::empty(),
        }));
    }
    encode_request_bytes(&req)
}

/// The request an operator sends to list the open sessions.
pub fn list_games_request() -> (r: Vec<u8>)
    ensures
        r@ == enc_request(
            RequestWireView {
                command: c_listgames(),
                game_id: Seq::empty(),
                meta: Seq::empty(),
                name: Seq::empty(),
            },
        ),
{
    let req = RequestWire {
        command: c_listgames_vec(),
        game_id: Vec::new(),
        meta: Vec::new(),
        name: Vec::new(),
    };
    proof {
        assert(req@ =~= (RequestWireView {
            command: c_listgames(),
            game_id: Seq::empty(),
            meta: Seq::empty(),
            name: Seq::empty(),
        }));
    }
    encode_request_bytes(&req)
}

} // verus!
