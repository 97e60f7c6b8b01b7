//! Data model of the session subsystem: positions, players, potions and
//! networked game sessions, together with their mathematical views.
//!
//! Coordinates and movement scalars are fixed-point integers in tenths of
//! a pixel, so that acceleration ramps and jump offsets stay exact.

use vstd::prelude::*;

verus! {

/// Upper bound on the number of participants of one session.
pub const MAX_PLAYERS: usize = 2;

pub const PLAYER_MAX_HP: i64 = 100;
pub const PLAYER_MAX_MP: i64 = 30;
pub const PLAYER_MAX_STR: i64 = 10;

/// Base movement speed, in tenths of a pixel per tick.
pub const PLAYER_MOVE_SPEED: i64 = 30;
/// Cap that the acceleration ramps toward while moving.
pub const PLAYER_TOP_ACCEL_SPEED: i64 = 50;
/// Acceleration gained per moving tick.
pub const PLAYER_ACCEL_SPEED: i64 = 2;
/// Acceleration a freshly spawned player starts with.
pub const PLAYER_STARTING_ACCEL: i64 = 4;
/// Peak of the triangular jump offset cycle.
pub const PLAYER_JUMP_HEIGHT: i64 = 5;
/// Change of the jump offset per tick.
pub const PLAYER_JUMP_STEP: i64 = 1;
pub const PLAYER_CELL_HEIGHT: i64 = 440;
pub const PLAYER_CELL_WIDTH: i64 = 340;
pub const SCREEN_WIDTH: i64 = 6400;
pub const SCREEN_HEIGHT: i64 = 4800;
/// Friction factor applied to the acceleration while decelerating.
pub const MAP_CURRENT_FRICTION: i64 = 5;
pub const POTION_WIDTH: i64 = 420;
pub const POTION_HEIGHT: i64 = 420;

/// An axis-aligned rectangle: position of the top-left corner plus extent.
#[derive(Clone, Copy, Debug, PartialEq, Eq, Structural)]
pub struct Position {
    pub x: i64,
    pub y: i64,
    pub w: i64,
    pub h: i64,
}

/// Mathematical view of a [`Position`].
#[verifier::ext_equal]
pub struct PositionView {
    pub x: int,
    pub y: int,
    pub w: int,
    pub h: int,
}

impl View for Position {
    type V = PositionView;

    open spec fn view(&self) -> PositionView {
        PositionView { x: self.x as int, y: self.y as int, w: self.w as int, h: self.h as int }
    }
}

/// Held movement inputs. The four flags are independent, so diagonal
/// movement is possible.
#[derive(Clone, Copy, Debug, PartialEq, Eq, Structural)]
pub struct Direction {
    pub up: bool,
    pub down: bool,
    pub left: bool,
    pub right: bool,
}

impl View for Direction {
    type V = Direction;

    open spec fn view(&self) -> Direction {
        *self
    }
}

impl core::default::Default for Direction {
    /// A direction with no held inputs.
    fn default() -> (d: Direction)
        ensures
            d == (Direction { up: false, down: false, left: false, right: false }),
    {
        Direction { up: false, down: false, left: false, right: false }
    }
}

#[derive(Clone, Copy, Debug, PartialEq, Eq, Structural)]
pub enum PotionType {
    Health,
    Mana,
}

impl View for PotionType {
    type V = PotionType;

    open spec fn view(&self) -> PotionType {
        *self
    }
}

/// A pickup placed somewhere on the screen.
#[derive(Clone, Copy, Debug, PartialEq, Eq, Structural)]
pub struct Potion {
    pub pos: Position,
    pub potion_type: PotionType,
}

/// Mathematical view of a [`Potion`].
#[verifier::ext_equal]
pub struct PotionView {
    pub pos: PositionView,
    pub potion_type: PotionType,
}

impl View for Potion {
    type V = PotionView;

    open spec fn view(&self) -> PotionView {
        PotionView { pos: self.pos@, potion_type: self.potion_type }
    }
}

impl Potion {
    pub fn new(pos: Position, potion_type: PotionType) -> (p: Potion)
        ensures
            p == (Potion { pos, potion_type }),
    {
        Potion { pos, potion_type }
    }
}

/// One participant's record as it travels over the wire: hitbox, movement
/// intent, vitals and jump state. Animation timers and texture handles are
/// transient rendering state and are not part of this record.
#[derive(Clone, Debug, PartialEq)]
pub struct Player {
    pub body: Position,
    pub dir: Direction,
    pub last_dir: Direction,
    pub ate: Option<Potion>,
    pub name: Vec<u8>,
    pub hp: i64,
    pub mp: i64,
    pub str: i64,
    pub current_accel: i64,
    pub jumping: bool,
    pub jump_offset: i64,
    pub jump_direction: bool,
}

/// The view of an optional eaten potion.
pub open spec fn view_ate(a: Option<Potion>) -> Option<PotionView> {
    match a {
        Some(p) => Some(p@),
        None => None,
    }
}

/// Mathematical view of a [`Player`].
#[verifier::ext_equal]
pub struct PlayerView {
    pub body: PositionView,
    pub dir: Direction,
    pub last_dir: Direction,
    pub ate: Option<PotionView>,
    pub name: Seq<u8>,
    pub hp: int,
    pub mp: int,
    pub str: int,
    pub current_accel: int,
    pub jumping: bool,
    pub jump_offset: int,
    pub jump_direction: bool,
}

impl View for Player {
    type V = PlayerView;

    open spec fn view(&self) -> PlayerView {
        PlayerView {
            body: self.body@,
            dir: self.dir,
            last_dir: self.last_dir,
            ate: view_ate(self.ate),
            name: self.name@,
            hp: self.hp as int,
            mp: self.mp as int,
            str: self.str as int,
            current_accel: self.current_accel as int,
            jumping: self.jumping,
            jump_offset: self.jump_offset as int,
            jump_direction: self.jump_direction,
        }
    }
}

/// The record a player starts with: the given hitbox, no held inputs,
/// full vitals, starting acceleration, and no jump in progress.
pub open spec fn player_spawn(name: Seq<u8>, pos: PositionView) -> PlayerView {
    PlayerView {
        body: pos,
        dir: Direction { up: false, down: false, left: false, right: false },
        last_dir: Direction { up: false, down: false, left: false, right: false },
        ate: None,
        name: name,
        hp: PLAYER_MAX_HP as int,
        mp: PLAYER_MAX_MP as int,
        str: PLAYER_MAX_STR as int,
        current_accel: PLAYER_STARTING_ACCEL as int,
        jumping: false,
        jump_offset: 0,
        jump_direction: true,
    }
}

impl Player {
    pub fn new(name: Vec<u8>, pos: Position) -> (p: Player)
        ensures
            p@ == player_spawn(name@, pos@),
    {
        let ghost n = name@;
        let p = Player {
            body: pos,
            dir: Direction::default(),
            last_dir: Direction::default(),
            ate: None,
            name: name,
            hp: PLAYER_MAX_HP,
            mp: PLAYER_MAX_MP,
            str: PLAYER_MAX_STR,
            current_accel: PLAYER_STARTING_ACCEL,
            jumping: false,
            jump_offset: 0,
            jump_direction: true,
        };
        proof {
            assert(p@ =~= player_spawn(n, pos@));
        }
        p
    }

    /// A copy whose view equals this record's view.
    pub fn duplicate(&self) -> (p: Player)
        ensures
            p@ == self@,
    {
        let p = Player {
            body: self.body,
            dir: self.dir,
            last_dir: self.last_dir,
            ate: self.ate,
            name: copy_bytes(&self.name),
            hp: self.hp,
            mp: self.mp,
            str: self.str,
            current_accel: self.current_accel,
            jumping: self.jumping,
            jump_offset: self.jump_offset,
            jump_direction: self.jump_direction,
        };
        proof {
            assert(p@ =~= self@);
        }
        p
    }
}

/// A byte-for-byte copy of a byte vector.
pub fn copy_bytes(v: &Vec<u8>) -> (r: Vec<u8>)
    ensures
        r@ == v@,
{
    let mut r: Vec<u8> = Vec::new();
    let mut i: usize = 0;
    while i < v.len()
        invariant
            i <= v.len(),
            r@ == v@.take(i as int),
        decreases v.len() - i,
    {
        r.push(v[i]);
        i = i + 1;
        proof {
            assert(r@ =~= v@.take(i as int));
        }
    }
    proof {
        assert(v@.take(v@.len() as int) =~= v@);
    }
    r
}

/// One match: its opaque identifier, the participants in join order, and
/// the lifecycle flags.
#[derive(Clone, Debug, PartialEq)]
pub struct NetworkedGame {
    pub players: Vec<Player>,
    pub session_id: Vec<u8>,
    pub started: bool,
    pub completed: bool,
}

/// The views of a roster of players, in order.
pub open spec fn view_players(ps: Vec<Player>) -> Seq<PlayerView> {
    ps@.map_values(|p: Player| p@)
}

/// Mathematical view of a [`NetworkedGame`].
#[verifier::ext_equal]
pub struct GameView {
    pub players: Seq<PlayerView>,
    pub session_id: Seq<u8>,
    pub started: bool,
    pub completed: bool,
}

impl View for NetworkedGame {
    type V = GameView;

    open spec fn view(&self) -> GameView {
        GameView {
            players: view_players(self.players),
            session_id: self.session_id@,
            started: self.started,
            completed: self.completed,
        }
    }
}

/// The views of a registry of sessions, in order.
pub open spec fn view_games(gs: Vec<NetworkedGame>) -> Seq<GameView> {
    gs@.map_values(|g: NetworkedGame| g@)
}

/// A session holds at most [`MAX_PLAYERS`] participants, and a started
/// session is exactly at capacity.
pub open spec fn game_wf(g: GameView) -> bool {
    &&& g.players.len() <= MAX_PLAYERS
    &&& g.started ==> g.players.len() == MAX_PLAYERS
}

/// A freshly created session: no players, not started, not completed.
pub open spec fn game_spawn(id: Seq<u8>) -> GameView {
    GameView { players: Seq::empty(), session_id: id, started: false, completed: false }
}

/// Relies on `uuid::Uuid::new_v4` and `uuid::fmt::Hyphenated`: a freshly
/// generated random version-4 identifier rendered in the hyphenated
/// format, which is always 36 ASCII bytes.
#[verifier::external_body]
pub(crate) fn fresh_session_id() -> (r: Vec<u8>)
    ensures
        r@.len() == 36,
{
    uuid::Uuid::new_v4().to_string().into_bytes()
}

impl NetworkedGame {
    /// An empty session under the given identifier.
    pub fn with_id(session_id: Vec<u8>) -> (g: NetworkedGame)
        ensures
            g@ == game_spawn(session_id@),
    {
        let ghost id = session_id@;
        let g = NetworkedGame { players: Vec::new(), session_id, started: false, completed: false };
        proof {
            assert(g@ =~= game_spawn(id));
        }
        g
    }

    /// An empty session under a freshly generated identifier.
    pub fn new() -> (g: NetworkedGame)
        ensures
            g@ == game_spawn(g@.session_id),
            g@.session_id.len() == 36,
    {
        NetworkedGame::with_id(fresh_session_id())
    }

    /// A copy whose view equals this session's view.
    pub fn duplicate(&self) -> (g: NetworkedGame)
        ensures
            g@ == self@,
    {
        let mut players: Vec<Player> = Vec::new();
        let mut i: usize = 0;
        while i < self.players.len()
            invariant
                i <= self.players.len(),
                players@.len() == i,
                forall|j: int| 0 <= j < i ==> #[trigger] players@[j]@ == self.players@[j]@,
            decreases self.players.len() - i,
        {
            players.push(self.players[i].duplicate());
            i = i + 1;
        }
        let g = NetworkedGame {
            players,
            session_id: copy_bytes(&self.session_id),
            started: self.started,
            completed: self.completed,
        };
        proof {
            assert(g@.players =~= self@.players);
            assert(g@ =~= self@);
        }
        g
    }
}

} // verus!
