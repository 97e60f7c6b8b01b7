//! The session registry and the command dispatcher: the server's core.
//!
//! `dispatch_spec` is the mathematical description of the server: a pure
//! function from the registry and one decoded request to the new registry
//! and the response. The executable dispatcher is proved equal to it.

use vstd::prelude::*;
use vstd::pervasive::VecAdditionalExecFns;
use crate::model::{
    GameView, NetworkedGame, Player, PlayerView, Position, PositionView, copy_bytes,
    fresh_session_id, game_spawn, player_spawn, view_games, view_players, MAX_PLAYERS,
    PLAYER_CELL_HEIGHT, PLAYER_CELL_WIDTH,
};
use crate::codec::{
    c_gameinfo, c_gameinfo_vec, c_getworld, c_getworld_vec, c_joingame, c_joingame_vec,
    c_listgames, c_listgames_vec, c_newgame, c_newgame_vec, c_sendposition, c_sendposition_vec,
};
use crate::wire::{
    dec_player_full, dec_request_full, enc_response, encode_response, parse_player_full,
    parse_request_full, RequestWire, RequestWireView, Response, ResponseView,
};

verus! {

/// The index of the first session with the given identifier, or `-1`.
pub open spec fn game_index(games: Seq<GameView>, id: Seq<u8>) -> int
    decreases games.len(),
{
    if games.len() == 0 {
        -1
    } else if games[0].session_id == id {
        0
    } else {
        let r = game_index(games.skip(1), id);
        if r == -1 {
            -1
        } else {
            r + 1
        }
    }
}

/// Some session has the given identifier.
pub open spec fn has_game(games: Seq<GameView>, id: Seq<u8>) -> bool {
    game_index(games, id) >= 0
}

/// What [`game_index`] finds: `-1` exactly when no session matches, and
/// otherwise the first matching index.
pub proof fn lemma_game_index(games: Seq<GameView>, id: Seq<u8>)
    ensures
        game_index(games, id) == -1 || (0 <= game_index(games, id) < games.len()
            && games[game_index(games, id)].session_id == id),
        game_index(games, id) == -1 ==> forall|i: int|
            0 <= i < games.len() ==> (#[trigger] games[i]).session_id != id,
        game_index(games, id) >= 0 ==> forall|i: int|
            0 <= i < game_index(games, id) ==> (#[trigger] games[i]).session_id != id,
    decreases games.len(),
{
    if games.len() == 0 {
    } else if games[0].session_id == id {
    } else {
        lemma_game_index(games.skip(1), id);
        assert(forall|i: int|
            1 <= i < games.len() ==> (#[trigger] games[i]) == games.skip(1)[i - 1]);
    }
}

/// The first matching index is determined by the sessions before it.
pub proof fn lemma_game_index_is_first(games: Seq<GameView>, id: Seq<u8>, i: int)
    requires
        0 <= i < games.len(),
        games[i].session_id == id,
        forall|k: int| 0 <= k < i ==> (#[trigger] games[k]).session_id != id,
    ensures
        game_index(games, id) == i,
    decreases i,
{
    if i == 0 {
    } else {
        assert(games.skip(1)[i - 1] == games[i]);
        assert(forall|k: int|
            0 <= k < i - 1 ==> (#[trigger] games.skip(1)[k]) == games[k + 1]);
        lemma_game_index_is_first(games.skip(1), id, i - 1);
    }
}

/// The index of the first player with the given name, or `-1`.
pub open spec fn player_index(ps: Seq<PlayerView>, name: Seq<u8>) -> int
    decreases ps.len(),
{
    if ps.len() == 0 {
        -1
    } else if ps[0].name == name {
        0
    } else {
        let r = player_index(ps.skip(1), name);
        if r == -1 {
            -1
        } else {
            r + 1
        }
    }
}

/// What [`player_index`] finds.
pub proof fn lemma_player_index(ps: Seq<PlayerView>, name: Seq<u8>)
    ensures
        player_index(ps, name) == -1 || (0 <= player_index(ps, name) < ps.len()
            && ps[player_index(ps, name)].name == name),
        player_index(ps, name) == -1 ==> forall|i: int|
            0 <= i < ps.len() ==> (#[trigger] ps[i]).name != name,
        player_index(ps, name) >= 0 ==> forall|i: int|
            0 <= i < player_index(ps, name) ==> (#[trigger] ps[i]).name != name,
    decreases ps.len(),
{
    if ps.len() == 0 {
    } else if ps[0].name == name {
    } else {
        lemma_player_index(ps.skip(1), name);
        assert(forall|i: int| 1 <= i < ps.len() ==> (#[trigger] ps[i]) == ps.skip(1)[i - 1]);
    }
}

/// The first matching player index is determined by the players before it.
pub proof fn lemma_player_index_is_first(ps: Seq<PlayerView>, name: Seq<u8>, i: int)
    requires
        0 <= i < ps.len(),
        ps[i].name == name,
        forall|k: int| 0 <= k < i ==> (#[trigger] ps[k]).name != name,
    ensures
        player_index(ps, name) == i,
    decreases i,
{
    if i == 0 {
    } else {
        assert(ps.skip(1)[i - 1] == ps[i]);
        assert(forall|k: int| 0 <= k < i - 1 ==> (#[trigger] ps.skip(1)[k]) == ps[k + 1]);
        lemma_player_index_is_first(ps.skip(1), name, i - 1);
    }
}

/// The open-session listing: identifier and player count of every session
/// that has not started, in registry order.
pub open spec fn open_games(games: Seq<GameView>) -> Seq<(Seq<u8>, nat)>
    decreases games.len(),
{
    if games.len() == 0 {
        Seq::empty()
    } else {
        let head = open_games(games.drop_last());
        if !games.last().started {
            head.push((games.last().session_id, games.last().players.len()))
        } else {
            head
        }
    }
}

/// The hitbox a player joins with.
pub open spec fn join_pos() -> PositionView {
    PositionView { x: 0, y: 0, w: PLAYER_CELL_WIDTH as int, h: PLAYER_CELL_HEIGHT as int }
}

/// One session after a player joined it: the new player appended, and the
/// session started the instant it reaches capacity. The flag is never
/// taken back.
pub open spec fn joined_game(g: GameView, name: Seq<u8>) -> GameView {
    GameView {
        players: g.players.push(player_spawn(name, join_pos())),
        started: g.started || g.players.len() + 1 == MAX_PLAYERS,
        ..g
    }
}

/// One session after a `sendposition`: the first player with the given
/// name is overwritten by the submitted record; with no such player the
/// session is unchanged.
pub open spec fn replace_player_spec(g: GameView, name: Seq<u8>, p: PlayerView) -> GameView {
    let j = player_index(g.players, name);
    if j == -1 {
        g
    } else {
        GameView { players: g.players.update(j, p), ..g }
    }
}

/// The server's core, as one pure function: what one decoded request does
/// to the registry, and what it answers.
///
/// `fresh_id` is the identifier a `newgame` uses; every other command
/// ignores it. A `sendposition` whose `meta` field does not decode as a
/// player record changes nothing and is answered as an invalid command;
/// the dispatcher never fails in any other way.
pub open spec fn dispatch_spec(games: Seq<GameView>, req: RequestWireView, fresh_id: Seq<u8>) -> (
    Seq<GameView>,
    ResponseView,
) {
    if req.command == c_newgame() {
        (games.push(game_spawn(fresh_id)), ResponseView::GameId(fresh_id))
    } else if req.command == c_listgames() {
        (games, ResponseView::Games(open_games(games)))
    } else if req.command == c_joingame() {
        let i = game_index(games, req.game_id);
        if i == -1 {
            (games, ResponseView::ErrorInvalidGame(req.game_id))
        } else if games[i].players.len() < MAX_PLAYERS {
            let g2 = joined_game(games[i], req.name);
            (
                games.update(i, g2),
                ResponseView::Joined {
                    game_id: games[i].session_id,
                    started: g2.started,
                    count: g2.players.len(),
                },
            )
        } else {
            (games, ResponseView::ErrorGameFull(games[i].session_id))
        }
    } else if req.command == c_gameinfo() {
        let i = game_index(games, req.game_id);
        if i == -1 {
            (games, ResponseView::ErrorInvalidGame(req.game_id))
        } else {
            (
                games,
                ResponseView::GameSummary {
                    game_id: games[i].session_id,
                    count: games[i].players.len(),
                },
            )
        }
    } else if req.command == c_sendposition() {
        let i = game_index(games, req.game_id);
        if i == -1 {
            (games, ResponseView::ErrorInvalidGame(req.game_id))
        } else {
            match dec_player_full(req.meta) {
                Some(p) => {
                    let g2 = replace_player_spec(games[i], req.name, p);
                    (games.update(i, g2), ResponseView::World(g2))
                },
                None => (games, ResponseView::ErrorInvalidCommand),
            }
        }
    } else if req.command == c_getworld() {
        let i = game_index(games, req.game_id);
        if i == -1 {
            (games, ResponseView::ErrorInvalidGame(req.game_id))
        } else {
            (games, ResponseView::World(games[i]))
        }
    } else {
        (games, ResponseView::ErrorInvalidCommand)
    }
}

/// Whether two byte vectors hold the same bytes.
pub fn bytes_eq(a: &Vec<u8>, b: &Vec<u8>) -> (r: bool)
    ensures
        r == (a@ == b@),
{
    if a.len() != b.len() {
        return false;
    }
    let mut k: usize = 0;
    while k < a.len()
        invariant
            k <= a.len(),
            a@.len() == b@.len(),
            forall|t: int| 0 <= t < k ==> a@[t] == b@[t],
        decreases a.len() - k,
    {
        if a[k] != b[k] {
            return false;
        }
        k = k + 1;
    }
    proof {
        assert(a@ =~= b@);
    }
    true
}

/// The server: a hostname to bind and the registry of sessions it owns.
pub struct GameServer {
    pub hostname: Vec<u8>,
    pub games: Vec<NetworkedGame>,
}

/// Mathematical view of a [`GameServer`].
#[verifier::ext_equal]
pub struct ServerView {
    pub hostname: Seq<u8>,
    pub games: Seq<GameView>,
}

impl View for GameServer {
    type V = ServerView;

    open spec fn view(&self) -> ServerView {
        ServerView { hostname: self.hostname@, games: view_games(self.games) }
    }
}

/// The index of the first session of the registry with the given
/// identifier, as [`game_index`] describes.
pub fn find_game_index(games: &Vec<NetworkedGame>, id: &Vec<u8>) -> (r: Option<usize>)
    ensures
        match r {
            Some(i) => i < games.len() && game_index(view_games(*games), id@) == i as int,
            None => game_index(view_games(*games), id@) == -1,
        },
{
    let ghost vg = view_games(*games);
    let mut k: usize = 0;
    while k < games.len()
        invariant
            k <= games.len(),
            vg == view_games(*games),
            vg.len() == games.len(),
            forall|t: int| 0 <= t < k ==> (#[trigger] vg[t]).session_id != id@,
        decreases games.len() - k,
    {
        if bytes_eq(&games[k].session_id, id) {
            proof {
                assert(vg[k as int] == games@[k as int]@);
                lemma_game_index_is_first(vg, id@, k as int);
            }
            return Some(k);
        }
        proof {
            assert(vg[k as int] == games@[k as int]@);
        }
        k = k + 1;
    }
    proof {
        lemma_game_index(vg, id@);
        if game_index(vg, id@) >= 0 {
            assert(vg[game_index(vg, id@)].session_id == id@);
        }
    }
    None
}

/// The open-session listing of the registry, as [`open_games`] describes.
pub fn list_open(games: &Vec<NetworkedGame>) -> (r: Vec<(Vec<u8>, usize)>)
    ensures
        r@.map_values(|p: (Vec<u8>, usize)| (p.0@, p.1 as nat)) == open_games(view_games(*games)),
{
    let ghost vg = view_games(*games);
    let mut r: Vec<(Vec<u8>, usize)> = Vec::new();
    let mut k: usize = 0;
    while k < games.len()
        invariant
            k <= games.len(),
            vg == view_games(*games),
            vg.len() == games.len(),
            r@.map_values(|p: (Vec<u8>, usize)| (p.0@, p.1 as nat)) == open_games(
                vg.take(k as int),
            ),
        decreases games.len() - k,
    {
        let ghost pre = r@.map_values(|p: (Vec<u8>, usize)| (p.0@, p.1 as nat));
        if !games[k].started {
            let id = copy_bytes(&games[k].session_id);
            let count = games[k].players.len();
            r.push((id, count));
        }
        k = k + 1;
        proof {
            assert(vg[k - 1] == games@[k - 1]@);
            assert(vg.take(k as int).drop_last() =~= vg.take(k - 1));
            assert(vg.take(k as int).last() == vg[k - 1]);
            if !vg[k - 1].started {
                assert(r@.map_values(|p: (Vec<u8>, usize)| (p.0@, p.1 as nat)) =~= pre.push(
                    (vg[k - 1].session_id, vg[k - 1].players.len()),
                ));
            }
            assert(r@.map_values(|p: (Vec<u8>, usize)| (p.0@, p.1 as nat)) =~= open_games(
                vg.take(k as int),
            ));
        }
    }
    proof {
        assert(vg.take(vg.len() as int) =~= vg);
    }
    r
}

/// The index of the first player of the roster with the given name, as
/// [`player_index`] describes.
pub fn find_player_index(ps: &Vec<Player>, name: &Vec<u8>) -> (r: Option<usize>)
    ensures
        match r {
            Some(i) => i < ps.len() && player_index(view_players(*ps), name@) == i as int,
            None => player_index(view_players(*ps), name@) == -1,
        },
{
    let ghost vp = view_players(*ps);
    let mut k: usize = 0;
    while k < ps.len()
        invariant
            k <= ps.len(),
            vp == view_players(*ps),
            vp.len() == ps.len(),
            forall|t: int| 0 <= t < k ==> (#[trigger] vp[t]).name != name@,
        decreases ps.len() - k,
    {
        if bytes_eq(&ps[k].name, name) {
            proof {
                assert(vp[k as int] == ps@[k as int]@);
                lemma_player_index_is_first(vp, name@, k as int);
            }
            return Some(k);
        }
        proof {
            assert(vp[k as int] == ps@[k as int]@);
        }
        k = k + 1;
    }
    proof {
        lemma_player_index(vp, name@);
        if player_index(vp, name@) >= 0 {
            assert(vp[player_index(vp, name@)].name == name@);
        }
    }
    None
}

/// What handling one decoded packet guarantees: for some fresh
/// identifier, the registry and the encoded reply are exactly what
/// [`dispatch_spec`] says.
pub open spec fn packet_post(
    old_games: Seq<GameView>,
    req: RequestWireView,
    new_games: Seq<GameView>,
    out: Seq<u8>,
) -> bool {
    exists|id: Seq<u8>|
        new_games == (#[trigger] dispatch_spec(old_games, req, id)).0 && out == enc_response(
            dispatch_spec(old_games, req, id).1,
        )
}

impl GameServer {
    /// A server with an empty registry.
    pub fn new(hostname: Vec<u8>) -> (s: GameServer)
        ensures
            s@.hostname == hostname@,
            s@.games.len() == 0,
    {
        let s = GameServer { hostname, games: Vec::new() };
        proof {
            assert(view_games(s.games) =~= Seq::<GameView>::empty());
        }
        s
    }

    /// A fresh, empty session, outside any registry.
    pub fn new_game() -> (g: NetworkedGame)
        ensures
            g@ == game_spawn(g@.session_id),
            g@.session_id.len() == 36,
    {
        NetworkedGame::new()
    }

    /// Resolves one decoded request against the registry, using `fresh_id`
    /// as the identifier of a session a `newgame` creates. The registry and
    /// the response are exactly what [`dispatch_spec`] says.
    pub fn dispatch(&mut self, req: &RequestWire, fresh_id: Vec<u8>) -> (r: Response)
        ensures
            final(self)@.games == dispatch_spec(old(self)@.games, req@, fresh_id@).0,
            r@ == dispatch_spec(old(self)@.games, req@, fresh_id@).1,
            final(self)@.hostname == old(self)@.hostname,
    {
        let ghost vg = view_games(self.games);
        let c_ng = c_newgame_vec();
        let c_lg = c_listgames_vec();
        let c_jg = c_joingame_vec();
        let c_gi = c_gameinfo_vec();
        let c_sp = c_sendposition_vec();
        let c_gw = c_getworld_vec();
        if bytes_eq(&req.command, &c_ng) {
            let id = copy_bytes(&fresh_id);
            let g = NetworkedGame::with_id(fresh_id);
            self.games.push(g);
            proof {
                assert(view_games(self.games) =~= vg.push(game_spawn(id@)));
            }
            Response::GameId(id)
        } else if bytes_eq(&req.command, &c_lg) {
            Response::Games(list_open(&self.games))
        } else if bytes_eq(&req.command, &c_jg) {
            match find_game_index(&self.games, &req.game_id) {
                None => Response::ErrorInvalidGame(copy_bytes(&req.game_id)),
                Some(i) => {
                    if self.games[i].players.len() < MAX_PLAYERS {
                        let ghost gv = vg[i as int];
                        let mut g = self.games[i].duplicate();
                        let pos = Position {
                            x: 0,
                            y: 0,
                            w: PLAYER_CELL_WIDTH,
                            h: PLAYER_CELL_HEIGHT,
                        };
                        g.players.push(Player::new(copy_bytes(&req.name), pos));
                        if g.players.len() == MAX_PLAYERS {
                            g.started = true;
                        }
                        let started = g.started;
                        let count = g.players.len();
                        let id = copy_bytes(&g.session_id);
                        proof {
                            assert(view_players(g.players) =~= joined_game(gv, req@.name).players);
                            assert(g@ =~= joined_game(gv, req@.name));
                        }
                        self.games.set(i, g);
                        proof {
                            assert(view_games(self.games) =~= vg.update(
                                i as int,
                                joined_game(gv, req@.name),
                            ));
                        }
                        Response::Joined { game_id: id, started, count }
                    } else {
                        Response::ErrorGameFull(copy_bytes(&self.games[i].session_id))
                    }
                },
            }
        } else if bytes_eq(&req.command, &c_gi) {
            match find_game_index(&self.games, &req.game_id) {
                None => Response::ErrorInvalidGame(copy_bytes(&req.game_id)),
                Some(i) => Response::GameSummary {
                    game_id: copy_bytes(&self.games[i].session_id),
                    count: self.games[i].players.len(),
                },
            }
        } else if bytes_eq(&req.command, &c_sp) {
            match find_game_index(&self.games, &req.game_id) {
                None => Response::ErrorInvalidGame(copy_bytes(&req.game_id)),
                Some(i) => {
                    match parse_player_full(&req.meta) {
                        None => Response::ErrorInvalidCommand,
                        Some(p) => {
                            let ghost gv = vg[i as int];
                            let mut g = self.games[i].duplicate();
                            match find_player_index(&g.players, &req.name) {
                                Some(j) => {
                                    let ghost pv = p@;
                                    g.players.set(j, p);
                                    proof {
                                        assert(view_players(g.players) =~= gv.players.update(
                                            j as int,
                                            pv,
                                        ));
                                        assert(g@ =~= replace_player_spec(gv, req@.name, pv));
                                    }
                                },
                                None => {
                                    proof {
                                        assert(g@ =~= replace_player_spec(gv, req@.name, p@));
                                    }
                                },
                            }
                            let out = g.duplicate();
                            self.games.set(i, g);
                            proof {
                                assert(view_games(self.games) =~= vg.update(i as int, out@));
                            }
                            Response::World(out)
                        },
                    }
                },
            }
        } else if bytes_eq(&req.command, &c_gw) {
            match find_game_index(&self.games, &req.game_id) {
                None => Response::ErrorInvalidGame(copy_bytes(&req.game_id)),
                Some(i) => Response::World(self.games[i].duplicate()),
            }
        } else {
            Response::ErrorInvalidCommand
        }
    }

    /// Resolves one decoded request, drawing a fresh random identifier for
    /// a `newgame`.
    pub fn handle_request(&mut self, req: &RequestWire) -> (r: Response)
        ensures
            final(self)@.hostname == old(self)@.hostname,
            exists|id: Seq<u8>|
                final(self)@.games == (#[trigger] dispatch_spec(old(self)@.games, req@, id)).0
                    && r@ == dispatch_spec(old(self)@.games, req@, id).1,
    {
        let fid = fresh_session_id();
        let ghost idv = fid@;
        let r = self.dispatch(req, fid);
        proof {
            assert(self@.games == dispatch_spec(old(self)@.games, req@, idv).0 && r@
                == dispatch_spec(old(self)@.games, req@, idv).1);
        }
        r
    }

    /// Handles one raw datagram: decodes it, dispatches it, and encodes
    /// the response. A buffer that does not decode as a request changes
    /// nothing and gets no response.
    pub fn handle_packet(&mut self, raw: &Vec<u8>) -> (r: Option<Vec<u8>>)
        ensures
            final(self)@.hostname == old(self)@.hostname,
            dec_request_full(raw@) is None ==> final(self)@ == old(self)@ && r is None,
            dec_request_full(raw@) is Some ==> r is Some,
            dec_request_full(raw@) matches Some(req) ==> (r matches Some(v) && packet_post(
                old(self)@.games,
                req,
                final(self)@.games,
                v@,
            )),
    {
        match parse_request_full(raw) {
            None => None,
            Some(req) => {
                let resp = self.handle_request(&req);
                let out = encode_response(&resp);
                proof {
                    let id0 = choose|id: Seq<u8>|
                        self@.games == (#[trigger] dispatch_spec(old(self)@.games, req@, id)).0
                            && resp@ == dispatch_spec(old(self)@.games, req@, id).1;
                    assert(packet_post(old(self)@.games, req@, self@.games, out@)) by {
                        assert(self@.games == dispatch_spec(old(self)@.games, req@, id0).0 && out@
                            == enc_response(dispatch_spec(old(self)@.games, req@, id0).1));
                    }
                }
                Some(out)
            },
        }
    }
}

} // verus!
