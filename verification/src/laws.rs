//! Global properties of the dispatcher, stated and proved over
//! [`dispatch_spec`]: capacity, start-flag monotonicity, lookup
//! determinism, listing hygiene, and replacement semantics.

use vstd::prelude::*;
use crate::model::{game_spawn, game_wf, GameView};
use crate::codec::{
    c_gameinfo, c_getworld, c_joingame, c_listgames, c_newgame, c_sendposition,
};
use crate::wire::{dec_player_full, RequestWireView, ResponseView};
use crate::server::{
    dispatch_spec, game_index, has_game, joined_game, lemma_game_index, lemma_player_index,
    open_games, player_index, replace_player_spec,
};
use crate::model::MAX_PLAYERS;

verus! {

/// The six command words are pairwise distinct.
pub proof fn lemma_commands_distinct()
    ensures
        c_newgame() != c_listgames(),
        c_newgame() != c_joingame(),
        c_newgame() != c_gameinfo(),
        c_newgame() != c_sendposition(),
        c_newgame() != c_getworld(),
        c_listgames() != c_joingame(),
        c_listgames() != c_gameinfo(),
        c_listgames() != c_sendposition(),
        c_listgames() != c_getworld(),
        c_joingame() != c_gameinfo(),
        c_joingame() != c_sendposition(),
        c_joingame() != c_getworld(),
        c_gameinfo() != c_sendposition(),
        c_gameinfo() != c_getworld(),
        c_sendposition() != c_getworld(),
{
    assert(c_newgame().len() == 7 && c_listgames().len() == 9 && c_joingame().len() == 8
        && c_gameinfo().len() == 8 && c_sendposition().len() == 12 && c_getworld().len() == 8);
    assert(c_joingame()[0] == 106 && c_gameinfo()[0] == 103 && c_getworld()[0] == 103);
    assert(c_gameinfo()[1] == 97 && c_getworld()[1] == 101);
}

/// Every session of the registry is well formed.
pub open spec fn registry_wf(games: Seq<GameView>) -> bool {
    forall|i: int| 0 <= i < games.len() ==> game_wf(#[trigger] games[i])
}

/// No session ever exceeds capacity, and a started session stays exactly
/// at capacity: one dispatched command preserves well-formedness of every
/// session in the registry.
pub proof fn lemma_registry_wf_preserved(
    games: Seq<GameView>,
    req: RequestWireView,
    fresh_id: Seq<u8>,
)
    requires
        registry_wf(games),
    ensures
        registry_wf(dispatch_spec(games, req, fresh_id).0),
{
    lemma_commands_distinct();
    let new = dispatch_spec(games, req, fresh_id).0;
    lemma_game_index(games, req.game_id);
    if req.command == c_newgame() {
        assert(game_wf(game_spawn(fresh_id)));
        assert forall|i: int| 0 <= i < new.len() implies game_wf(#[trigger] new[i]) by {
            if i < games.len() {
                assert(new[i] == games[i]);
            }
        }
    } else if req.command == c_joingame() {
        let i = game_index(games, req.game_id);
        if i >= 0 && games[i].players.len() < MAX_PLAYERS {
            let g2 = joined_game(games[i], req.name);
            assert(game_wf(g2)) by {
                assert(game_wf(games[i]));
            }
            assert forall|k: int| 0 <= k < new.len() implies game_wf(#[trigger] new[k]) by {
                if k != i {
                    assert(new[k] == games[k]);
                }
            }
        }
    } else if req.command == c_sendposition() {
        let i = game_index(games, req.game_id);
        if i >= 0 && dec_player_full(req.meta) is Some {
            let p = dec_player_full(req.meta).unwrap();
            let g2 = replace_player_spec(games[i], req.name, p);
            assert(game_wf(games[i]));
            lemma_player_index(games[i].players, req.name);
            let j = player_index(games[i].players, req.name);
            if j >= 0 {
                assert(g2.players == games[i].players.update(j, p));
                assert(g2.players.len() == games[i].players.len());
            } else {
                assert(g2 == games[i]);
            }
            assert(game_wf(g2));
            assert forall|k: int| 0 <= k < new.len() implies game_wf(#[trigger] new[k]) by {
                if k != i {
                    assert(new[k] == games[k]);
                }
            }
        }
    }
}

/// A join against a session already at capacity is answered with the
/// capacity error and mutates nothing.
pub proof fn lemma_join_full(games: Seq<GameView>, req: RequestWireView, fresh_id: Seq<u8>)
    requires
        req.command == c_joingame(),
        has_game(games, req.game_id),
        games[game_index(games, req.game_id)].players.len() >= MAX_PLAYERS,
    ensures
        dispatch_spec(games, req, fresh_id).0 == games,
        dispatch_spec(games, req, fresh_id).1 == ResponseView::ErrorGameFull(
            games[game_index(games, req.game_id)].session_id,
        ),
{
}

/// The start flag is monotone and flips only at the join that fills the
/// session: dispatching one command never takes `started` back to false,
/// never changes `completed`, never shrinks the registry, and flips
/// `started` only on the session a `joingame` brought to capacity.
pub proof fn lemma_started_monotone(games: Seq<GameView>, req: RequestWireView, fresh_id: Seq<u8>)
    ensures
        dispatch_spec(games, req, fresh_id).0.len() >= games.len(),
        forall|j: int| 0 <= j < games.len() ==> (#[trigger] games[j]).started ==> dispatch_spec(
            games,
            req,
            fresh_id,
        ).0[j].started,
        forall|j: int|
            0 <= j < games.len() ==> (#[trigger] dispatch_spec(games, req, fresh_id).0[j]).started
                != games[j].started ==> (req.command == c_joingame() && j == game_index(
                games,
                req.game_id,
            ) && !games[j].started && dispatch_spec(games, req, fresh_id).0[j].started
                && dispatch_spec(games, req, fresh_id).0[j].players.len() == MAX_PLAYERS),
        forall|j: int| 0 <= j < games.len() ==> (#[trigger] dispatch_spec(
            games,
            req,
            fresh_id,
        ).0[j]).completed == games[j].completed,
    decreases games.len(),
{
    lemma_commands_distinct();
    let new = dispatch_spec(games, req, fresh_id).0;
    lemma_game_index(games, req.game_id);
    if req.command == c_newgame() {
        assert(forall|j: int| 0 <= j < games.len() ==> (#[trigger] new[j]) == games[j]);
    } else if req.command == c_joingame() {
        let i = game_index(games, req.game_id);
        if i >= 0 && games[i].players.len() < MAX_PLAYERS {
            assert(forall|j: int|
                0 <= j < games.len() && j != i ==> (#[trigger] new[j]) == games[j]);
            assert(new[i] == joined_game(games[i], req.name));
        }
    } else if req.command == c_sendposition() {
        let i = game_index(games, req.game_id);
        if i >= 0 && dec_player_full(req.meta) is Some {
            assert(forall|j: int|
                0 <= j < games.len() && j != i ==> (#[trigger] new[j]) == games[j]);
            assert(new[i].started == games[i].started);
        }
    }
}

/// A script of commands, dispatched one after the other.
pub open spec fn run_spec(games: Seq<GameView>, script: Seq<(RequestWireView, Seq<u8>)>) -> Seq<
    GameView,
>
    decreases script.len(),
{
    if script.len() == 0 {
        games
    } else {
        run_spec(dispatch_spec(games, script[0].0, script[0].1).0, script.skip(1))
    }
}

/// No sequence of commands ever takes a session's start flag back to
/// false.
pub proof fn lemma_started_stays_over_run(
    games: Seq<GameView>,
    script: Seq<(RequestWireView, Seq<u8>)>,
    j: int,
)
    requires
        0 <= j < games.len(),
        games[j].started,
    ensures
        j < run_spec(games, script).len(),
        run_spec(games, script)[j].started,
    decreases script.len(),
{
    if script.len() == 0 {
    } else {
        lemma_started_monotone(games, script[0].0, script[0].1);
        let mid = dispatch_spec(games, script[0].0, script[0].1).0;
        lemma_started_stays_over_run(mid, script.skip(1), j);
    }
}

/// A lookup of an identifier that no session carries is answered with the
/// invalid-game error and mutates nothing, for `gameinfo`, `getworld`,
/// `sendposition` and `joingame` alike.
pub proof fn lemma_unknown_id(games: Seq<GameView>, req: RequestWireView, fresh_id: Seq<u8>)
    requires
        !has_game(games, req.game_id),
        req.command == c_gameinfo() || req.command == c_getworld() || req.command
            == c_sendposition() || req.command == c_joingame(),
    ensures
        dispatch_spec(games, req, fresh_id).0 == games,
        dispatch_spec(games, req, fresh_id).1 == ResponseView::ErrorInvalidGame(req.game_id),
{
    lemma_commands_distinct();
    lemma_game_index(games, req.game_id);
}

/// Every entry of the open-session listing comes from a session that has
/// not started, and every session that has not started is listed.
pub proof fn lemma_open_games_entries(games: Seq<GameView>)
    ensures
        forall|k: int| 0 <= k < open_games(games).len() ==> exists|j: int|
            0 <= j < games.len() && !(#[trigger] games[j]).started && (#[trigger] open_games(
                games,
            )[k]) == (games[j].session_id, games[j].players.len()),
        forall|j: int| 0 <= j < games.len() && !(#[trigger] games[j]).started ==> open_games(
            games,
        ).contains((games[j].session_id, games[j].players.len())),
    decreases games.len(),
{
    if games.len() == 0 {
    } else {
        let head = games.drop_last();
        lemma_open_games_entries(head);
        let open = open_games(games);
        let oh = open_games(head);
        assert(forall|j: int| 0 <= j < head.len() ==> (#[trigger] head[j]) == games[j]);
        assert forall|k: int| 0 <= k < open.len() implies exists|j: int|
            0 <= j < games.len() && !(#[trigger] games[j]).started && (#[trigger] open[k]) == (
            games[j].session_id,
            games[j].players.len(),
            ) by {
            if k < oh.len() {
                let j0 = choose|j: int|
                    0 <= j < head.len() && !(#[trigger] head[j]).started && oh[k] == (
                    head[j].session_id,
                    head[j].players.len(),
                    );
                assert(0 <= j0 < games.len() && !games[j0].started && open[k] == (
                games[j0].session_id,
                games[j0].players.len(),
                ));
            } else {
                assert(!games.last().started);
                assert(open[k] == (games[games.len() - 1].session_id, games[games.len()
                    - 1].players.len()));
            }
        }
        assert forall|j: int|
            0 <= j < games.len() && !(#[trigger] games[j]).started implies open.contains(
            (games[j].session_id, games[j].players.len()),
        ) by {
            if j < games.len() - 1 {
                assert(oh.contains((head[j].session_id, head[j].players.len())));
                let k0 = choose|k: int|
                    0 <= k < oh.len() && oh[k] == (head[j].session_id, head[j].players.len());
                assert(open[k0] == (games[j].session_id, games[j].players.len()));
            } else {
                assert(open.last() == (games[j].session_id, games[j].players.len()));
            }
        }
    }
}

/// A `listgames` answers with the open-session listing and mutates
/// nothing; a freshly created session, not yet joined, is listed with a
/// player count of zero.
pub proof fn lemma_new_then_list(
    games: Seq<GameView>,
    new_req: RequestWireView,
    list_req: RequestWireView,
    fresh_id: Seq<u8>,
    other_id: Seq<u8>,
)
    requires
        new_req.command == c_newgame(),
        list_req.command == c_listgames(),
    ensures
        dispatch_spec(dispatch_spec(games, new_req, fresh_id).0, list_req, other_id).0
            == dispatch_spec(games, new_req, fresh_id).0,
        dispatch_spec(dispatch_spec(games, new_req, fresh_id).0, list_req, other_id).1
            == ResponseView::Games(open_games(games).push((fresh_id, 0))),
{
    lemma_commands_distinct();
    let g1 = dispatch_spec(games, new_req, fresh_id).0;
    assert(g1 == games.push(game_spawn(fresh_id)));
    assert(g1.drop_last() =~= games);
    assert(g1.last() == game_spawn(fresh_id));
    assert(open_games(g1) == open_games(games).push((fresh_id, 0)));
}

/// A `sendposition` whose player name is absent from the session is a
/// no-op: the registry keeps its value and the response carries the
/// unchanged session.
pub proof fn lemma_replace_absent(games: Seq<GameView>, req: RequestWireView, fresh_id: Seq<u8>)
    requires
        req.command == c_sendposition(),
        has_game(games, req.game_id),
        dec_player_full(req.meta) is Some,
        player_index(games[game_index(games, req.game_id)].players, req.name) == -1,
    ensures
        dispatch_spec(games, req, fresh_id).0 == games,
        dispatch_spec(games, req, fresh_id).1 == ResponseView::World(
            games[game_index(games, req.game_id)],
        ),
{
    lemma_commands_distinct();
    lemma_game_index(games, req.game_id);
    let i = game_index(games, req.game_id);
    let p = dec_player_full(req.meta).unwrap();
    assert(replace_player_spec(games[i], req.name, p) == games[i]);
    assert(games.update(i, games[i]) =~= games);
}

} // verus!
