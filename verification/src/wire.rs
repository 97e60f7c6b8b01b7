//! Wire codec for the composite protocol messages: rosters, session
//! records, command requests and responses, together with their
//! round-trip lemmas and whole-buffer decoders.

use vstd::prelude::*;
use vstd::seq_lib::lemma_seq_skip_of_skip;
use crate::num::{enc_nat, lemma_concat_parts, push_u64_digits};
use crate::codec::{
    dec_bool, dec_lit, dec_player, dec_str, enc_bool, enc_player, enc_str, encode_player,
    game_fits, lemma_enc_player_head, l_end, l_end_vec, l_g_completed, l_g_completed_vec, l_g_players, l_g_players_vec,
    l_g_sid, l_g_sid_vec, l_g_started, l_g_started_vec, l_r_error, l_r_error_vec,
    l_r_game, l_r_game_vec, l_r_gameid, l_r_gameid_vec, l_r_games, l_r_games_vec, l_r_info,
    l_r_info_vec, l_rbrack_end, l_rbrack_end_vec, l_rq_cmd, l_rq_cmd_vec, l_rq_gid, l_rq_gid_vec,
    l_rq_meta, l_rq_meta_vec, l_rq_name, l_rq_name_vec, lemma_dec_bool_enc_bool, lemma_dec_lit,
    lemma_dec_player, lemma_dec_str_enc_str, m_game, m_game_pfx, m_game_pfx_vec, m_game_vec,
    m_invalid_cmd, m_invalid_cmd_vec, m_invalid_game, m_invalid_game_vec, m_is_full,
    m_is_full_vec, m_joined, m_joined_vec, m_not_started, m_not_started_vec, m_players,
    m_players_vec, m_started, m_started_vec, m_with, m_with_vec, parse_bool, parse_lit,
    parse_player, parse_string, player_fits, push_bool, push_bytes, push_str, seq_assoc,
};
use crate::model::{
    GameView, NetworkedGame, Player, PlayerView, view_players,
};

verus! {

/// A decoded command request as it stands on the wire: the four string
/// fields every request carries. Fields a command does not use are empty.
#[derive(Debug, PartialEq)]
pub struct RequestWire {
    pub command: Vec<u8>,
    pub game_id: Vec<u8>,
    pub meta: Vec<u8>,
    pub name: Vec<u8>,
}

/// Mathematical view of a [`RequestWire`].
#[verifier::ext_equal]
pub struct RequestWireView {
    pub command: Seq<u8>,
    pub game_id: Seq<u8>,
    pub meta: Seq<u8>,
    pub name: Seq<u8>,
}

impl View for RequestWire {
    type V = RequestWireView;

    open spec fn view(&self) -> RequestWireView {
        RequestWireView {
            command: self.command@,
            game_id: self.game_id@,
            meta: self.meta@,
            name: self.name@,
        }
    }
}
/// The wire form of a raw command request.
pub open spec fn enc_request(v: RequestWireView) -> Seq<u8> {
    l_rq_cmd() + (enc_str(v.command) + (l_rq_gid() + (enc_str(v.game_id) + (l_rq_meta() + (enc_str(v.meta) + (l_rq_name() + (enc_str(v.name) + (l_end()))))))))
}

/// Decodes a raw command request from the front of `s`.
pub open spec fn dec_request(s: Seq<u8>) -> Option<(RequestWireView, Seq<u8>)> {
    match dec_lit(s, l_rq_cmd()) {
        None => None,
        Some(s0) => {
            match dec_str(s0) {
                None => None,
                Some((x1, s1)) => {
                    match dec_lit(s1, l_rq_gid()) {
                        None => None,
                        Some(s2) => {
                            match dec_str(s2) {
                                None => None,
                                Some((x3, s3)) => {
                                    match dec_lit(s3, l_rq_meta()) {
                                        None => None,
                                        Some(s4) => {
                                            match dec_str(s4) {
                                                None => None,
                                                Some((x5, s5)) => {
                                                    match dec_lit(s5, l_rq_name()) {
                                                        None => None,
                                                        Some(s6) => {
                                                            match dec_str(s6) {
                                                                None => None,
                                                                Some((x7, s7)) => {
                                                                    match dec_lit(s7, l_end()) {
                                                                        None => None,
                                                                        Some(s8) => {
                                                                            Some((RequestWireView { command: x1, game_id: x3, meta: x5, name: x7 }, s8))
                                                                        },
                                                                    }
                                                                },
                                                            }
                                                        },
                                                    }
                                                },
                                            }
                                        },
                                    }
                                },
                            }
                        },
                    }
                },
            }
        },
    }
}

/// A raw command request decodes from its own encoding, leaving the rest.
pub proof fn lemma_dec_request(v: RequestWireView, rest: Seq<u8>)
    ensures
        dec_request(enc_request(v) + rest) == Some((v, rest)),
{
    let t8 = l_end();
    let t7 = enc_str(v.name) + (t8);
    let t6 = l_rq_name() + (t7);
    let t5 = enc_str(v.meta) + (t6);
    let t4 = l_rq_meta() + (t5);
    let t3 = enc_str(v.game_id) + (t4);
    let t2 = l_rq_gid() + (t3);
    let t1 = enc_str(v.command) + (t2);
    let t0 = l_rq_cmd() + (t1);
    assert(enc_request(v) == t0);
    seq_assoc(l_rq_cmd(), t1, rest);
    lemma_dec_lit(l_rq_cmd(), t1 + rest);
    seq_assoc(enc_str(v.command), t2, rest);
    lemma_dec_str_enc_str(v.command, t2 + rest);
    seq_assoc(l_rq_gid(), t3, rest);
    lemma_dec_lit(l_rq_gid(), t3 + rest);
    seq_assoc(enc_str(v.game_id), t4, rest);
    lemma_dec_str_enc_str(v.game_id, t4 + rest);
    seq_assoc(l_rq_meta(), t5, rest);
    lemma_dec_lit(l_rq_meta(), t5 + rest);
    seq_assoc(enc_str(v.meta), t6, rest);
    lemma_dec_str_enc_str(v.meta, t6 + rest);
    seq_assoc(l_rq_name(), t7, rest);
    lemma_dec_lit(l_rq_name(), t7 + rest);
    seq_assoc(enc_str(v.name), t8, rest);
    lemma_dec_str_enc_str(v.name, t8 + rest);
    lemma_dec_lit(l_end(), rest);
    assert((RequestWireView { command: v.command, game_id: v.game_id, meta: v.meta, name: v.name }) =~= v);
}

/// Appends the wire form of a raw command request to `buf`.
pub fn encode_request(buf: &mut Vec<u8>, v: &RequestWire)
    ensures
        final(buf)@ == old(buf)@ + enc_request(v@),
{
    let ghost t8 = l_end();
    let ghost t7 = enc_str(v.name@) + (t8);
    let ghost t6 = l_rq_name() + (t7);
    let ghost t5 = enc_str(v.meta@) + (t6);
    let ghost t4 = l_rq_meta() + (t5);
    let ghost t3 = enc_str(v.game_id@) + (t4);
    let ghost t2 = l_rq_gid() + (t3);
    let ghost t1 = enc_str(v.command@) + (t2);
    let ghost t0 = l_rq_cmd() + (t1);
    proof {
        assert(enc_request(v@) == t0);
    }
    let ghost base = buf@;
    let ghost mut done: Seq<u8> = Seq::empty();
    proof {
        assert(base + done =~= base);
        assert(done + t0 =~= t0);
    }
    let l0 = l_rq_cmd_vec();
    push_bytes(buf, &l0);
    proof {
        seq_assoc(base, done, l_rq_cmd());
        seq_assoc(done, l_rq_cmd(), t1);
        done = done + l_rq_cmd();
    }
    push_str(buf, &v.command);
    proof {
        seq_assoc(base, done, enc_str(v.command@));
        seq_assoc(done, enc_str(v.command@), t2);
        done = done + enc_str(v.command@);
    }
    let l2 = l_rq_gid_vec();
    push_bytes(buf, &l2);
    proof {
        seq_assoc(base, done, l_rq_gid());
        seq_assoc(done, l_rq_gid(), t3);
        done = done + l_rq_gid();
    }
    push_str(buf, &v.game_id);
    proof {
        seq_assoc(base, done, enc_str(v.game_id@));
        seq_assoc(done, enc_str(v.game_id@), t4);
        done = done + enc_str(v.game_id@);
    }
    let l4 = l_rq_meta_vec();
    push_bytes(buf, &l4);
    proof {
        seq_assoc(base, done, l_rq_meta());
        seq_assoc(done, l_rq_meta(), t5);
        done = done + l_rq_meta();
    }
    push_str(buf, &v.meta);
    proof {
        seq_assoc(base, done, enc_str(v.meta@));
        seq_assoc(done, enc_str(v.meta@), t6);
        done = done + enc_str(v.meta@);
    }
    let l6 = l_rq_name_vec();
    push_bytes(buf, &l6);
    proof {
        seq_assoc(base, done, l_rq_name());
        seq_assoc(done, l_rq_name(), t7);
        done = done + l_rq_name();
    }
    push_str(buf, &v.name);
    proof {
        seq_assoc(base, done, enc_str(v.name@));
        seq_assoc(done, enc_str(v.name@), t8);
        done = done + enc_str(v.name@);
    }
    let l8 = l_end_vec();
    push_bytes(buf, &l8);
    proof {
        seq_assoc(base, done, l_end());
        done = done + l_end();
    }
}

/// Reads a raw command request at position `i` of `s`, as [`dec_request`] describes.
pub fn parse_request(s: &Vec<u8>, i: usize) -> (r: Option<(RequestWire, usize)>)
    requires
        i <= s.len(),
    ensures
        match r {
            Some(p) => i <= p.1 <= s.len() && dec_request(s@.skip(i as int)) == Some(
                (p.0@, s@.skip(p.1 as int)),
            ),
            None => dec_request(s@.skip(i as int)) is None,
        },
{
    let l0 = l_rq_cmd_vec();
    let j0 = match parse_lit(s, i, &l0) {
        Some(j) => j,
        None => {
            return None;
        },
    };
    let (v1, j1) = match parse_string(s, j0) {
        Some(p) => p,
        None => {
            return None;
        },
    };
    let l2 = l_rq_gid_vec();
    let j2 = match parse_lit(s, j1, &l2) {
        Some(j) => j,
        None => {
            return None;
        },
    };
    let (v3, j3) = match parse_string(s, j2) {
        Some(p) => p,
        None => {
            return None;
        },
    };
    let l4 = l_rq_meta_vec();
    let j4 = match parse_lit(s, j3, &l4) {
        Some(j) => j,
        None => {
            return None;
        },
    };
    let (v5, j5) = match parse_string(s, j4) {
        Some(p) => p,
        None => {
            return None;
        },
    };
    let l6 = l_rq_name_vec();
    let j6 = match parse_lit(s, j5, &l6) {
        Some(j) => j,
        None => {
            return None;
        },
    };
    let (v7, j7) = match parse_string(s, j6) {
        Some(p) => p,
        None => {
            return None;
        },
    };
    let l8 = l_end_vec();
    let j8 = match parse_lit(s, j7, &l8) {
        Some(j) => j,
        None => {
            return None;
        },
    };
    let ret = RequestWire { command: v1, game_id: v3, meta: v5, name: v7 };
    proof {
        assert(ret@ =~= RequestWireView { command: v1@, game_id: v3@, meta: v5@, name: v7@ });
    }
    Some((ret, j8))
}

/// The wire form of the roster after its opening bracket: the encoded
/// players separated by commas, then the closing bracket.
pub open spec fn enc_players_tail(ps: Seq<PlayerView>) -> Seq<u8>
    decreases ps.len(),
{
    if ps.len() == 0 {
        seq![93u8]
    } else {
        seq![44u8] + enc_player(ps[0]) + enc_players_tail(ps.skip(1))
    }
}

/// The wire form of the roster after its opening bracket.
pub open spec fn enc_players(ps: Seq<PlayerView>) -> Seq<u8> {
    if ps.len() == 0 {
        seq![93u8]
    } else {
        enc_player(ps[0]) + enc_players_tail(ps.skip(1))
    }
}

/// Decodes a nonempty roster from the front of `s`, up to and including
/// the closing bracket. A player's encoding is never empty, so the guard
/// on the remainder's length never fires on a successful decode.
#[verifier::opaque]
pub open spec fn dec_players_ne(s: Seq<u8>) -> Option<(Seq<PlayerView>, Seq<u8>)>
    decreases s.len(),
{
    match dec_player(s) {
        None => None,
        Some((p, r)) => {
            if r.len() >= s.len() {
                None
            } else if r.len() > 0 && r[0] == 44 {
                match dec_players_ne(r.skip(1)) {
                    Some((ps, r2)) => Some((seq![p] + ps, r2)),
                    None => None,
                }
            } else if r.len() > 0 && r[0] == 93 {
                Some((seq![p], r.skip(1)))
            } else {
                None
            }
        },
    }
}

/// Decodes a roster from the front of `s` (after the opening bracket),
/// up to and including the closing bracket.
pub open spec fn dec_players(s: Seq<u8>) -> Option<(Seq<PlayerView>, Seq<u8>)> {
    if s.len() > 0 && s[0] == 93 {
        Some((Seq::empty(), s.skip(1)))
    } else {
        dec_players_ne(s)
    }
}

/// Every player of the roster fits on the wire.
pub open spec fn players_fit(ps: Seq<PlayerView>) -> bool {
    forall|i: int| 0 <= i < ps.len() ==> player_fits(#[trigger] ps[i])
}

/// A nonempty roster decodes from its own encoding, leaving the rest.
#[verifier::rlimit(100)]
#[verifier::spinoff_prover]
pub proof fn lemma_dec_players_ne(ps: Seq<PlayerView>, rest: Seq<u8>)
    requires
        ps.len() >= 1,
        players_fit(ps),
    ensures
        dec_players_ne(enc_player(ps[0]) + (enc_players_tail(ps.skip(1)) + rest)) == Some(
            (ps, rest),
        ),
    decreases ps.len(),
{
    reveal(dec_players_ne);
    let tail = enc_players_tail(ps.skip(1)) + rest;
    let s = enc_player(ps[0]) + tail;
    lemma_dec_player(ps[0], tail);
    lemma_enc_player_head(ps[0]);
    assert(tail.len() < s.len());
    if ps.len() == 1 {
        assert(ps.skip(1).len() == 0);
        assert(tail == seq![93u8] + rest);
        assert(tail[0] == 93);
        lemma_concat_parts(seq![93u8], rest);
        assert(tail.skip(1) == rest);
        assert(seq![ps[0]] =~= ps);
    } else {
        let ps1 = ps.skip(1);
        assert(forall|i: int| 0 <= i < ps1.len() ==> player_fits(#[trigger] ps1[i]));
        lemma_dec_players_ne(ps1, rest);
        let e1 = enc_player(ps1[0]);
        let t1 = enc_players_tail(ps1.skip(1));
        assert(enc_players_tail(ps1) == seq![44u8] + e1 + t1);
        seq_assoc(seq![44u8] + e1, t1, rest);
        seq_assoc(seq![44u8], e1, t1 + rest);
        assert(tail == seq![44u8] + (e1 + (t1 + rest)));
        assert(tail[0] == 44);
        lemma_concat_parts(seq![44u8], e1 + (t1 + rest));
        assert(tail.skip(1) == e1 + (t1 + rest));
        assert(dec_players_ne(s) == Some((seq![ps[0]] + ps1, rest)));
        assert(seq![ps[0]] + ps1 =~= ps);
    }
}

/// A roster decodes from its own encoding, leaving the rest.
pub proof fn lemma_dec_players(ps: Seq<PlayerView>, rest: Seq<u8>)
    requires
        players_fit(ps),
    ensures
        dec_players(enc_players(ps) + rest) == Some((ps, rest)),
{
    let s = enc_players(ps) + rest;
    if ps.len() == 0 {
        assert(s =~= seq![93u8] + rest);
        assert(s[0] == 93);
        assert(s.skip(1) =~= rest);
        assert(Seq::<PlayerView>::empty() =~= ps);
    } else {
        lemma_enc_player_head(ps[0]);
        assert(s[0] == enc_player(ps[0])[0]);
        assert(s[0] != 93);
        seq_assoc(enc_player(ps[0]), enc_players_tail(ps.skip(1)), rest);
        lemma_dec_players_ne(ps, rest);
    }
}

/// Appends the wire form of the roster (after the opening bracket) to
/// `buf`.
#[verifier::rlimit(100)]
#[verifier::spinoff_prover]
pub fn encode_players(buf: &mut Vec<u8>, ps: &Vec<Player>)
    ensures
        final(buf)@ == old(buf)@ + enc_players(view_players(*ps)),
{
    let ghost vps = view_players(*ps);
    let ghost base = buf@;
    if ps.len() == 0 {
        buf.push(93);
        proof {
            assert(buf@ =~= base + enc_players(vps));
        }
        return ;
    }
    encode_player(buf, &ps[0]);
    proof {
        assert(ps@[0]@ == vps[0]);
        seq_assoc(base, enc_player(vps[0]), enc_players_tail(vps.skip(1)));
    }
    let mut k: usize = 1;
    while k < ps.len()
        invariant
            1 <= k <= ps.len(),
            vps == view_players(*ps),
            vps.len() == ps.len(),
            base + enc_players(vps) == buf@ + enc_players_tail(vps.skip(k as int)),
        decreases ps.len() - k,
    {
        let ghost pre = buf@;
        buf.push(44);
        encode_player(buf, &ps[k]);
        proof {
            assert(ps@[k as int]@ == vps[k as int]);
            let tk = vps.skip(k as int);
            assert(tk[0] == vps[k as int]);
            assert(tk.skip(1) =~= vps.skip(k + 1));
            assert(enc_players_tail(tk) == seq![44u8] + enc_player(vps[k as int])
                + enc_players_tail(vps.skip(k + 1)));
            assert(buf@ =~= pre + seq![44u8] + enc_player(vps[k as int]));
            assert(pre + enc_players_tail(tk) =~= buf@ + enc_players_tail(vps.skip(k + 1)));
        }
        k = k + 1;
    }
    buf.push(93);
    proof {
        assert(vps.skip(ps@.len() as int) =~= Seq::<PlayerView>::empty());
        assert(enc_players_tail(Seq::<PlayerView>::empty()) == seq![93u8]);
        let pre = buf@.take(buf@.len() - 1);
        assert(pre + enc_players_tail(vps.skip(ps@.len() as int)) =~= buf@);
        assert(buf@ =~= base + enc_players(vps));
    }
}

/// Reads a nonempty roster at position `i` of `s`, as [`dec_players_ne`]
/// describes.
#[verifier::rlimit(100)]
fn parse_players_ne(s: &Vec<u8>, i: usize) -> (r: Option<(Vec<Player>, usize)>)
    requires
        i <= s.len(),
    ensures
        match r {
            Some(p) => i <= p.1 <= s.len() && dec_players_ne(s@.skip(i as int)) == Some(
                (view_players(p.0), s@.skip(p.1 as int)),
            ),
            None => dec_players_ne(s@.skip(i as int)) is None,
        },
    decreases s.len() - i,
{
    proof {
        reveal(dec_players_ne);
    }
    let ghost rem = s@.skip(i as int);
    let (p, j) = match parse_player(s, i) {
        Some(q) => q,
        None => {
            return None;
        },
    };
    if j == i {
        proof {
            assert(s@.skip(j as int).len() >= rem.len());
        }
        return None;
    }
    proof {
        assert(s@.skip(j as int).len() < rem.len());
    }
    if j >= s.len() {
        proof {
            assert(s@.skip(j as int).len() == 0);
        }
        return None;
    }
    let c = s[j];
    let ghost r2 = s@.skip(j as int);
    proof {
        assert(r2[0] == c);
        lemma_seq_skip_of_skip(s@, j as int, 1);
        assert(r2.skip(1) == s@.skip(j + 1));
    }
    if c == 44 {
        match parse_players_ne(s, j + 1) {
            Some((ps_tail, k)) => {
                let ghost vtail = view_players(ps_tail);
                let mut ps = ps_tail;
                ps.insert(0, p);
                proof {
                    assert(view_players(ps) =~= seq![p@] + vtail);
                    assert(dec_players_ne(rem) == Some((seq![p@] + vtail, s@.skip(k as int))));
                }
                Some((ps, k))
            },
            None => {
                proof {
                    assert(dec_players_ne(rem) is None);
                }
                None
            },
        }
    } else if c == 93 {
        let mut only: Vec<Player> = Vec::new();
        only.push(p);
        proof {
            assert(view_players(only) =~= seq![p@]);
            assert(dec_players_ne(rem) == Some((seq![p@], s@.skip(j + 1))));
        }
        Some((only, j + 1))
    } else {
        None
    }
}

/// Reads a roster at position `i` of `s` (after the opening bracket), as
/// [`dec_players`] describes: the players and the position after the
/// closing bracket.
pub fn parse_players(s: &Vec<u8>, i: usize) -> (r: Option<(Vec<Player>, usize)>)
    requires
        i <= s.len(),
    ensures
        match r {
            Some(p) => i <= p.1 <= s.len() && dec_players(s@.skip(i as int)) == Some(
                (view_players(p.0), s@.skip(p.1 as int)),
            ),
            None => dec_players(s@.skip(i as int)) is None,
        },
{
    let ghost orig = s@.skip(i as int);
    if i < s.len() && s[i] == 93 {
        let empty: Vec<Player> = Vec::new();
        proof {
            assert(orig[0] == 93);
            lemma_seq_skip_of_skip(s@, i as int, 1);
            assert(orig.skip(1) == s@.skip(i + 1));
            assert(view_players(empty) =~= Seq::<PlayerView>::empty());
        }
        return Some((empty, i + 1));
    }
    proof {
        if orig.len() > 0 {
            assert(orig[0] == s@[i as int]);
        }
        assert(!(orig.len() > 0 && orig[0] == 93));
    }
    parse_players_ne(s, i)
}

/// The wire form of a session record.
pub open spec fn enc_game(v: GameView) -> Seq<u8> {
    l_g_players() + (enc_players(v.players) + (l_g_sid() + (enc_str(v.session_id) + (l_g_started() + (enc_bool(v.started) + (l_g_completed() + (enc_bool(v.completed) + (l_end()))))))))
}

/// Decodes a session record from the front of `s`.
pub open spec fn dec_game(s: Seq<u8>) -> Option<(GameView, Seq<u8>)> {
    match dec_lit(s, l_g_players()) {
        None => None,
        Some(s0) => {
            match dec_players(s0) {
                None => None,
                Some((x1, s1)) => {
                    match dec_lit(s1, l_g_sid()) {
                        None => None,
                        Some(s2) => {
                            match dec_str(s2) {
                                None => None,
                                Some((x3, s3)) => {
                                    match dec_lit(s3, l_g_started()) {
                                        None => None,
                                        Some(s4) => {
                                            match dec_bool(s4) {
                                                None => None,
                                                Some((x5, s5)) => {
                                                    match dec_lit(s5, l_g_completed()) {
                                                        None => None,
                                                        Some(s6) => {
                                                            match dec_bool(s6) {
                                                                None => None,
                                                                Some((x7, s7)) => {
                                                                    match dec_lit(s7, l_end()) {
                                                                        None => None,
                                                                        Some(s8) => {
                                                                            Some((GameView { players: x1, session_id: x3, started: x5, completed: x7 }, s8))
                                                                        },
                                                                    }
                                                                },
                                                            }
                                                        },
                                                    }
                                                },
                                            }
                                        },
                                    }
                                },
                            }
                        },
                    }
                },
            }
        },
    }
}

/// A session record decodes from its own encoding, leaving the rest.
pub proof fn lemma_dec_game(v: GameView, rest: Seq<u8>)
    requires
        game_fits(v),
    ensures
        dec_game(enc_game(v) + rest) == Some((v, rest)),
{
    let t8 = l_end();
    let t7 = enc_bool(v.completed) + (t8);
    let t6 = l_g_completed() + (t7);
    let t5 = enc_bool(v.started) + (t6);
    let t4 = l_g_started() + (t5);
    let t3 = enc_str(v.session_id) + (t4);
    let t2 = l_g_sid() + (t3);
    let t1 = enc_players(v.players) + (t2);
    let t0 = l_g_players() + (t1);
    assert(enc_game(v) == t0);
    seq_assoc(l_g_players(), t1, rest);
    lemma_dec_lit(l_g_players(), t1 + rest);
    seq_assoc(enc_players(v.players), t2, rest);
    lemma_dec_players(v.players, t2 + rest);
    seq_assoc(l_g_sid(), t3, rest);
    lemma_dec_lit(l_g_sid(), t3 + rest);
    seq_assoc(enc_str(v.session_id), t4, rest);
    lemma_dec_str_enc_str(v.session_id, t4 + rest);
    seq_assoc(l_g_started(), t5, rest);
    lemma_dec_lit(l_g_started(), t5 + rest);
    seq_assoc(enc_bool(v.started), t6, rest);
    lemma_dec_bool_enc_bool(v.started, t6 + rest);
    seq_assoc(l_g_completed(), t7, rest);
    lemma_dec_lit(l_g_completed(), t7 + rest);
    seq_assoc(enc_bool(v.completed), t8, rest);
    lemma_dec_bool_enc_bool(v.completed, t8 + rest);
    lemma_dec_lit(l_end(), rest);
    assert((GameView { players: v.players, session_id: v.session_id, started: v.started, completed: v.completed }) =~= v);
}

/// Appends the wire form of a session record to `buf`.
pub fn encode_game(buf: &mut Vec<u8>, v: &NetworkedGame)
    ensures
        final(buf)@ == old(buf)@ + enc_game(v@),
{
    let ghost t8 = l_end();
    let ghost t7 = enc_bool(v.completed) + (t8);
    let ghost t6 = l_g_completed() + (t7);
    let ghost t5 = enc_bool(v.started) + (t6);
    let ghost t4 = l_g_started() + (t5);
    let ghost t3 = enc_str(v.session_id@) + (t4);
    let ghost t2 = l_g_sid() + (t3);
    let ghost t1 = enc_players(view_players(v.players)) + (t2);
    let ghost t0 = l_g_players() + (t1);
    proof {
        assert(enc_game(v@) == t0);
    }
    let ghost base = buf@;
    let ghost mut done: Seq<u8> = Seq::empty();
    proof {
        assert(base + done =~= base);
        assert(done + t0 =~= t0);
    }
    let l0 = l_g_players_vec();
    push_bytes(buf, &l0);
    proof {
        seq_assoc(base, done, l_g_players());
        seq_assoc(done, l_g_players(), t1);
        done = done + l_g_players();
    }
    encode_players(buf, &v.players);
    proof {
        seq_assoc(base, done, enc_players(view_players(v.players)));
        seq_assoc(done, enc_players(view_players(v.players)), t2);
        done = done + enc_players(view_players(v.players));
    }
    let l2 = l_g_sid_vec();
    push_bytes(buf, &l2);
    proof {
        seq_assoc(base, done, l_g_sid());
        seq_assoc(done, l_g_sid(), t3);
        done = done + l_g_sid();
    }
    push_str(buf, &v.session_id);
    proof {
        seq_assoc(base, done, enc_str(v.session_id@));
        seq_assoc(done, enc_str(v.session_id@), t4);
        done = done + enc_str(v.session_id@);
    }
    let l4 = l_g_started_vec();
    push_bytes(buf, &l4);
    proof {
        seq_assoc(base, done, l_g_started());
        seq_assoc(done, l_g_started(), t5);
        done = done + l_g_started();
    }
    push_bool(buf, v.started);
    proof {
        seq_assoc(base, done, enc_bool(v.started));
        seq_assoc(done, enc_bool(v.started), t6);
        done = done + enc_bool(v.started);
    }
    let l6 = l_g_completed_vec();
    push_bytes(buf, &l6);
    proof {
        seq_assoc(base, done, l_g_completed());
        seq_assoc(done, l_g_completed(), t7);
        done = done + l_g_completed();
    }
    push_bool(buf, v.completed);
    proof {
        seq_assoc(base, done, enc_bool(v.completed));
        seq_assoc(done, enc_bool(v.completed), t8);
        done = done + enc_bool(v.completed);
    }
    let l8 = l_end_vec();
    push_bytes(buf, &l8);
    proof {
        seq_assoc(base, done, l_end());
        done = done + l_end();
    }
}

/// Reads a session record at position `i` of `s`, as [`dec_game`] describes.
pub fn parse_game(s: &Vec<u8>, i: usize) -> (r: Option<(NetworkedGame, usize)>)
    requires
        i <= s.len(),
    ensures
        match r {
            Some(p) => i <= p.1 <= s.len() && dec_game(s@.skip(i as int)) == Some(
                (p.0@, s@.skip(p.1 as int)),
            ),
            None => dec_game(s@.skip(i as int)) is None,
        },
{
    let l0 = l_g_players_vec();
    let j0 = match parse_lit(s, i, &l0) {
        Some(j) => j,
        None => {
            return None;
        },
    };
    let (v1, j1) = match parse_players(s, j0) {
        Some(p) => p,
        None => {
            return None;
        },
    };
    let l2 = l_g_sid_vec();
    let j2 = match parse_lit(s, j1, &l2) {
        Some(j) => j,
        None => {
            return None;
        },
    };
    let (v3, j3) = match parse_string(s, j2) {
        Some(p) => p,
        None => {
            return None;
        },
    };
    let l4 = l_g_started_vec();
    let j4 = match parse_lit(s, j3, &l4) {
        Some(j) => j,
        None => {
            return None;
        },
    };
    let (v5, j5) = match parse_bool(s, j4) {
        Some(p) => p,
        None => {
            return None;
        },
    };
    let l6 = l_g_completed_vec();
    let j6 = match parse_lit(s, j5, &l6) {
        Some(j) => j,
        None => {
            return None;
        },
    };
    let (v7, j7) = match parse_bool(s, j6) {
        Some(p) => p,
        None => {
            return None;
        },
    };
    let l8 = l_end_vec();
    let j8 = match parse_lit(s, j7, &l8) {
        Some(j) => j,
        None => {
            return None;
        },
    };
    let ret = NetworkedGame { players: v1, session_id: v3, started: v5, completed: v7 };
    proof {
        assert(ret@ =~= GameView { players: view_players(v1), session_id: v3@, started: v5, completed: v7 });
    }
    Some((ret, j8))
}

/// A structured response of the dispatcher, before encoding.
#[derive(Debug, PartialEq)]
pub enum Response {
    /// Reply to `newgame`: the fresh session identifier.
    GameId(Vec<u8>),
    /// Reply to `listgames`: identifier and player count of every session
    /// that has not started.
    Games(Vec<(Vec<u8>, usize)>),
    /// Reply to a successful `joingame`.
    Joined { game_id: Vec<u8>, started: bool, count: usize },
    /// Reply to `gameinfo`: identifier and player count of one session.
    GameSummary { game_id: Vec<u8>, count: usize },
    /// Reply to `sendposition` and `getworld`: the whole session.
    World(NetworkedGame),
    /// The session has no room left.
    ErrorGameFull(Vec<u8>),
    /// No session has the given identifier.
    ErrorInvalidGame(Vec<u8>),
    /// The command is unknown or its payload is malformed.
    ErrorInvalidCommand,
}

/// Mathematical view of a [`Response`].
#[verifier::ext_equal]
pub enum ResponseView {
    GameId(Seq<u8>),
    Games(Seq<(Seq<u8>, nat)>),
    Joined { game_id: Seq<u8>, started: bool, count: nat },
    GameSummary { game_id: Seq<u8>, count: nat },
    World(GameView),
    ErrorGameFull(Seq<u8>),
    ErrorInvalidGame(Seq<u8>),
    ErrorInvalidCommand,
}

impl View for Response {
    type V = ResponseView;

    open spec fn view(&self) -> ResponseView {
        match self {
            Response::GameId(id) => ResponseView::GameId(id@),
            Response::Games(l) => ResponseView::Games(
                l@.map_values(|p: (Vec<u8>, usize)| (p.0@, p.1 as nat)),
            ),
            Response::Joined { game_id, started, count } => ResponseView::Joined {
                game_id: game_id@,
                started: *started,
                count: *count as nat,
            },
            Response::GameSummary { game_id, count } => ResponseView::GameSummary {
                game_id: game_id@,
                count: *count as nat,
            },
            Response::World(g) => ResponseView::World(g@),
            Response::ErrorGameFull(id) => ResponseView::ErrorGameFull(id@),
            Response::ErrorInvalidGame(id) => ResponseView::ErrorInvalidGame(id@),
            Response::ErrorInvalidCommand => ResponseView::ErrorInvalidCommand,
        }
    }
}

/// A decimal count wrapped in quotes, as the listing entries carry it.
pub open spec fn enc_nat_str(n: nat) -> Seq<u8> {
    seq![34u8] + enc_nat(n) + seq![34u8]
}

/// One listing entry: a bracketed pair of the identifier and the count.
pub open spec fn enc_pair(id: Seq<u8>, n: nat) -> Seq<u8> {
    seq![91u8] + enc_str(id) + seq![44u8] + enc_nat_str(n) + seq![93u8]
}

/// The listing after its opening bracket: entries separated by commas,
/// then the closing bracket.
pub open spec fn enc_pairs_tail(l: Seq<(Seq<u8>, nat)>) -> Seq<u8>
    decreases l.len(),
{
    if l.len() == 0 {
        seq![93u8]
    } else {
        seq![44u8] + enc_pair(l[0].0, l[0].1) + enc_pairs_tail(l.skip(1))
    }
}

/// The listing after its opening bracket.
pub open spec fn enc_pairs(l: Seq<(Seq<u8>, nat)>) -> Seq<u8> {
    if l.len() == 0 {
        seq![93u8]
    } else {
        enc_pair(l[0].0, l[0].1) + enc_pairs_tail(l.skip(1))
    }
}

/// The text of the `joingame` success message.
pub open spec fn joined_msg(started: bool, id: Seq<u8>, n: nat) -> Seq<u8> {
    m_joined() + (if started {
        m_started()
    } else {
        m_not_started()
    }) + m_game() + id + m_with() + enc_nat(n) + m_players()
}

/// The text of the capacity error message.
pub open spec fn full_msg(id: Seq<u8>) -> Seq<u8> {
    m_game_pfx() + id + m_is_full()
}

/// The text of the unknown-session error message.
pub open spec fn invalid_game_msg(id: Seq<u8>) -> Seq<u8> {
    m_invalid_game() + id
}

/// The wire form of a response.
pub open spec fn enc_response(r: ResponseView) -> Seq<u8> {
    match r {
        ResponseView::GameId(id) => l_r_gameid() + enc_str(id) + l_end(),
        ResponseView::Games(l) => l_r_games() + enc_pairs(l) + l_end(),
        ResponseView::Joined { game_id, started, count } => l_r_info() + enc_str(
            joined_msg(started, game_id, count),
        ) + l_end(),
        ResponseView::GameSummary { game_id, count } => l_r_game() + enc_str(game_id)
            + seq![44u8] + enc_nat_str(count) + l_rbrack_end(),
        ResponseView::World(g) => enc_game(g),
        ResponseView::ErrorGameFull(id) => l_r_error() + enc_str(full_msg(id)) + l_end(),
        ResponseView::ErrorInvalidGame(id) => l_r_error() + enc_str(invalid_game_msg(id))
            + l_end(),
        ResponseView::ErrorInvalidCommand => l_r_error() + enc_str(m_invalid_cmd()) + l_end(),
    }
}

/// Appends the quoted decimal count to `buf`.
fn push_nat_str(buf: &mut Vec<u8>, n: usize)
    ensures
        final(buf)@ == old(buf)@ + enc_nat_str(n as nat),
{
    buf.push(34);
    push_u64_digits(buf, n as u64);
    buf.push(34);
    proof {
        assert(buf@ =~= old(buf)@ + enc_nat_str(n as nat));
    }
}

/// Appends the listing (after its opening bracket) to `buf`.
fn push_pairs(buf: &mut Vec<u8>, l: &Vec<(Vec<u8>, usize)>)
    ensures
        final(buf)@ == old(buf)@ + enc_pairs(
            l@.map_values(|p: (Vec<u8>, usize)| (p.0@, p.1 as nat)),
        ),
{
    let ghost vl = l@.map_values(|p: (Vec<u8>, usize)| (p.0@, p.1 as nat));
    let ghost base = buf@;
    if l.len() == 0 {
        buf.push(93);
        proof {
            assert(buf@ =~= base + enc_pairs(vl));
        }
        return ;
    }
    push_pair(buf, &l[0]);
    proof {
        assert(vl[0] == (l@[0].0@, l@[0].1 as nat));
        seq_assoc(base, enc_pair(vl[0].0, vl[0].1), enc_pairs_tail(vl.skip(1)));
    }
    let mut k: usize = 1;
    while k < l.len()
        invariant
            1 <= k <= l.len(),
            vl == l@.map_values(|p: (Vec<u8>, usize)| (p.0@, p.1 as nat)),
            vl.len() == l.len(),
            base + enc_pairs(vl) == buf@ + enc_pairs_tail(vl.skip(k as int)),
        decreases l.len() - k,
    {
        let ghost pre = buf@;
        buf.push(44);
        push_pair(buf, &l[k]);
        proof {
            assert(vl[k as int] == (l@[k as int].0@, l@[k as int].1 as nat));
            let tk = vl.skip(k as int);
            assert(tk[0] == vl[k as int]);
            assert(tk.skip(1) =~= vl.skip(k + 1));
            assert(enc_pairs_tail(tk) == seq![44u8] + enc_pair(vl[k as int].0, vl[k as int].1)
                + enc_pairs_tail(vl.skip(k + 1)));
            assert(buf@ =~= pre + seq![44u8] + enc_pair(vl[k as int].0, vl[k as int].1));
            assert(pre + enc_pairs_tail(tk) =~= buf@ + enc_pairs_tail(vl.skip(k + 1)));
        }
        k = k + 1;
    }
    buf.push(93);
    proof {
        assert(vl.skip(l@.len() as int) =~= Seq::<(Seq<u8>, nat)>::empty());
        assert(enc_pairs_tail(Seq::<(Seq<u8>, nat)>::empty()) == seq![93u8]);
        let pre = buf@.take(buf@.len() - 1);
        assert(pre + enc_pairs_tail(vl.skip(l@.len() as int)) =~= buf@);
        assert(buf@ =~= base + enc_pairs(vl));
    }
}

/// Appends one listing entry to `buf`.
fn push_pair(buf: &mut Vec<u8>, p: &(Vec<u8>, usize))
    ensures
        final(buf)@ == old(buf)@ + enc_pair(p.0@, p.1 as nat),
{
    buf.push(91);
    push_str(buf, &p.0);
    buf.push(44);
    push_nat_str(buf, p.1);
    buf.push(93);
    proof {
        assert(buf@ =~= old(buf)@ + enc_pair(p.0@, p.1 as nat));
    }
}

/// Encodes a response into its wire form.
pub fn encode_response(r: &Response) -> (v: Vec<u8>)
    ensures
        v@ == enc_response(r@),
{
    let mut v: Vec<u8> = Vec::new();
    match r {
        Response::GameId(id) => {
            let l = l_r_gameid_vec();
            push_bytes(&mut v, &l);
            push_str(&mut v, id);
            let e = l_end_vec();
            push_bytes(&mut v, &e);
            proof {
                assert(v@ =~= enc_response(r@));
            }
        },
        Response::Games(list) => {
            let l = l_r_games_vec();
            push_bytes(&mut v, &l);
            push_pairs(&mut v, list);
            let e = l_end_vec();
            push_bytes(&mut v, &e);
            proof {
                assert(v@ =~= enc_response(r@));
            }
        },
        Response::Joined { game_id, started, count } => {
            let mut msg: Vec<u8> = Vec::new();
            let mj = m_joined_vec();
            push_bytes(&mut msg, &mj);
            if *started {
                let ms = m_started_vec();
                push_bytes(&mut msg, &ms);
            } else {
                let ms = m_not_started_vec();
                push_bytes(&mut msg, &ms);
            }
            let mg = m_game_vec();
            push_bytes(&mut msg, &mg);
            push_bytes(&mut msg, game_id);
            let mw = m_with_vec();
            push_bytes(&mut msg, &mw);
            push_u64_digits(&mut msg, *count as u64);
            let mp = m_players_vec();
            push_bytes(&mut msg, &mp);
            proof {
                assert(msg@ =~= joined_msg(*started, game_id@, *count as nat));
            }
            let l = l_r_info_vec();
            push_bytes(&mut v, &l);
            push_str(&mut v, &msg);
            let e = l_end_vec();
            push_bytes(&mut v, &e);
            proof {
                assert(v@ =~= enc_response(r@));
            }
        },
        Response::GameSummary { game_id, count } => {
            let l = l_r_game_vec();
            push_bytes(&mut v, &l);
            push_str(&mut v, game_id);
            v.push(44);
            push_nat_str(&mut v, *count);
            let e = l_rbrack_end_vec();
            push_bytes(&mut v, &e);
            proof {
                assert(v@ =~= enc_response(r@));
            }
        },
        Response::World(g) => {
            encode_game(&mut v, g);
            proof {
                assert(v@ =~= enc_response(r@));
            }
        },
        Response::ErrorGameFull(id) => {
            let mut msg: Vec<u8> = Vec::new();
            let mg = m_game_pfx_vec();
            push_bytes(&mut msg, &mg);
            push_bytes(&mut msg, id);
            let mf = m_is_full_vec();
            push_bytes(&mut msg, &mf);
            proof {
                assert(msg@ =~= full_msg(id@));
            }
            let l = l_r_error_vec();
            push_bytes(&mut v, &l);
            push_str(&mut v, &msg);
            let e = l_end_vec();
            push_bytes(&mut v, &e);
            proof {
                assert(v@ =~= enc_response(r@));
            }
        },
        Response::ErrorInvalidGame(id) => {
            let mut msg: Vec<u8> = Vec::new();
            let mg = m_invalid_game_vec();
            push_bytes(&mut msg, &mg);
            push_bytes(&mut msg, id);
            proof {
                assert(msg@ =~= invalid_game_msg(id@));
            }
            let l = l_r_error_vec();
            push_bytes(&mut v, &l);
            push_str(&mut v, &msg);
            let e = l_end_vec();
            push_bytes(&mut v, &e);
            proof {
                assert(v@ =~= enc_response(r@));
            }
        },
        Response::ErrorInvalidCommand => {
            let l = l_r_error_vec();
            push_bytes(&mut v, &l);
            let m = m_invalid_cmd_vec();
            push_str(&mut v, &m);
            let e = l_end_vec();
            push_bytes(&mut v, &e);
            proof {
                assert(v@ =~= enc_response(r@));
            }
        },
    }
    v
}

/// Decodes a whole buffer as a command request: nothing may follow it.
pub open spec fn dec_request_full(s: Seq<u8>) -> Option<RequestWireView> {
    match dec_request(s) {
        Some((r, rest)) => if rest.len() == 0 {
            Some(r)
        } else {
            None
        },
        None => None,
    }
}

/// Reads a whole buffer as a command request, as [`dec_request_full`]
/// describes.
pub fn parse_request_full(s: &Vec<u8>) -> (r: Option<RequestWire>)
    ensures
        match r {
            Some(q) => dec_request_full(s@) == Some(q@),
            None => dec_request_full(s@) is None,
        },
{
    proof {
        assert(s@.skip(0) =~= s@);
    }
    match parse_request(s, 0) {
        Some((q, j)) => {
            if j == s.len() {
                proof {
                    assert(s@.skip(j as int).len() == 0);
                }
                Some(q)
            } else {
                proof {
                    assert(s@.skip(j as int).len() != 0);
                }
                None
            }
        },
        None => None,
    }
}

/// A whole-buffer request decodes from its own encoding.
pub proof fn lemma_dec_request_full(v: RequestWireView)
    ensures
        dec_request_full(enc_request(v)) == Some(v),
{
    lemma_dec_request(v, Seq::empty());
    assert(enc_request(v) + Seq::<u8>::empty() =~= enc_request(v));
}

/// Decodes a whole buffer as a session record: nothing may follow it.
pub open spec fn dec_game_full(s: Seq<u8>) -> Option<GameView> {
    match dec_game(s) {
        Some((g, rest)) => if rest.len() == 0 {
            Some(g)
        } else {
            None
        },
        None => None,
    }
}

/// Reads a whole buffer as a session record, as [`dec_game_full`]
/// describes.
pub fn parse_game_full(s: &Vec<u8>) -> (r: Option<NetworkedGame>)
    ensures
        match r {
            Some(q) => dec_game_full(s@) == Some(q@),
            None => dec_game_full(s@) is None,
        },
{
    proof {
        assert(s@.skip(0) =~= s@);
    }
    match parse_game(s, 0) {
        Some((q, j)) => {
            if j == s.len() {
                proof {
                    assert(s@.skip(j as int).len() == 0);
                }
                Some(q)
            } else {
                proof {
                    assert(s@.skip(j as int).len() != 0);
                }
                None
            }
        },
        None => None,
    }
}

/// A whole-buffer session record decodes from its own encoding.
pub proof fn lemma_dec_game_full(v: GameView)
    requires
        game_fits(v),
    ensures
        dec_game_full(enc_game(v)) == Some(v),
{
    lemma_dec_game(v, Seq::empty());
    assert(enc_game(v) + Seq::<u8>::empty() =~= enc_game(v));
}

/// Decodes a whole buffer as a player record: nothing may follow it.
pub open spec fn dec_player_full(s: Seq<u8>) -> Option<PlayerView> {
    match dec_player(s) {
        Some((p, rest)) => if rest.len() == 0 {
            Some(p)
        } else {
            None
        },
        None => None,
    }
}

/// Reads a whole buffer as a player record, as [`dec_player_full`]
/// describes.
pub fn parse_player_full(s: &Vec<u8>) -> (r: Option<Player>)
    ensures
        match r {
            Some(q) => dec_player_full(s@) == Some(q@),
            None => dec_player_full(s@) is None,
        },
{
    proof {
        assert(s@.skip(0) =~= s@);
    }
    match parse_player(s, 0) {
        Some((q, j)) => {
            if j == s.len() {
                proof {
                    assert(s@.skip(j as int).len() == 0);
                }
                Some(q)
            } else {
                proof {
                    assert(s@.skip(j as int).len() != 0);
                }
                None
            }
        },
        None => None,
    }
}

/// A whole-buffer player record decodes from its own encoding: the
/// round trip over the wire reproduces the record.
pub proof fn lemma_dec_player_full(v: PlayerView)
    requires
        player_fits(v),
    ensures
        dec_player_full(enc_player(v)) == Some(v),
{
    lemma_dec_player(v, Seq::empty());
    assert(enc_player(v) + Seq::<u8>::empty() =~= enc_player(v));
}

/// Encodes a player record into its wire form.
pub fn encode_player_bytes(p: &Player) -> (v: Vec<u8>)
    ensures
        v@ == enc_player(p@),
{
    let mut v: Vec<u8> = Vec::new();
    encode_player(&mut v, p);
    proof {
        assert(v@ =~= enc_player(p@));
    }
    v
}

/// Encodes a session record into its wire form.
pub fn encode_game_bytes(g: &NetworkedGame) -> (v: Vec<u8>)
    ensures
        v@ == enc_game(g@),
{
    let mut v: Vec<u8> = Vec::new();
    encode_game(&mut v, g);
    proof {
        assert(v@ =~= enc_game(g@));
    }
    v
}

/// Encodes a command request into its wire form.
pub fn encode_request_bytes(r: &RequestWire) -> (v: Vec<u8>)
    ensures
        v@ == enc_request(r@),
{
    let mut v: Vec<u8> = Vec::new();
    encode_request(&mut v, r);
    proof {
        assert(v@ =~= enc_request(r@));
    }
    v
}

/// Decodes a whole buffer as a `newgame` reply, yielding the fresh
/// session identifier.
pub open spec fn dec_game_id_reply(s: Seq<u8>) -> Option<Seq<u8>> {
    match dec_lit(s, l_r_gameid()) {
        None => None,
        Some(s0) => match dec_str(s0) {
            None => None,
            Some((id, s1)) => match dec_lit(s1, l_end()) {
                None => None,
                Some(s2) => if s2.len() == 0 {
                    Some(id)
                } else {
                    None
                },
            },
        },
    }
}

/// Reads a whole buffer as a `newgame` reply, as [`dec_game_id_reply`]
/// describes.
pub fn parse_game_id_reply(s: &Vec<u8>) -> (r: Option<Vec<u8>>)
    ensures
        match r {
            Some(id) => dec_game_id_reply(s@) == Some(id@),
            None => dec_game_id_reply(s@) is None,
        },
{
    proof {
        assert(s@.skip(0) =~= s@);
    }
    let l = l_r_gameid_vec();
    let j0 = match parse_lit(s, 0, &l) {
        Some(j) => j,
        None => {
            return None;
        },
    };
    let (id, j1) = match parse_string(s, j0) {
        Some(p) => p,
        None => {
            return None;
        },
    };
    let e = l_end_vec();
    let j2 = match parse_lit(s, j1, &e) {
        Some(j) => j,
        None => {
            return None;
        },
    };
    if j2 == s.len() {
        proof {
            assert(s@.skip(j2 as int).len() == 0);
        }
        Some(id)
    } else {
        proof {
            assert(s@.skip(j2 as int).len() != 0);
        }
        None
    }
}

/// A `newgame` reply decodes back to the identifier it was built from.
pub proof fn lemma_dec_game_id_reply(id: Seq<u8>)
    ensures
        dec_game_id_reply(enc_response(ResponseView::GameId(id))) == Some(id),
{
    let s = enc_response(ResponseView::GameId(id));
    seq_assoc(l_r_gameid(), enc_str(id), l_end());
    lemma_dec_lit(l_r_gameid(), enc_str(id) + l_end());
    lemma_dec_str_enc_str(id, l_end());
    lemma_dec_lit(l_end(), Seq::empty());
    assert(l_end() + Seq::<u8>::empty() =~= l_end());
}

} // verus!
