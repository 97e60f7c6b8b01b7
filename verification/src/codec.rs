//! Wire codec for the command protocol: JSON-shaped messages over bytes.
//!
//! Every message kind has a spec-level encoder that defines its canonical
//! byte form and a spec-level decoder that accepts exactly those forms.
//! The executable encoders and parsers are proved equal to the spec
//! functions, and round-trip lemmas show that decoding an encoding gives
//! the original value back.

use vstd::prelude::*;
use vstd::seq_lib::lemma_seq_skip_of_skip;
use crate::num::{dec_int, enc_int, is_digit, lemma_concat_parts, lemma_dec_int_enc_int,
    parse_i64, push_i64};
use crate::model::{Direction, GameView, NetworkedGame, Player, PlayerView, Position, PositionView,
    Potion, PotionType, PotionView, view_ate, view_players};

verus! {

/// Decodes an exact literal from the front of `s`, yielding the remainder.
pub open spec fn dec_lit(s: Seq<u8>, l: Seq<u8>) -> Option<Seq<u8>> {
    if l.len() <= s.len() && s.take(l.len() as int) == l {
        Some(s.skip(l.len() as int))
    } else {
        None
    }
}

/// A literal decodes from its own encoding, leaving the rest.
pub proof fn lemma_dec_lit(l: Seq<u8>, rest: Seq<u8>)
    ensures
        dec_lit(l + rest, l) == Some(rest),
{
    lemma_concat_parts(l, rest);
}

/// Appends all of `b` to `buf`.
pub fn push_bytes(buf: &mut Vec<u8>, b: &Vec<u8>)
    ensures
        final(buf)@ == old(buf)@ + b@,
{
    let mut k: usize = 0;
    while k < b.len()
        invariant
            k <= b.len(),
            buf@ == old(buf)@ + b@.take(k as int),
        decreases b.len() - k,
    {
        buf.push(b[k]);
        k = k + 1;
        proof {
            assert(buf@ =~= old(buf)@ + b@.take(k as int));
        }
    }
    proof {
        assert(old(buf)@ + b@.take(b@.len() as int) =~= old(buf)@ + b@);
    }
}

/// Reads the exact literal `l` at position `i` of `s`, as [`dec_lit`]
/// describes.
pub fn parse_lit(s: &Vec<u8>, i: usize, l: &Vec<u8>) -> (r: Option<usize>)
    requires
        i <= s.len(),
    ensures
        match r {
            Some(j) => i <= j <= s.len() && dec_lit(s@.skip(i as int), l@) == Some(
                s@.skip(j as int),
            ),
            None => dec_lit(s@.skip(i as int), l@) is None,
        },
{
    let ghost sub = s@.skip(i as int);
    if s.len() - i < l.len() {
        return None;
    }
    let mut k: usize = 0;
    while k < l.len()
        invariant
            i <= s.len(),
            l.len() <= s.len() - i,
            k <= l.len(),
            sub == s@.skip(i as int),
            forall|t: int| 0 <= t < k ==> sub[t] == l@[t],
        decreases l.len() - k,
    {
        if s[i + k] != l[k] {
            proof {
                assert(sub.take(l@.len() as int)[k as int] != l@[k as int]);
            }
            return None;
        }
        k = k + 1;
    }
    proof {
        assert(sub.take(l@.len() as int) =~= l@);
        lemma_seq_skip_of_skip(s@, i as int, i + l@.len());
        assert(sub.skip(l@.len() as int) =~= s@.skip(i + l@.len()));
    }
    Some(i + l.len())
}

/// How one byte is written inside a quoted string: quotes and backslashes
/// get a backslash escape, everything else stands for itself.
pub open spec fn esc_byte(b: u8) -> Seq<u8> {
    if b == 34 || b == 92 {
        seq![92u8, b]
    } else {
        seq![b]
    }
}

/// The escaped form of a byte string.
pub open spec fn esc(s: Seq<u8>) -> Seq<u8>
    decreases s.len(),
{
    if s.len() == 0 {
        Seq::empty()
    } else {
        esc_byte(s[0]) + esc(s.skip(1))
    }
}

/// A quoted, escaped string.
pub open spec fn enc_str(s: Seq<u8>) -> Seq<u8> {
    seq![34u8] + esc(s) + seq![34u8]
}

/// Escaping distributes over concatenation.
pub proof fn lemma_esc_concat(a: Seq<u8>, b: Seq<u8>)
    ensures
        esc(a + b) == esc(a) + esc(b),
    decreases a.len(),
{
    if a.len() == 0 {
        assert(a + b =~= b);
        assert(esc(a) + esc(b) =~= esc(b));
    } else {
        lemma_esc_concat(a.skip(1), b);
        assert((a + b).skip(1) =~= a.skip(1) + b);
        assert(esc(a + b) == esc_byte(a[0]) + (esc(a.skip(1)) + esc(b)));
        assert(esc_byte(a[0]) + (esc(a.skip(1)) + esc(b)) =~= (esc_byte(a[0]) + esc(a.skip(1)))
            + esc(b));
    }
}

/// Decodes the body of a quoted string after its opening quote, up to and
/// including the closing quote.
pub open spec fn dec_str_body(s: Seq<u8>) -> Option<(Seq<u8>, Seq<u8>)>
    decreases s.len(),
{
    if s.len() == 0 {
        None
    } else if s[0] == 34 {
        Some((Seq::empty(), s.skip(1)))
    } else if s[0] == 92 {
        if s.len() < 2 || !(s[1] == 34 || s[1] == 92) {
            None
        } else {
            match dec_str_body(s.skip(2)) {
                Some(vr) => Some((seq![s[1]] + vr.0, vr.1)),
                None => None,
            }
        }
    } else {
        match dec_str_body(s.skip(1)) {
            Some(vr) => Some((seq![s[0]] + vr.0, vr.1)),
            None => None,
        }
    }
}

/// Decodes a quoted string from the front of `s`.
pub open spec fn dec_str(s: Seq<u8>) -> Option<(Seq<u8>, Seq<u8>)> {
    if s.len() > 0 && s[0] == 34 {
        dec_str_body(s.skip(1))
    } else {
        None
    }
}

/// The body decoder undoes escaping.
pub proof fn lemma_dec_str_body(v: Seq<u8>, rest: Seq<u8>)
    ensures
        dec_str_body(esc(v) + seq![34u8] + rest) == Some((v, rest)),
    decreases v.len(),
{
    let s = esc(v) + seq![34u8] + rest;
    if v.len() == 0 {
        assert(s =~= seq![34u8] + rest);
        assert(s[0] == 34);
        assert(s.skip(1) =~= rest);
    } else {
        lemma_dec_str_body(v.skip(1), rest);
        let tail = esc(v.skip(1)) + seq![34u8] + rest;
        assert(esc(v) == esc_byte(v[0]) + esc(v.skip(1)));
        if v[0] == 34 || v[0] == 92 {
            assert(s =~= seq![92u8, v[0]] + tail);
            assert(s[0] == 92 && s[1] == v[0]);
            assert(s.skip(2) =~= tail);
            assert(dec_str_body(s) == Some((seq![v[0]] + v.skip(1), rest)));
            assert(seq![v[0]] + v.skip(1) =~= v);
        } else {
            assert(s =~= seq![v[0]] + tail);
            assert(s[0] == v[0]);
            assert(s[0] != 34 && s[0] != 92);
            assert(s.skip(1) =~= tail);
            assert(dec_str_body(s) == Some((seq![v[0]] + v.skip(1), rest)));
            assert(seq![v[0]] + v.skip(1) =~= v);
        }
    }
}

/// A quoted string decodes from its own encoding, leaving the rest.
pub proof fn lemma_dec_str_enc_str(v: Seq<u8>, rest: Seq<u8>)
    ensures
        dec_str(enc_str(v) + rest) == Some((v, rest)),
{
    let s = enc_str(v) + rest;
    assert(s[0] == 34);
    assert(s.skip(1) =~= esc(v) + seq![34u8] + rest);
    lemma_dec_str_body(v, rest);
}

/// Appends the quoted, escaped form of `b` to `buf`.
pub fn push_str(buf: &mut Vec<u8>, b: &Vec<u8>)
    ensures
        final(buf)@ == old(buf)@ + enc_str(b@),
{
    buf.push(34);
    let mut k: usize = 0;
    while k < b.len()
        invariant
            k <= b.len(),
            buf@ == old(buf)@ + seq![34u8] + esc(b@.take(k as int)),
        decreases b.len() - k,
    {
        let c = b[k];
        if c == 34 || c == 92 {
            buf.push(92);
        }
        buf.push(c);
        k = k + 1;
        proof {
            assert(b@.take(k as int) =~= b@.take(k - 1) + seq![c]);
            lemma_esc_concat(b@.take(k - 1), seq![c]);
            assert(seq![c].skip(1) =~= Seq::<u8>::empty());
            assert(esc(seq![c]) == esc_byte(c) + esc(Seq::<u8>::empty()));
            assert(esc_byte(c) + esc(Seq::<u8>::empty()) =~= esc_byte(c));
            assert(buf@ =~= old(buf)@ + seq![34u8] + esc(b@.take(k as int)));
        }
    }
    buf.push(34);
    proof {
        assert(b@.take(b@.len() as int) =~= b@);
        assert(buf@ =~= old(buf)@ + enc_str(b@));
    }
}

/// Whether the chained decoding of the string body at `rem`, prefixed by
/// the bytes already gathered in `acc`, agrees with decoding at `orig`.
pub open spec fn str_body_chain(orig: Seq<u8>, acc: Seq<u8>, rem: Seq<u8>) -> bool {
    dec_str_body(orig) == match dec_str_body(rem) {
        Some(vr) => Some((acc + vr.0, vr.1)),
        None => None::<(Seq<u8>, Seq<u8>)>,
    }
}

/// Reads a quoted string at position `i` of `s`, as [`dec_str`]
/// describes: the unescaped contents and the position after the closing
/// quote.
pub fn parse_string(s: &Vec<u8>, i: usize) -> (r: Option<(Vec<u8>, usize)>)
    requires
        i <= s.len(),
    ensures
        match r {
            Some(p) => i <= p.1 <= s.len() && dec_str(s@.skip(i as int)) == Some(
                (p.0@, s@.skip(p.1 as int)),
            ),
            None => dec_str(s@.skip(i as int)) is None,
        },
{
    if i >= s.len() || s[i] != 34 {
        return None;
    }
    let ghost body = s@.skip(i + 1);
    proof {
        lemma_seq_skip_of_skip(s@, i as int, i + 1);
        assert(s@.skip(i as int).skip(1) =~= body);
    }
    let mut acc: Vec<u8> = Vec::new();
    let mut j = i + 1;
    while j < s.len()
        invariant
            i + 1 <= j <= s.len(),
            body == s@.skip(i + 1),
            dec_str(s@.skip(i as int)) == dec_str_body(body),
            str_body_chain(body, acc@, s@.skip(j as int)),
        decreases s.len() - j,
    {
        let ghost rem = s@.skip(j as int);
        let c = s[j];
        proof {
            assert(rem[0] == c);
            lemma_seq_skip_of_skip(s@, j as int, j + 1);
            assert(rem.skip(1) =~= s@.skip(j + 1));
        }
        if c == 34 {
            proof {
                assert(dec_str_body(rem) == Some((Seq::<u8>::empty(), s@.skip(j + 1))));
                assert(acc@ + Seq::<u8>::empty() =~= acc@);
            }
            return Some((acc, j + 1));
        } else if c == 92 {
            if j + 1 >= s.len() {
                proof {
                    assert(rem.len() < 2);
                    assert(dec_str_body(rem) is None);
                }
                return None;
            }
            let d = s[j + 1];
            proof {
                assert(rem[1] == d);
            }
            if d != 34 && d != 92 {
                proof {
                    assert(dec_str_body(rem) is None);
                }
                return None;
            }
            let ghost acc0 = acc@;
            acc.push(d);
            proof {
                lemma_seq_skip_of_skip(s@, j as int, j + 2);
                assert(rem.skip(2) =~= s@.skip(j + 2));
                assert(str_body_chain(body, acc@, s@.skip(j + 2))) by {
                    if dec_str_body(s@.skip(j + 2)) is Some {
                        let vr = dec_str_body(s@.skip(j + 2)).unwrap();
                        assert(dec_str_body(rem) == Some((seq![d] + vr.0, vr.1)));
                        assert(acc0.push(d) + vr.0 =~= acc0 + (seq![d] + vr.0));
                    } else {
                        assert(dec_str_body(rem) is None);
                    }
                }
            }
            j = j + 2;
        } else {
            let ghost acc0 = acc@;
            acc.push(c);
            proof {
                assert(str_body_chain(body, acc@, s@.skip(j + 1))) by {
                    if dec_str_body(s@.skip(j + 1)) is Some {
                        let vr = dec_str_body(s@.skip(j + 1)).unwrap();
                        assert(dec_str_body(rem) == Some((seq![c] + vr.0, vr.1)));
                        assert(acc0.push(c) + vr.0 =~= acc0 + (seq![c] + vr.0));
                    } else {
                        assert(dec_str_body(rem) is None);
                    }
                }
            }
            j = j + 1;
        }
    }
    proof {
        assert(s@.skip(j as int).len() == 0);
        assert(dec_str_body(s@.skip(j as int)) is None);
    }
    None
}

/// Bytes of `true`.
pub open spec fn l_true() -> Seq<u8> {
    seq![116u8, 114, 117, 101]
}

/// Bytes of `false`.
pub open spec fn l_false() -> Seq<u8> {
    seq![102u8, 97, 108, 115, 101]
}

/// The wire form of a boolean.
pub open spec fn enc_bool(b: bool) -> Seq<u8> {
    if b {
        l_true()
    } else {
        l_false()
    }
}

/// Decodes a boolean literal from the front of `s`.
pub open spec fn dec_bool(s: Seq<u8>) -> Option<(bool, Seq<u8>)> {
    if dec_lit(s, l_true()) is Some {
        Some((true, dec_lit(s, l_true()).unwrap()))
    } else if dec_lit(s, l_false()) is Some {
        Some((false, dec_lit(s, l_false()).unwrap()))
    } else {
        None
    }
}

/// A boolean decodes from its own encoding, leaving the rest.
#[verifier::rlimit(50)]
pub proof fn lemma_dec_bool_enc_bool(b: bool, rest: Seq<u8>)
    ensures
        dec_bool(enc_bool(b) + rest) == Some((b, rest)),
{
    let s = enc_bool(b) + rest;
    if b {
        lemma_dec_lit(l_true(), rest);
    } else {
        lemma_dec_lit(l_false(), rest);
        assert(dec_lit(s, l_true()) is None) by {
            if dec_lit(s, l_true()) is Some {
                assert(s.take(4)[0] == l_true()[0]);
                assert(s[0] == l_false()[0]);
            }
        }
    }
}

/// Appends the wire form of a boolean to `buf`.
pub fn push_bool(buf: &mut Vec<u8>, b: bool)
    ensures
        final(buf)@ == old(buf)@ + enc_bool(b),
{
    if b {
        buf.push(116);
        buf.push(114);
        buf.push(117);
        buf.push(101);
        proof {
            assert(buf@ =~= old(buf)@ + enc_bool(b));
        }
    } else {
        buf.push(102);
        buf.push(97);
        buf.push(108);
        buf.push(115);
        buf.push(101);
        proof {
            assert(buf@ =~= old(buf)@ + enc_bool(b));
        }
    }
}

/// Reads a boolean literal at position `i` of `s`, as [`dec_bool`]
/// describes.
pub fn parse_bool(s: &Vec<u8>, i: usize) -> (r: Option<(bool, usize)>)
    requires
        i <= s.len(),
    ensures
        match r {
            Some(p) => i <= p.1 <= s.len() && dec_bool(s@.skip(i as int)) == Some(
                (p.0, s@.skip(p.1 as int)),
            ),
            None => dec_bool(s@.skip(i as int)) is None,
        },
{
    let mut t: Vec<u8> = Vec::new();
    t.push(116);
    t.push(114);
    t.push(117);
    t.push(101);
    proof {
        assert(t@ =~= l_true());
    }
    match parse_lit(s, i, &t) {
        Some(j) => Some((true, j)),
        None => {
            let mut f: Vec<u8> = Vec::new();
            f.push(102);
            f.push(97);
            f.push(108);
            f.push(115);
            f.push(101);
            proof {
                assert(f@ =~= l_false());
            }
            match parse_lit(s, i, &f) {
                Some(j) => Some((false, j)),
                None => None,
            }
        },
    }
}

/// Bytes of `{"x":`.
pub open spec fn l_pos_x() -> Seq<u8> {
    seq![123u8, 34, 120, 34, 58]
}

/// The bytes of [`l_pos_x`] as a vector.
pub fn l_pos_x_vec() -> (v: Vec<u8>)
    ensures
        v@ == l_pos_x(),
{
    let mut v: Vec<u8> = Vec::new();
    v.push(123);
    v.push(34);
    v.push(120);
    v.push(34);
    v.push(58);
    proof {
        assert(v@ =~= l_pos_x());
    }
    v
}

/// Bytes of `,"y":`.
pub open spec fn l_pos_y() -> Seq<u8> {
    seq![44u8, 34, 121, 34, 58]
}

/// The bytes of [`l_pos_y`] as a vector.
pub fn l_pos_y_vec() -> (v: Vec<u8>)
    ensures
        v@ == l_pos_y(),
{
    let mut v: Vec<u8> = Vec::new();
    v.push(44);
    v.push(34);
    v.push(121);
    v.push(34);
    v.push(58);
    proof {
        assert(v@ =~= l_pos_y());
    }
    v
}

/// Bytes of `,"w":`.
pub open spec fn l_pos_w() -> Seq<u8> {
    seq![44u8, 34, 119, 34, 58]
}

/// The bytes of [`l_pos_w`] as a vector.
pub fn l_pos_w_vec() -> (v: Vec<u8>)
    ensures
        v@ == l_pos_w(),
{
    let mut v: Vec<u8> = Vec::new();
    v.push(44);
    v.push(34);
    v.push(119);
    v.push(34);
    v.push(58);
    proof {
        assert(v@ =~= l_pos_w());
    }
    v
}

/// Bytes of `,"h":`.
pub open spec fn l_pos_h() -> Seq<u8> {
    seq![44u8, 34, 104, 34, 58]
}

/// The bytes of [`l_pos_h`] as a vector.
pub fn l_pos_h_vec() -> (v: Vec<u8>)
    ensures
        v@ == l_pos_h(),
{
    let mut v: Vec<u8> = Vec::new();
    v.push(44);
    v.push(34);
    v.push(104);
    v.push(34);
    v.push(58);
    proof {
        assert(v@ =~= l_pos_h());
    }
    v
}

/// Bytes of `}`.
pub open spec fn l_end() -> Seq<u8> {
    seq![125u8]
}

/// The bytes of [`l_end`] as a vector.
pub fn l_end_vec() -> (v: Vec<u8>)
    ensures
        v@ == l_end(),
{
    let mut v: Vec<u8> = Vec::new();
    v.push(125);
    proof {
        assert(v@ =~= l_end());
    }
    v
}

/// Bytes of `{"up":`.
pub open spec fn l_dir_up() -> Seq<u8> {
    seq![123u8, 34, 117, 112, 34, 58]
}

/// The bytes of [`l_dir_up`] as a vector.
pub fn l_dir_up_vec() -> (v: Vec<u8>)
    ensures
        v@ == l_dir_up(),
{
    let mut v: Vec<u8> = Vec::new();
    v.push(123);
    v.push(34);
    v.push(117);
    v.push(112);
    v.push(34);
    v.push(58);
    proof {
        assert(v@ =~= l_dir_up());
    }
    v
}

/// Bytes of `,"down":`.
pub open spec fn l_dir_down() -> Seq<u8> {
    seq![44u8, 34, 100, 111, 119, 110, 34, 58]
}

/// The bytes of [`l_dir_down`] as a vector.
pub fn l_dir_down_vec() -> (v: Vec<u8>)
    ensures
        v@ == l_dir_down(),
{
    let mut v: Vec<u8> = Vec::new();
    v.push(44);
    v.push(34);
    v.push(100);
    v.push(111);
    v.push(119);
    v.push(110);
    v.push(34);
    v.push(58);
    proof {
        assert(v@ =~= l_dir_down());
    }
    v
}

/// Bytes of `,"left":`.
pub open spec fn l_dir_left() -> Seq<u8> {
    seq![44u8, 34, 108, 101, 102, 116, 34, 58]
}

/// The bytes of [`l_dir_left`] as a vector.
pub fn l_dir_left_vec() -> (v: Vec<u8>)
    ensures
        v@ == l_dir_left(),
{
    let mut v: Vec<u8> = Vec::new();
    v.push(44);
    v.push(34);
    v.push(108);
    v.push(101);
    v.push(102);
    v.push(116);
    v.push(34);
    v.push(58);
    proof {
        assert(v@ =~= l_dir_left());
    }
    v
}

/// Bytes of `,"right":`.
pub open spec fn l_dir_right() -> Seq<u8> {
    seq![44u8, 34, 114, 105, 103, 104, 116, 34, 58]
}

/// The bytes of [`l_dir_right`] as a vector.
pub fn l_dir_right_vec() -> (v: Vec<u8>)
    ensures
        v@ == l_dir_right(),
{
    let mut v: Vec<u8> = Vec::new();
    v.push(44);
    v.push(34);
    v.push(114);
    v.push(105);
    v.push(103);
    v.push(104);
    v.push(116);
    v.push(34);
    v.push(58);
    proof {
        assert(v@ =~= l_dir_right());
    }
    v
}

/// Bytes of `null`.
pub open spec fn l_null() -> Seq<u8> {
    seq![110u8, 117, 108, 108]
}

/// The bytes of [`l_null`] as a vector.
pub fn l_null_vec() -> (v: Vec<u8>)
    ensures
        v@ == l_null(),
{
    let mut v: Vec<u8> = Vec::new();
    v.push(110);
    v.push(117);
    v.push(108);
    v.push(108);
    proof {
        assert(v@ =~= l_null());
    }
    v
}

/// Bytes of `{"pos":`.
pub open spec fn l_po_pos() -> Seq<u8> {
    seq![123u8, 34, 112, 111, 115, 34, 58]
}

/// The bytes of [`l_po_pos`] as a vector.
pub fn l_po_pos_vec() -> (v: Vec<u8>)
    ensures
        v@ == l_po_pos(),
{
    let mut v: Vec<u8> = Vec::new();
    v.push(123);
    v.push(34);
    v.push(112);
    v.push(111);
    v.push(115);
    v.push(34);
    v.push(58);
    proof {
        assert(v@ =~= l_po_pos());
    }
    v
}

/// Bytes of `,"potion_type":`.
pub open spec fn l_po_type() -> Seq<u8> {
    seq![44u8, 34, 112, 111, 116, 105, 111, 110, 95, 116, 121, 112, 101, 34, 58]
}

/// The bytes of [`l_po_type`] as a vector.
pub fn l_po_type_vec() -> (v: Vec<u8>)
    ensures
        v@ == l_po_type(),
{
    let mut v: Vec<u8> = Vec::new();
    v.push(44);
    v.push(34);
    v.push(112);
    v.push(111);
    v.push(116);
    v.push(105);
    v.push(111);
    v.push(110);
    v.push(95);
    v.push(116);
    v.push(121);
    v.push(112);
    v.push(101);
    v.push(34);
    v.push(58);
    proof {
        assert(v@ =~= l_po_type());
    }
    v
}

/// Bytes of `"Health"`.
pub open spec fn l_health() -> Seq<u8> {
    seq![34u8, 72, 101, 97, 108, 116, 104, 34]
}

/// The bytes of [`l_health`] as a vector.
pub fn l_health_vec() -> (v: Vec<u8>)
    ensures
        v@ == l_health(),
{
    let mut v: Vec<u8> = Vec::new();
    v.push(34);
    v.push(72);
    v.push(101);
    v.push(97);
    v.push(108);
    v.push(116);
    v.push(104);
    v.push(34);
    proof {
        assert(v@ =~= l_health());
    }
    v
}

/// Bytes of `"Mana"`.
pub open spec fn l_mana() -> Seq<u8> {
    seq![34u8, 77, 97, 110, 97, 34]
}

/// The bytes of [`l_mana`] as a vector.
pub fn l_mana_vec() -> (v: Vec<u8>)
    ensures
        v@ == l_mana(),
{
    let mut v: Vec<u8> = Vec::new();
    v.push(34);
    v.push(77);
    v.push(97);
    v.push(110);
    v.push(97);
    v.push(34);
    proof {
        assert(v@ =~= l_mana());
    }
    v
}

/// Bytes of `{"body":`.
pub open spec fn l_pl_body() -> Seq<u8> {
    seq![123u8, 34, 98, 111, 100, 121, 34, 58]
}

/// The bytes of [`l_pl_body`] as a vector.
pub fn l_pl_body_vec() -> (v: Vec<u8>)
    ensures
        v@ == l_pl_body(),
{
    let mut v: Vec<u8> = Vec::new();
    v.push(123);
    v.push(34);
    v.push(98);
    v.push(111);
    v.push(100);
    v.push(121);
    v.push(34);
    v.push(58);
    proof {
        assert(v@ =~= l_pl_body());
    }
    v
}

/// Bytes of `,"dir":`.
pub open spec fn l_pl_dir() -> Seq<u8> {
    seq![44u8, 34, 100, 105, 114, 34, 58]
}

/// The bytes of [`l_pl_dir`] as a vector.
pub fn l_pl_dir_vec() -> (v: Vec<u8>)
    ensures
        v@ == l_pl_dir(),
{
    let mut v: Vec<u8> = Vec::new();
    v.push(44);
    v.push(34);
    v.push(100);
    v.push(105);
    v.push(114);
    v.push(34);
    v.push(58);
    proof {
        assert(v@ =~= l_pl_dir());
    }
    v
}

/// Bytes of `,"last_dir":`.
pub open spec fn l_pl_last() -> Seq<u8> {
    seq![44u8, 34, 108, 97, 115, 116, 95, 100, 105, 114, 34, 58]
}

/// The bytes of [`l_pl_last`] as a vector.
pub fn l_pl_last_vec() -> (v: Vec<u8>)
    ensures
        v@ == l_pl_last(),
{
    let mut v: Vec<u8> = Vec::new();
    v.push(44);
    v.push(34);
    v.push(108);
    v.push(97);
    v.push(115);
    v.push(116);
    v.push(95);
    v.push(100);
    v.push(105);
    v.push(114);
    v.push(34);
    v.push(58);
    proof {
        assert(v@ =~= l_pl_last());
    }
    v
}

/// Bytes of `,"ate":`.
pub open spec fn l_pl_ate() -> Seq<u8> {
    seq![44u8, 34, 97, 116, 101, 34, 58]
}

/// The bytes of [`l_pl_ate`] as a vector.
pub fn l_pl_ate_vec() -> (v: Vec<u8>)
    ensures
        v@ == l_pl_ate(),
{
    let mut v: Vec<u8> = Vec::new();
    v.push(44);
    v.push(34);
    v.push(97);
    v.push(116);
    v.push(101);
    v.push(34);
    v.push(58);
    proof {
        assert(v@ =~= l_pl_ate());
    }
    v
}

/// Bytes of `,"name":`.
pub open spec fn l_pl_name() -> Seq<u8> {
    seq![44u8, 34, 110, 97, 109, 101, 34, 58]
}

/// The bytes of [`l_pl_name`] as a vector.
pub fn l_pl_name_vec() -> (v: Vec<u8>)
    ensures
        v@ == l_pl_name(),
{
    let mut v: Vec<u8> = Vec::new();
    v.push(44);
    v.push(34);
    v.push(110);
    v.push(97);
    v.push(109);
    v.push(101);
    v.push(34);
    v.push(58);
    proof {
        assert(v@ =~= l_pl_name());
    }
    v
}

/// Bytes of `,"hp":`.
pub open spec fn l_pl_hp() -> Seq<u8> {
    seq![44u8, 34, 104, 112, 34, 58]
}

/// The bytes of [`l_pl_hp`] as a vector.
pub fn l_pl_hp_vec() -> (v: Vec<u8>)
    ensures
        v@ == l_pl_hp(),
{
    let mut v: Vec<u8> = Vec::new();
    v.push(44);
    v.push(34);
    v.push(104);
    v.push(112);
    v.push(34);
    v.push(58);
    proof {
        assert(v@ =~= l_pl_hp());
    }
    v
}

/// Bytes of `,"mp":`.
pub open spec fn l_pl_mp() -> Seq<u8> {
    seq![44u8, 34, 109, 112, 34, 58]
}

/// The bytes of [`l_pl_mp`] as a vector.
pub fn l_pl_mp_vec() -> (v: Vec<u8>)
    ensures
        v@ == l_pl_mp(),
{
    let mut v: Vec<u8> = Vec::new();
    v.push(44);
    v.push(34);
    v.push(109);
    v.push(112);
    v.push(34);
    v.push(58);
    proof {
        assert(v@ =~= l_pl_mp());
    }
    v
}

/// Bytes of `,"str":`.
pub open spec fn l_pl_str() -> Seq<u8> {
    seq![44u8, 34, 115, 116, 114, 34, 58]
}

/// The bytes of [`l_pl_str`] as a vector.
pub fn l_pl_str_vec() -> (v: Vec<u8>)
    ensures
        v@ == l_pl_str(),
{
    let mut v: Vec<u8> = Vec::new();
    v.push(44);
    v.push(34);
    v.push(115);
    v.push(116);
    v.push(114);
    v.push(34);
    v.push(58);
    proof {
        assert(v@ =~= l_pl_str());
    }
    v
}

/// Bytes of `,"current_accel":`.
pub open spec fn l_pl_accel() -> Seq<u8> {
    seq![44u8, 34, 99, 117, 114, 114, 101, 110, 116, 95, 97, 99, 99, 101, 108, 34, 58]
}

/// The bytes of [`l_pl_accel`] as a vector.
pub fn l_pl_accel_vec() -> (v: Vec<u8>)
    ensures
        v@ == l_pl_accel(),
{
    let mut v: Vec<u8> = Vec::new();
    v.push(44);
    v.push(34);
    v.push(99);
    v.push(117);
    v.push(114);
    v.push(114);
    v.push(101);
    v.push(110);
    v.push(116);
    v.push(95);
    v.push(97);
    v.push(99);
    v.push(99);
    v.push(101);
    v.push(108);
    v.push(34);
    v.push(58);
    proof {
        assert(v@ =~= l_pl_accel());
    }
    v
}

/// Bytes of `,"jumping":`.
pub open spec fn l_pl_jumping() -> Seq<u8> {
    seq![44u8, 34, 106, 117, 109, 112, 105, 110, 103, 34, 58]
}

/// The bytes of [`l_pl_jumping`] as a vector.
pub fn l_pl_jumping_vec() -> (v: Vec<u8>)
    ensures
        v@ == l_pl_jumping(),
{
    let mut v: Vec<u8> = Vec::new();
    v.push(44);
    v.push(34);
    v.push(106);
    v.push(117);
    v.push(109);
    v.push(112);
    v.push(105);
    v.push(110);
    v.push(103);
    v.push(34);
    v.push(58);
    proof {
        assert(v@ =~= l_pl_jumping());
    }
    v
}

/// Bytes of `,"jump_offset":`.
pub open spec fn l_pl_joff() -> Seq<u8> {
    seq![44u8, 34, 106, 117, 109, 112, 95, 111, 102, 102, 115, 101, 116, 34, 58]
}

/// The bytes of [`l_pl_joff`] as a vector.
pub fn l_pl_joff_vec() -> (v: Vec<u8>)
    ensures
        v@ == l_pl_joff(),
{
    let mut v: Vec<u8> = Vec::new();
    v.push(44);
    v.push(34);
    v.push(106);
    v.push(117);
    v.push(109);
    v.push(112);
    v.push(95);
    v.push(111);
    v.push(102);
    v.push(102);
    v.push(115);
    v.push(101);
    v.push(116);
    v.push(34);
    v.push(58);
    proof {
        assert(v@ =~= l_pl_joff());
    }
    v
}

/// Bytes of `,"jump_direction":`.
pub open spec fn l_pl_jdir() -> Seq<u8> {
    seq![44u8, 34, 106, 117, 109, 112, 95, 100, 105, 114, 101, 99, 116, 105, 111, 110, 34, 58]
}

/// The bytes of [`l_pl_jdir`] as a vector.
pub fn l_pl_jdir_vec() -> (v: Vec<u8>)
    ensures
        v@ == l_pl_jdir(),
{
    let mut v: Vec<u8> = Vec::new();
    v.push(44);
    v.push(34);
    v.push(106);
    v.push(117);
    v.push(109);
    v.push(112);
    v.push(95);
    v.push(100);
    v.push(105);
    v.push(114);
    v.push(101);
    v.push(99);
    v.push(116);
    v.push(105);
    v.push(111);
    v.push(110);
    v.push(34);
    v.push(58);
    proof {
        assert(v@ =~= l_pl_jdir());
    }
    v
}

/// Bytes of `{"players":[`.
pub open spec fn l_g_players() -> Seq<u8> {
    seq![123u8, 34, 112, 108, 97, 121, 101, 114, 115, 34, 58, 91]
}

/// The bytes of [`l_g_players`] as a vector.
pub fn l_g_players_vec() -> (v: Vec<u8>)
    ensures
        v@ == l_g_players(),
{
    let mut v: Vec<u8> = Vec::new();
    v.push(123);
    v.push(34);
    v.push(112);
    v.push(108);
    v.push(97);
    v.push(121);
    v.push(101);
    v.push(114);
    v.push(115);
    v.push(34);
    v.push(58);
    v.push(91);
    proof {
        assert(v@ =~= l_g_players());
    }
    v
}

/// Bytes of `,"session_id":`.
pub open spec fn l_g_sid() -> Seq<u8> {
    seq![44u8, 34, 115, 101, 115, 115, 105, 111, 110, 95, 105, 100, 34, 58]
}

/// The bytes of [`l_g_sid`] as a vector.
pub fn l_g_sid_vec() -> (v: Vec<u8>)
    ensures
        v@ == l_g_sid(),
{
    let mut v: Vec<u8> = Vec::new();
    v.push(44);
    v.push(34);
    v.push(115);
    v.push(101);
    v.push(115);
    v.push(115);
    v.push(105);
    v.push(111);
    v.push(110);
    v.push(95);
    v.push(105);
    v.push(100);
    v.push(34);
    v.push(58);
    proof {
        assert(v@ =~= l_g_sid());
    }
    v
}

/// Bytes of `,"started":`.
pub open spec fn l_g_started() -> Seq<u8> {
    seq![44u8, 34, 115, 116, 97, 114, 116, 101, 100, 34, 58]
}

/// The bytes of [`l_g_started`] as a vector.
pub fn l_g_started_vec() -> (v: Vec<u8>)
    ensures
        v@ == l_g_started(),
{
    let mut v: Vec<u8> = Vec::new();
    v.push(44);
    v.push(34);
    v.push(115);
    v.push(116);
    v.push(97);
    v.push(114);
    v.push(116);
    v.push(101);
    v.push(100);
    v.push(34);
    v.push(58);
    proof {
        assert(v@ =~= l_g_started());
    }
    v
}

/// Bytes of `,"completed":`.
pub open spec fn l_g_completed() -> Seq<u8> {
    seq![44u8, 34, 99, 111, 109, 112, 108, 101, 116, 101, 100, 34, 58]
}

/// The bytes of [`l_g_completed`] as a vector.
pub fn l_g_completed_vec() -> (v: Vec<u8>)
    ensures
        v@ == l_g_completed(),
{
    let mut v: Vec<u8> = Vec::new();
    v.push(44);
    v.push(34);
    v.push(99);
    v.push(111);
    v.push(109);
    v.push(112);
    v.push(108);
    v.push(101);
    v.push(116);
    v.push(101);
    v.push(100);
    v.push(34);
    v.push(58);
    proof {
        assert(v@ =~= l_g_completed());
    }
    v
}

/// Bytes of `{"command":`.
pub open spec fn l_rq_cmd() -> Seq<u8> {
    seq![123u8, 34, 99, 111, 109, 109, 97, 110, 100, 34, 58]
}

/// The bytes of [`l_rq_cmd`] as a vector.
pub fn l_rq_cmd_vec() -> (v: Vec<u8>)
    ensures
        v@ == l_rq_cmd(),
{
    let mut v: Vec<u8> = Vec::new();
    v.push(123);
    v.push(34);
    v.push(99);
    v.push(111);
    v.push(109);
    v.push(109);
    v.push(97);
    v.push(110);
    v.push(100);
    v.push(34);
    v.push(58);
    proof {
        assert(v@ =~= l_rq_cmd());
    }
    v
}

/// Bytes of `,"game_id":`.
pub open spec fn l_rq_gid() -> Seq<u8> {
    seq![44u8, 34, 103, 97, 109, 101, 95, 105, 100, 34, 58]
}

/// The bytes of [`l_rq_gid`] as a vector.
pub fn l_rq_gid_vec() -> (v: Vec<u8>)
    ensures
        v@ == l_rq_gid(),
{
    let mut v: Vec<u8> = Vec::new();
    v.push(44);
    v.push(34);
    v.push(103);
    v.push(97);
    v.push(109);
    v.push(101);
    v.push(95);
    v.push(105);
    v.push(100);
    v.push(34);
    v.push(58);
    proof {
        assert(v@ =~= l_rq_gid());
    }
    v
}

/// Bytes of `,"meta":`.
pub open spec fn l_rq_meta() -> Seq<u8> {
    seq![44u8, 34, 109, 101, 116, 97, 34, 58]
}

/// The bytes of [`l_rq_meta`] as a vector.
pub fn l_rq_meta_vec() -> (v: Vec<u8>)
    ensures
        v@ == l_rq_meta(),
{
    let mut v: Vec<u8> = Vec::new();
    v.push(44);
    v.push(34);
    v.push(109);
    v.push(101);
    v.push(116);
    v.push(97);
    v.push(34);
    v.push(58);
    proof {
        assert(v@ =~= l_rq_meta());
    }
    v
}

/// Bytes of `,"name":`.
pub open spec fn l_rq_name() -> Seq<u8> {
    seq![44u8, 34, 110, 97, 109, 101, 34, 58]
}

/// The bytes of [`l_rq_name`] as a vector.
pub fn l_rq_name_vec() -> (v: Vec<u8>)
    ensures
        v@ == l_rq_name(),
{
    let mut v: Vec<u8> = Vec::new();
    v.push(44);
    v.push(34);
    v.push(110);
    v.push(97);
    v.push(109);
    v.push(101);
    v.push(34);
    v.push(58);
    proof {
        assert(v@ =~= l_rq_name());
    }
    v
}

/// Bytes of `{"game_id":`.
pub open spec fn l_r_gameid() -> Seq<u8> {
    seq![123u8, 34, 103, 97, 109, 101, 95, 105, 100, 34, 58]
}

/// The bytes of [`l_r_gameid`] as a vector.
pub fn l_r_gameid_vec() -> (v: Vec<u8>)
    ensures
        v@ == l_r_gameid(),
{
    let mut v: Vec<u8> = Vec::new();
    v.push(123);
    v.push(34);
    v.push(103);
    v.push(97);
    v.push(109);
    v.push(101);
    v.push(95);
    v.push(105);
    v.push(100);
    v.push(34);
    v.push(58);
    proof {
        assert(v@ =~= l_r_gameid());
    }
    v
}

/// Bytes of `{"games":[`.
pub open spec fn l_r_games() -> Seq<u8> {
    seq![123u8, 34, 103, 97, 109, 101, 115, 34, 58, 91]
}

/// The bytes of [`l_r_games`] as a vector.
pub fn l_r_games_vec() -> (v: Vec<u8>)
    ensures
        v@ == l_r_games(),
{
    let mut v: Vec<u8> = Vec::new();
    v.push(123);
    v.push(34);
    v.push(103);
    v.push(97);
    v.push(109);
    v.push(101);
    v.push(115);
    v.push(34);
    v.push(58);
    v.push(91);
    proof {
        assert(v@ =~= l_r_games());
    }
    v
}

/// Bytes of `{"info":`.
pub open spec fn l_r_info() -> Seq<u8> {
    seq![123u8, 34, 105, 110, 102, 111, 34, 58]
}

/// The bytes of [`l_r_info`] as a vector.
pub fn l_r_info_vec() -> (v: Vec<u8>)
    ensures
        v@ == l_r_info(),
{
    let mut v: Vec<u8> = Vec::new();
    v.push(123);
    v.push(34);
    v.push(105);
    v.push(110);
    v.push(102);
    v.push(111);
    v.push(34);
    v.push(58);
    proof {
        assert(v@ =~= l_r_info());
    }
    v
}

/// Bytes of `{"error":`.
pub open spec fn l_r_error() -> Seq<u8> {
    seq![123u8, 34, 101, 114, 114, 111, 114, 34, 58]
}

/// The bytes of [`l_r_error`] as a vector.
pub fn l_r_error_vec() -> (v: Vec<u8>)
    ensures
        v@ == l_r_error(),
{
    let mut v: Vec<u8> = Vec::new();
    v.push(123);
    v.push(34);
    v.push(101);
    v.push(114);
    v.push(114);
    v.push(111);
    v.push(114);
    v.push(34);
    v.push(58);
    proof {
        assert(v@ =~= l_r_error());
    }
    v
}

/// Bytes of `{"game":[`.
pub open spec fn l_r_game() -> Seq<u8> {
    seq![123u8, 34, 103, 97, 109, 101, 34, 58, 91]
}

/// The bytes of [`l_r_game`] as a vector.
pub fn l_r_game_vec() -> (v: Vec<u8>)
    ensures
        v@ == l_r_game(),
{
    let mut v: Vec<u8> = Vec::new();
    v.push(123);
    v.push(34);
    v.push(103);
    v.push(97);
    v.push(109);
    v.push(101);
    v.push(34);
    v.push(58);
    v.push(91);
    proof {
        assert(v@ =~= l_r_game());
    }
    v
}

/// Bytes of `]}`.
pub open spec fn l_rbrack_end() -> Seq<u8> {
    seq![93u8, 125]
}

/// The bytes of [`l_rbrack_end`] as a vector.
pub fn l_rbrack_end_vec() -> (v: Vec<u8>)
    ensures
        v@ == l_rbrack_end(),
{
    let mut v: Vec<u8> = Vec::new();
    v.push(93);
    v.push(125);
    proof {
        assert(v@ =~= l_rbrack_end());
    }
    v
}

/// Bytes of `joined `.
pub open spec fn m_joined() -> Seq<u8> {
    seq![106u8, 111, 105, 110, 101, 100, 32]
}

/// The bytes of [`m_joined`] as a vector.
pub fn m_joined_vec() -> (v: Vec<u8>)
    ensures
        v@ == m_joined(),
{
    let mut v: Vec<u8> = Vec::new();
    v.push(106);
    v.push(111);
    v.push(105);
    v.push(110);
    v.push(101);
    v.push(100);
    v.push(32);
    proof {
        assert(v@ =~= m_joined());
    }
    v
}

/// Bytes of `started`.
pub open spec fn m_started() -> Seq<u8> {
    seq![115u8, 116, 97, 114, 116, 101, 100]
}

/// The bytes of [`m_started`] as a vector.
pub fn m_started_vec() -> (v: Vec<u8>)
    ensures
        v@ == m_started(),
{
    let mut v: Vec<u8> = Vec::new();
    v.push(115);
    v.push(116);
    v.push(97);
    v.push(114);
    v.push(116);
    v.push(101);
    v.push(100);
    proof {
        assert(v@ =~= m_started());
    }
    v
}

/// Bytes of `not started`.
pub open spec fn m_not_started() -> Seq<u8> {
    seq![110u8, 111, 116, 32, 115, 116, 97, 114, 116, 101, 100]
}

/// The bytes of [`m_not_started`] as a vector.
pub fn m_not_started_vec() -> (v: Vec<u8>)
    ensures
        v@ == m_not_started(),
{
    let mut v: Vec<u8> = Vec::new();
    v.push(110);
    v.push(111);
    v.push(116);
    v.push(32);
    v.push(115);
    v.push(116);
    v.push(97);
    v.push(114);
    v.push(116);
    v.push(101);
    v.push(100);
    proof {
        assert(v@ =~= m_not_started());
    }
    v
}

/// Bytes of ` game `.
pub open spec fn m_game() -> Seq<u8> {
    seq![32u8, 103, 97, 109, 101, 32]
}

/// The bytes of [`m_game`] as a vector.
pub fn m_game_vec() -> (v: Vec<u8>)
    ensures
        v@ == m_game(),
{
    let mut v: Vec<u8> = Vec::new();
    v.push(32);
    v.push(103);
    v.push(97);
    v.push(109);
    v.push(101);
    v.push(32);
    proof {
        assert(v@ =~= m_game());
    }
    v
}

/// Bytes of ` with `.
pub open spec fn m_with() -> Seq<u8> {
    seq![32u8, 119, 105, 116, 104, 32]
}

/// The bytes of [`m_with`] as a vector.
pub fn m_with_vec() -> (v: Vec<u8>)
    ensures
        v@ == m_with(),
{
    let mut v: Vec<u8> = Vec::new();
    v.push(32);
    v.push(119);
    v.push(105);
    v.push(116);
    v.push(104);
    v.push(32);
    proof {
        assert(v@ =~= m_with());
    }
    v
}

/// Bytes of ` players`.
pub open spec fn m_players() -> Seq<u8> {
    seq![32u8, 112, 108, 97, 121, 101, 114, 115]
}

/// The bytes of [`m_players`] as a vector.
pub fn m_players_vec() -> (v: Vec<u8>)
    ensures
        v@ == m_players(),
{
    let mut v: Vec<u8> = Vec::new();
    v.push(32);
    v.push(112);
    v.push(108);
    v.push(97);
    v.push(121);
    v.push(101);
    v.push(114);
    v.push(115);
    proof {
        assert(v@ =~= m_players());
    }
    v
}

/// Bytes of `game `.
pub open spec fn m_game_pfx() -> Seq<u8> {
    seq![103u8, 97, 109, 101, 32]
}

/// The bytes of [`m_game_pfx`] as a vector.
pub fn m_game_pfx_vec() -> (v: Vec<u8>)
    ensures
        v@ == m_game_pfx(),
{
    let mut v: Vec<u8> = Vec::new();
    v.push(103);
    v.push(97);
    v.push(109);
    v.push(101);
    v.push(32);
    proof {
        assert(v@ =~= m_game_pfx());
    }
    v
}

/// Bytes of ` is full`.
pub open spec fn m_is_full() -> Seq<u8> {
    seq![32u8, 105, 115, 32, 102, 117, 108, 108]
}

/// The bytes of [`m_is_full`] as a vector.
pub fn m_is_full_vec() -> (v: Vec<u8>)
    ensures
        v@ == m_is_full(),
{
    let mut v: Vec<u8> = Vec::new();
    v.push(32);
    v.push(105);
    v.push(115);
    v.push(32);
    v.push(102);
    v.push(117);
    v.push(108);
    v.push(108);
    proof {
        assert(v@ =~= m_is_full());
    }
    v
}

/// Bytes of `Invalid Game `.
pub open spec fn m_invalid_game() -> Seq<u8> {
    seq![73u8, 110, 118, 97, 108, 105, 100, 32, 71, 97, 109, 101, 32]
}

/// The bytes of [`m_invalid_game`] as a vector.
pub fn m_invalid_game_vec() -> (v: Vec<u8>)
    ensures
        v@ == m_invalid_game(),
{
    let mut v: Vec<u8> = Vec::new();
    v.push(73);
    v.push(110);
    v.push(118);
    v.push(97);
    v.push(108);
    v.push(105);
    v.push(100);
    v.push(32);
    v.push(71);
    v.push(97);
    v.push(109);
    v.push(101);
    v.push(32);
    proof {
        assert(v@ =~= m_invalid_game());
    }
    v
}

/// Bytes of `Invalid Command`.
pub open spec fn m_invalid_cmd() -> Seq<u8> {
    seq![73u8, 110, 118, 97, 108, 105, 100, 32, 67, 111, 109, 109, 97, 110, 100]
}

/// The bytes of [`m_invalid_cmd`] as a vector.
pub fn m_invalid_cmd_vec() -> (v: Vec<u8>)
    ensures
        v@ == m_invalid_cmd(),
{
    let mut v: Vec<u8> = Vec::new();
    v.push(73);
    v.push(110);
    v.push(118);
    v.push(97);
    v.push(108);
    v.push(105);
    v.push(100);
    v.push(32);
    v.push(67);
    v.push(111);
    v.push(109);
    v.push(109);
    v.push(97);
    v.push(110);
    v.push(100);
    proof {
        assert(v@ =~= m_invalid_cmd());
    }
    v
}

/// Bytes of `newgame`.
pub open spec fn c_newgame() -> Seq<u8> {
    seq![110u8, 101, 119, 103, 97, 109, 101]
}

/// The bytes of [`c_newgame`] as a vector.
pub fn c_newgame_vec() -> (v: Vec<u8>)
    ensures
        v@ == c_newgame(),
{
    let mut v: Vec<u8> = Vec::new();
    v.push(110);
    v.push(101);
    v.push(119);
    v.push(103);
    v.push(97);
    v.push(109);
    v.push(101);
    proof {
        assert(v@ =~= c_newgame());
    }
    v
}

/// Bytes of `listgames`.
pub open spec fn c_listgames() -> Seq<u8> {
    seq![108u8, 105, 115, 116, 103, 97, 109, 101, 115]
}

/// The bytes of [`c_listgames`] as a vector.
pub fn c_listgames_vec() -> (v: Vec<u8>)
    ensures
        v@ == c_listgames(),
{
    let mut v: Vec<u8> = Vec::new();
    v.push(108);
    v.push(105);
    v.push(115);
    v.push(116);
    v.push(103);
    v.push(97);
    v.push(109);
    v.push(101);
    v.push(115);
    proof {
        assert(v@ =~= c_listgames());
    }
    v
}

/// Bytes of `joingame`.
pub open spec fn c_joingame() -> Seq<u8> {
    seq![106u8, 111, 105, 110, 103, 97, 109, 101]
}

/// The bytes of [`c_joingame`] as a vector.
pub fn c_joingame_vec() -> (v: Vec<u8>)
    ensures
        v@ == c_joingame(),
{
    let mut v: Vec<u8> = Vec::new();
    v.push(106);
    v.push(111);
    v.push(105);
    v.push(110);
    v.push(103);
    v.push(97);
    v.push(109);
    v.push(101);
    proof {
        assert(v@ =~= c_joingame());
    }
    v
}

/// Bytes of `gameinfo`.
pub open spec fn c_gameinfo() -> Seq<u8> {
    seq![103u8, 97, 109, 101, 105, 110, 102, 111]
}

/// The bytes of [`c_gameinfo`] as a vector.
pub fn c_gameinfo_vec() -> (v: Vec<u8>)
    ensures
        v@ == c_gameinfo(),
{
    let mut v: Vec<u8> = Vec::new();
    v.push(103);
    v.push(97);
    v.push(109);
    v.push(101);
    v.push(105);
    v.push(110);
    v.push(102);
    v.push(111);
    proof {
        assert(v@ =~= c_gameinfo());
    }
    v
}

/// Bytes of `sendposition`.
pub open spec fn c_sendposition() -> Seq<u8> {
    seq![115u8, 101, 110, 100, 112, 111, 115, 105, 116, 105, 111, 110]
}

/// The bytes of [`c_sendposition`] as a vector.
pub fn c_sendposition_vec() -> (v: Vec<u8>)
    ensures
        v@ == c_sendposition(),
{
    let mut v: Vec<u8> = Vec::new();
    v.push(115);
    v.push(101);
    v.push(110);
    v.push(100);
    v.push(112);
    v.push(111);
    v.push(115);
    v.push(105);
    v.push(116);
    v.push(105);
    v.push(111);
    v.push(110);
    proof {
        assert(v@ =~= c_sendposition());
    }
    v
}

/// Bytes of `getworld`.
pub open spec fn c_getworld() -> Seq<u8> {
    seq![103u8, 101, 116, 119, 111, 114, 108, 100]
}

/// The bytes of [`c_getworld`] as a vector.
pub fn c_getworld_vec() -> (v: Vec<u8>)
    ensures
        v@ == c_getworld(),
{
    let mut v: Vec<u8> = Vec::new();
    v.push(103);
    v.push(101);
    v.push(116);
    v.push(119);
    v.push(111);
    v.push(114);
    v.push(108);
    v.push(100);
    proof {
        assert(v@ =~= c_getworld());
    }
    v
}

/// Concatenation of sequences is associative.
pub proof fn seq_assoc<T>(a: Seq<T>, b: Seq<T>, c: Seq<T>)
    ensures
        (a + b) + c == a + (b + c),
{
    assert((a + b) + c =~= a + (b + c));
}

/// The value fits in a 64-bit signed integer.
pub open spec fn int_fits(v: int) -> bool {
    i64::MIN as int <= v <= i64::MAX as int
}

/// Every coordinate of the rectangle fits in 64 bits.
pub open spec fn pos_fits(p: PositionView) -> bool {
    int_fits(p.x) && int_fits(p.y) && int_fits(p.w) && int_fits(p.h)
}

/// The potion's rectangle fits in 64 bits.
pub open spec fn potion_fits(p: PotionView) -> bool {
    pos_fits(p.pos)
}

/// The eaten potion, if any, fits in 64 bits.
pub open spec fn ate_fits(a: Option<PotionView>) -> bool {
    match a {
        Some(p) => potion_fits(p),
        None => true,
    }
}

/// Every numeric field of the player record fits in 64 bits. The view of
/// an executable [`Player`] always does.
pub open spec fn player_fits(p: PlayerView) -> bool {
    &&& pos_fits(p.body)
    &&& ate_fits(p.ate)
    &&& int_fits(p.hp)
    &&& int_fits(p.mp)
    &&& int_fits(p.str)
    &&& int_fits(p.current_accel)
    &&& int_fits(p.jump_offset)
}

/// Every player of the session fits in 64 bits. The view of an executable
/// [`NetworkedGame`] always does.
pub open spec fn game_fits(g: GameView) -> bool {
    forall|i: int| 0 <= i < g.players.len() ==> player_fits(#[trigger] g.players[i])
}

/// The view of an executable player record always fits on the wire.
pub proof fn lemma_player_view_fits(p: &Player)
    ensures
        player_fits(p@),
{
}

/// The view of an executable session record always fits on the wire.
pub proof fn lemma_game_view_fits(g: &NetworkedGame)
    ensures
        game_fits(g@),
{
    assert forall|i: int| 0 <= i < g@.players.len() implies player_fits(
        #[trigger] g@.players[i],
    ) by {
        assert(g@.players[i] == g.players@[i]@);
    }
}

/// The wire form of a potion kind.
pub open spec fn enc_potion_type(t: PotionType) -> Seq<u8> {
    match t {
        PotionType::Health => l_health(),
        PotionType::Mana => l_mana(),
    }
}

/// Decodes a potion kind from the front of `s`.
pub open spec fn dec_potion_type(s: Seq<u8>) -> Option<(PotionType, Seq<u8>)> {
    if dec_lit(s, l_health()) is Some {
        Some((PotionType::Health, dec_lit(s, l_health()).unwrap()))
    } else if dec_lit(s, l_mana()) is Some {
        Some((PotionType::Mana, dec_lit(s, l_mana()).unwrap()))
    } else {
        None
    }
}

/// A potion kind decodes from its own encoding, leaving the rest.
#[verifier::rlimit(50)]
pub proof fn lemma_dec_potion_type(t: PotionType, rest: Seq<u8>)
    ensures
        dec_potion_type(enc_potion_type(t) + rest) == Some((t, rest)),
{
    let s = enc_potion_type(t) + rest;
    match t {
        PotionType::Health => {
            lemma_dec_lit(l_health(), rest);
        },
        PotionType::Mana => {
            lemma_dec_lit(l_mana(), rest);
            assert(dec_lit(s, l_health()) is None) by {
                if dec_lit(s, l_health()) is Some {
                    assert(s.take(l_health().len() as int)[1] == l_health()[1]);
                    assert(s[1] == l_mana()[1]);
                }
            }
        },
    }
}

/// Appends the wire form of a potion kind to `buf`.
pub fn encode_potion_type(buf: &mut Vec<u8>, t: &PotionType)
    ensures
        final(buf)@ == old(buf)@ + enc_potion_type(*t),
{
    match t {
        PotionType::Health => {
            let l = l_health_vec();
            push_bytes(buf, &l);
        },
        PotionType::Mana => {
            let l = l_mana_vec();
            push_bytes(buf, &l);
        },
    }
}

/// Reads a potion kind at position `i` of `s`, as [`dec_potion_type`]
/// describes.
pub fn parse_potion_type(s: &Vec<u8>, i: usize) -> (r: Option<(PotionType, usize)>)
    requires
        i <= s.len(),
    ensures
        match r {
            Some(p) => i <= p.1 <= s.len() && dec_potion_type(s@.skip(i as int)) == Some(
                (p.0@, s@.skip(p.1 as int)),
            ),
            None => dec_potion_type(s@.skip(i as int)) is None,
        },
{
    let lh = l_health_vec();
    match parse_lit(s, i, &lh) {
        Some(j) => Some((PotionType::Health, j)),
        None => {
            let lm = l_mana_vec();
            match parse_lit(s, i, &lm) {
                Some(j) => Some((PotionType::Mana, j)),
                None => None,
            }
        },
    }
}
/// The wire form of a rectangle.
pub open spec fn enc_position(v: PositionView) -> Seq<u8> {
    l_pos_x() + (enc_int(v.x) + (l_pos_y() + (enc_int(v.y) + (l_pos_w() + (enc_int(v.w) + (l_pos_h() + (enc_int(v.h) + (l_end()))))))))
}

/// Decodes a rectangle from the front of `s`.
pub open spec fn dec_position(s: Seq<u8>) -> Option<(PositionView, Seq<u8>)> {
    match dec_lit(s, l_pos_x()) {
        None => None,
        Some(s0) => {
            match dec_int(s0) {
                None => None,
                Some((x1, s1)) => {
                    match dec_lit(s1, l_pos_y()) {
                        None => None,
                        Some(s2) => {
                            match dec_int(s2) {
                                None => None,
                                Some((x3, s3)) => {
                                    match dec_lit(s3, l_pos_w()) {
                                        None => None,
                                        Some(s4) => {
                                            match dec_int(s4) {
                                                None => None,
                                                Some((x5, s5)) => {
                                                    match dec_lit(s5, l_pos_h()) {
                                                        None => None,
                                                        Some(s6) => {
                                                            match dec_int(s6) {
                                                                None => None,
                                                                Some((x7, s7)) => {
                                                                    match dec_lit(s7, l_end()) {
                                                                        None => None,
                                                                        Some(s8) => {
                                                                            Some((PositionView { x: x1, y: x3, w: x5, h: x7 }, s8))
                                                                        },
                                                                    }
                                                                },
                                                            }
                                                        },
                                                    }
                                                },
                                            }
                                        },
                                    }
                                },
                            }
                        },
                    }
                },
            }
        },
    }
}

/// A rectangle decodes from its own encoding, leaving the rest.
pub proof fn lemma_dec_position(v: PositionView, rest: Seq<u8>)
    requires
        pos_fits(v),
    ensures
        dec_position(enc_position(v) + rest) == Some((v, rest)),
{
    let t8 = l_end();
    let t7 = enc_int(v.h) + (t8);
    let t6 = l_pos_h() + (t7);
    let t5 = enc_int(v.w) + (t6);
    let t4 = l_pos_w() + (t5);
    let t3 = enc_int(v.y) + (t4);
    let t2 = l_pos_y() + (t3);
    let t1 = enc_int(v.x) + (t2);
    let t0 = l_pos_x() + (t1);
    assert(enc_position(v) == t0);
    seq_assoc(l_pos_x(), t1, rest);
    lemma_dec_lit(l_pos_x(), t1 + rest);
    seq_assoc(enc_int(v.x), t2, rest);
    assert((t2 + rest)[0] == l_pos_y()[0]);
    assert(!is_digit((t2 + rest)[0]));
    lemma_dec_int_enc_int(v.x, t2 + rest);
    seq_assoc(l_pos_y(), t3, rest);
    lemma_dec_lit(l_pos_y(), t3 + rest);
    seq_assoc(enc_int(v.y), t4, rest);
    assert((t4 + rest)[0] == l_pos_w()[0]);
    assert(!is_digit((t4 + rest)[0]));
    lemma_dec_int_enc_int(v.y, t4 + rest);
    seq_assoc(l_pos_w(), t5, rest);
    lemma_dec_lit(l_pos_w(), t5 + rest);
    seq_assoc(enc_int(v.w), t6, rest);
    assert((t6 + rest)[0] == l_pos_h()[0]);
    assert(!is_digit((t6 + rest)[0]));
    lemma_dec_int_enc_int(v.w, t6 + rest);
    seq_assoc(l_pos_h(), t7, rest);
    lemma_dec_lit(l_pos_h(), t7 + rest);
    seq_assoc(enc_int(v.h), t8, rest);
    assert((t8 + rest)[0] == l_end()[0]);
    assert(!is_digit((t8 + rest)[0]));
    lemma_dec_int_enc_int(v.h, t8 + rest);
    lemma_dec_lit(l_end(), rest);
    assert((PositionView { x: v.x, y: v.y, w: v.w, h: v.h }) =~= v);
}

/// Appends the wire form of a rectangle to `buf`.
pub fn encode_position(buf: &mut Vec<u8>, v: &Position)
    ensures
        final(buf)@ == old(buf)@ + enc_position(v@),
{
    let ghost t8 = l_end();
    let ghost t7 = enc_int(v.h as int) + (t8);
    let ghost t6 = l_pos_h() + (t7);
    let ghost t5 = enc_int(v.w as int) + (t6);
    let ghost t4 = l_pos_w() + (t5);
    let ghost t3 = enc_int(v.y as int) + (t4);
    let ghost t2 = l_pos_y() + (t3);
    let ghost t1 = enc_int(v.x as int) + (t2);
    let ghost t0 = l_pos_x() + (t1);
    proof {
        assert(enc_position(v@) == t0);
    }
    let ghost base = buf@;
    let ghost mut done: Seq<u8> = Seq::empty();
    proof {
        assert(base + done =~= base);
        assert(done + t0 =~= t0);
    }
    let l0 = l_pos_x_vec();
    push_bytes(buf, &l0);
    proof {
        seq_assoc(base, done, l_pos_x());
        seq_assoc(done, l_pos_x(), t1);
        done = done + l_pos_x();
    }
    push_i64(buf, v.x);
    proof {
        seq_assoc(base, done, enc_int(v.x as int));
        seq_assoc(done, enc_int(v.x as int), t2);
        done = done + enc_int(v.x as int);
    }
    let l2 = l_pos_y_vec();
    push_bytes(buf, &l2);
    proof {
        seq_assoc(base, done, l_pos_y());
        seq_assoc(done, l_pos_y(), t3);
        done = done + l_pos_y();
    }
    push_i64(buf, v.y);
    proof {
        seq_assoc(base, done, enc_int(v.y as int));
        seq_assoc(done, enc_int(v.y as int), t4);
        done = done + enc_int(v.y as int);
    }
    let l4 = l_pos_w_vec();
    push_bytes(buf, &l4);
    proof {
        seq_assoc(base, done, l_pos_w());
        seq_assoc(done, l_pos_w(), t5);
        done = done + l_pos_w();
    }
    push_i64(buf, v.w);
    proof {
        seq_assoc(base, done, enc_int(v.w as int));
        seq_assoc(done, enc_int(v.w as int), t6);
        done = done + enc_int(v.w as int);
    }
    let l6 = l_pos_h_vec();
    push_bytes(buf, &l6);
    proof {
        seq_assoc(base, done, l_pos_h());
        seq_assoc(done, l_pos_h(), t7);
        done = done + l_pos_h();
    }
    push_i64(buf, v.h);
    proof {
        seq_assoc(base, done, enc_int(v.h as int));
        seq_assoc(done, enc_int(v.h as int), t8);
        done = done + enc_int(v.h as int);
    }
    let l8 = l_end_vec();
    push_bytes(buf, &l8);
    proof {
        seq_assoc(base, done, l_end());
        done = done + l_end();
    }
}

/// Reads a rectangle at position `i` of `s`, as [`dec_position`] describes.
pub fn parse_position(s: &Vec<u8>, i: usize) -> (r: Option<(Position, usize)>)
    requires
        i <= s.len(),
    ensures
        match r {
            Some(p) => i <= p.1 <= s.len() && dec_position(s@.skip(i as int)) == Some(
                (p.0@, s@.skip(p.1 as int)),
            ),
            None => dec_position(s@.skip(i as int)) is None,
        },
{
    let l0 = l_pos_x_vec();
    let j0 = match parse_lit(s, i, &l0) {
        Some(j) => j,
        None => {
            return None;
        },
    };
    let (v1, j1) = match parse_i64(s, j0) {
        Some(p) => p,
        None => {
            return None;
        },
    };
    let l2 = l_pos_y_vec();
    let j2 = match parse_lit(s, j1, &l2) {
        Some(j) => j,
        None => {
            return None;
        },
    };
    let (v3, j3) = match parse_i64(s, j2) {
        Some(p) => p,
        None => {
            return None;
        },
    };
    let l4 = l_pos_w_vec();
    let j4 = match parse_lit(s, j3, &l4) {
        Some(j) => j,
        None => {
            return None;
        },
    };
    let (v5, j5) = match parse_i64(s, j4) {
        Some(p) => p,
        None => {
            return None;
        },
    };
    let l6 = l_pos_h_vec();
    let j6 = match parse_lit(s, j5, &l6) {
        Some(j) => j,
        None => {
            return None;
        },
    };
    let (v7, j7) = match parse_i64(s, j6) {
        Some(p) => p,
        None => {
            return None;
        },
    };
    let l8 = l_end_vec();
    let j8 = match parse_lit(s, j7, &l8) {
        Some(j) => j,
        None => {
            return None;
        },
    };
    let ret = Position { x: v1, y: v3, w: v5, h: v7 };
    proof {
        assert(ret@ =~= PositionView { x: v1 as int, y: v3 as int, w: v5 as int, h: v7 as int });
    }
    Some((ret, j8))
}

/// The wire form of a direction record.
pub open spec fn enc_direction(v: Direction) -> Seq<u8> {
    l_dir_up() + (enc_bool(v.up) + (l_dir_down() + (enc_bool(v.down) + (l_dir_left() + (enc_bool(v.left) + (l_dir_right() + (enc_bool(v.right) + (l_end()))))))))
}

/// Decodes a direction record from the front of `s`.
pub open spec fn dec_direction(s: Seq<u8>) -> Option<(Direction, Seq<u8>)> {
    match dec_lit(s, l_dir_up()) {
        None => None,
        Some(s0) => {
            match dec_bool(s0) {
                None => None,
                Some((x1, s1)) => {
                    match dec_lit(s1, l_dir_down()) {
                        None => None,
                        Some(s2) => {
                            match dec_bool(s2) {
                                None => None,
                                Some((x3, s3)) => {
                                    match dec_lit(s3, l_dir_left()) {
                                        None => None,
                                        Some(s4) => {
                                            match dec_bool(s4) {
                                                None => None,
                                                Some((x5, s5)) => {
                                                    match dec_lit(s5, l_dir_right()) {
                                                        None => None,
                                                        Some(s6) => {
                                                            match dec_bool(s6) {
                                                                None => None,
                                                                Some((x7, s7)) => {
                                                                    match dec_lit(s7, l_end()) {
                                                                        None => None,
                                                                        Some(s8) => {
                                                                            Some((Direction { up: x1, down: x3, left: x5, right: x7 }, s8))
                                                                        },
                                                                    }
                                                                },
                                                            }
                                                        },
                                                    }
                                                },
                                            }
                                        },
                                    }
                                },
                            }
                        },
                    }
                },
            }
        },
    }
}

/// A direction record decodes from its own encoding, leaving the rest.
pub proof fn lemma_dec_direction(v: Direction, rest: Seq<u8>)
    ensures
        dec_direction(enc_direction(v) + rest) == Some((v, rest)),
{
    let t8 = l_end();
    let t7 = enc_bool(v.right) + (t8);
    let t6 = l_dir_right() + (t7);
    let t5 = enc_bool(v.left) + (t6);
    let t4 = l_dir_left() + (t5);
    let t3 = enc_bool(v.down) + (t4);
    let t2 = l_dir_down() + (t3);
    let t1 = enc_bool(v.up) + (t2);
    let t0 = l_dir_up() + (t1);
    assert(enc_direction(v) == t0);
    seq_assoc(l_dir_up(), t1, rest);
    lemma_dec_lit(l_dir_up(), t1 + rest);
    seq_assoc(enc_bool(v.up), t2, rest);
    lemma_dec_bool_enc_bool(v.up, t2 + rest);
    seq_assoc(l_dir_down(), t3, rest);
    lemma_dec_lit(l_dir_down(), t3 + rest);
    seq_assoc(enc_bool(v.down), t4, rest);
    lemma_dec_bool_enc_bool(v.down, t4 + rest);
    seq_assoc(l_dir_left(), t5, rest);
    lemma_dec_lit(l_dir_left(), t5 + rest);
    seq_assoc(enc_bool(v.left), t6, rest);
    lemma_dec_bool_enc_bool(v.left, t6 + rest);
    seq_assoc(l_dir_right(), t7, rest);
    lemma_dec_lit(l_dir_right(), t7 + rest);
    seq_assoc(enc_bool(v.right), t8, rest);
    lemma_dec_bool_enc_bool(v.right, t8 + rest);
    lemma_dec_lit(l_end(), rest);
    assert((Direction { up: v.up, down: v.down, left: v.left, right: v.right }) =~= v);
}

/// Appends the wire form of a direction record to `buf`.
pub fn encode_direction(buf: &mut Vec<u8>, v: &Direction)
    ensures
        final(buf)@ == old(buf)@ + enc_direction(v@),
{
    let ghost t8 = l_end();
    let ghost t7 = enc_bool(v.right) + (t8);
    let ghost t6 = l_dir_right() + (t7);
    let ghost t5 = enc_bool(v.left) + (t6);
    let ghost t4 = l_dir_left() + (t5);
    let ghost t3 = enc_bool(v.down) + (t4);
    let ghost t2 = l_dir_down() + (t3);
    let ghost t1 = enc_bool(v.up) + (t2);
    let ghost t0 = l_dir_up() + (t1);
    proof {
        assert(enc_direction(v@) == t0);
    }
    let ghost base = buf@;
    let ghost mut done: Seq<u8> = Seq::empty();
    proof {
        assert(base + done =~= base);
        assert(done + t0 =~= t0);
    }
    let l0 = l_dir_up_vec();
    push_bytes(buf, &l0);
    proof {
        seq_assoc(base, done, l_dir_up());
        seq_assoc(done, l_dir_up(), t1);
        done = done + l_dir_up();
    }
    push_bool(buf, v.up);
    proof {
        seq_assoc(base, done, enc_bool(v.up));
        seq_assoc(done, enc_bool(v.up), t2);
        done = done + enc_bool(v.up);
    }
    let l2 = l_dir_down_vec();
    push_bytes(buf, &l2);
    proof {
        seq_assoc(base, done, l_dir_down());
        seq_assoc(done, l_dir_down(), t3);
        done = done + l_dir_down();
    }
    push_bool(buf, v.down);
    proof {
        seq_assoc(base, done, enc_bool(v.down));
        seq_assoc(done, enc_bool(v.down), t4);
        done = done + enc_bool(v.down);
    }
    let l4 = l_dir_left_vec();
    push_bytes(buf, &l4);
    proof {
        seq_assoc(base, done, l_dir_left());
        seq_assoc(done, l_dir_left(), t5);
        done = done + l_dir_left();
    }
    push_bool(buf, v.left);
    proof {
        seq_assoc(base, done, enc_bool(v.left));
        seq_assoc(done, enc_bool(v.left), t6);
        done = done + enc_bool(v.left);
    }
    let l6 = l_dir_right_vec();
    push_bytes(buf, &l6);
    proof {
        seq_assoc(base, done, l_dir_right());
        seq_assoc(done, l_dir_right(), t7);
        done = done + l_dir_right();
    }
    push_bool(buf, v.right);
    proof {
        seq_assoc(base, done, enc_bool(v.right));
        seq_assoc(done, enc_bool(v.right), t8);
        done = done + enc_bool(v.right);
    }
    let l8 = l_end_vec();
    push_bytes(buf, &l8);
    proof {
        seq_assoc(base, done, l_end());
        done = done + l_end();
    }
}

/// Reads a direction record at position `i` of `s`, as [`dec_direction`] describes.
pub fn parse_direction(s: &Vec<u8>, i: usize) -> (r: Option<(Direction, usize)>)
    requires
        i <= s.len(),
    ensures
        match r {
            Some(p) => i <= p.1 <= s.len() && dec_direction(s@.skip(i as int)) == Some(
                (p.0@, s@.skip(p.1 as int)),
            ),
            None => dec_direction(s@.skip(i as int)) is None,
        },
{
    let l0 = l_dir_up_vec();
    let j0 = match parse_lit(s, i, &l0) {
        Some(j) => j,
        None => {
            return None;
        },
    };
    let (v1, j1) = match parse_bool(s, j0) {
        Some(p) => p,
        None => {
            return None;
        },
    };
    let l2 = l_dir_down_vec();
    let j2 = match parse_lit(s, j1, &l2) {
        Some(j) => j,
        None => {
            return None;
        },
    };
    let (v3, j3) = match parse_bool(s, j2) {
        Some(p) => p,
        None => {
            return None;
        },
    };
    let l4 = l_dir_left_vec();
    let j4 = match parse_lit(s, j3, &l4) {
        Some(j) => j,
        None => {
            return None;
        },
    };
    let (v5, j5) = match parse_bool(s, j4) {
        Some(p) => p,
        None => {
            return None;
        },
    };
    let l6 = l_dir_right_vec();
    let j6 = match parse_lit(s, j5, &l6) {
        Some(j) => j,
        None => {
            return None;
        },
    };
    let (v7, j7) = match parse_bool(s, j6) {
        Some(p) => p,
        None => {
            return None;
        },
    };
    let l8 = l_end_vec();
    let j8 = match parse_lit(s, j7, &l8) {
        Some(j) => j,
        None => {
            return None;
        },
    };
    let ret = Direction { up: v1, down: v3, left: v5, right: v7 };
    proof {
        assert(ret@ =~= Direction { up: v1, down: v3, left: v5, right: v7 });
    }
    Some((ret, j8))
}

/// The wire form of a potion.
pub open spec fn enc_potion(v: PotionView) -> Seq<u8> {
    l_po_pos() + (enc_position(v.pos) + (l_po_type() + (enc_potion_type(v.potion_type) + (l_end()))))
}

/// Decodes a potion from the front of `s`.
pub open spec fn dec_potion(s: Seq<u8>) -> Option<(PotionView, Seq<u8>)> {
    match dec_lit(s, l_po_pos()) {
        None => None,
        Some(s0) => {
            match dec_position(s0) {
                None => None,
                Some((x1, s1)) => {
                    match dec_lit(s1, l_po_type()) {
                        None => None,
                        Some(s2) => {
                            match dec_potion_type(s2) {
                                None => None,
                                Some((x3, s3)) => {
                                    match dec_lit(s3, l_end()) {
                                        None => None,
                                        Some(s4) => {
                                            Some((PotionView { pos: x1, potion_type: x3 }, s4))
                                        },
                                    }
                                },
                            }
                        },
                    }
                },
            }
        },
    }
}

/// A potion decodes from its own encoding, leaving the rest.
pub proof fn lemma_dec_potion(v: PotionView, rest: Seq<u8>)
    requires
        potion_fits(v),
    ensures
        dec_potion(enc_potion(v) + rest) == Some((v, rest)),
{
    let t4 = l_end();
    let t3 = enc_potion_type(v.potion_type) + (t4);
    let t2 = l_po_type() + (t3);
    let t1 = enc_position(v.pos) + (t2);
    let t0 = l_po_pos() + (t1);
    assert(enc_potion(v) == t0);
    seq_assoc(l_po_pos(), t1, rest);
    lemma_dec_lit(l_po_pos(), t1 + rest);
    seq_assoc(enc_position(v.pos), t2, rest);
    lemma_dec_position(v.pos, t2 + rest);
    seq_assoc(l_po_type(), t3, rest);
    lemma_dec_lit(l_po_type(), t3 + rest);
    seq_assoc(enc_potion_type(v.potion_type), t4, rest);
    lemma_dec_potion_type(v.potion_type, t4 + rest);
    lemma_dec_lit(l_end(), rest);
    assert((PotionView { pos: v.pos, potion_type: v.potion_type }) =~= v);
}

/// Appends the wire form of a potion to `buf`.
pub fn encode_potion(buf: &mut Vec<u8>, v: &Potion)
    ensures
        final(buf)@ == old(buf)@ + enc_potion(v@),
{
    let ghost t4 = l_end();
    let ghost t3 = enc_potion_type(v.potion_type) + (t4);
    let ghost t2 = l_po_type() + (t3);
    let ghost t1 = enc_position(v.pos@) + (t2);
    let ghost t0 = l_po_pos() + (t1);
    proof {
        assert(enc_potion(v@) == t0);
    }
    let ghost base = buf@;
    let ghost mut done: Seq<u8> = Seq::empty();
    proof {
        assert(base + done =~= base);
        assert(done + t0 =~= t0);
    }
    let l0 = l_po_pos_vec();
    push_bytes(buf, &l0);
    proof {
        seq_assoc(base, done, l_po_pos());
        seq_assoc(done, l_po_pos(), t1);
        done = done + l_po_pos();
    }
    encode_position(buf, &v.pos);
    proof {
        seq_assoc(base, done, enc_position(v.pos@));
        seq_assoc(done, enc_position(v.pos@), t2);
        done = done + enc_position(v.pos@);
    }
    let l2 = l_po_type_vec();
    push_bytes(buf, &l2);
    proof {
        seq_assoc(base, done, l_po_type());
        seq_assoc(done, l_po_type(), t3);
        done = done + l_po_type();
    }
    encode_potion_type(buf, &v.potion_type);
    proof {
        seq_assoc(base, done, enc_potion_type(v.potion_type));
        seq_assoc(done, enc_potion_type(v.potion_type), t4);
        done = done + enc_potion_type(v.potion_type);
    }
    let l4 = l_end_vec();
    push_bytes(buf, &l4);
    proof {
        seq_assoc(base, done, l_end());
        done = done + l_end();
    }
}

/// Reads a potion at position `i` of `s`, as [`dec_potion`] describes.
pub fn parse_potion(s: &Vec<u8>, i: usize) -> (r: Option<(Potion, usize)>)
    requires
        i <= s.len(),
    ensures
        match r {
            Some(p) => i <= p.1 <= s.len() && dec_potion(s@.skip(i as int)) == Some(
                (p.0@, s@.skip(p.1 as int)),
            ),
            None => dec_potion(s@.skip(i as int)) is None,
        },
{
    let l0 = l_po_pos_vec();
    let j0 = match parse_lit(s, i, &l0) {
        Some(j) => j,
        None => {
            return None;
        },
    };
    let (v1, j1) = match parse_position(s, j0) {
        Some(p) => p,
        None => {
            return None;
        },
    };
    let l2 = l_po_type_vec();
    let j2 = match parse_lit(s, j1, &l2) {
        Some(j) => j,
        None => {
            return None;
        },
    };
    let (v3, j3) = match parse_potion_type(s, j2) {
        Some(p) => p,
        None => {
            return None;
        },
    };
    let l4 = l_end_vec();
    let j4 = match parse_lit(s, j3, &l4) {
        Some(j) => j,
        None => {
            return None;
        },
    };
    let ret = Potion { pos: v1, potion_type: v3 };
    proof {
        assert(ret@ =~= PotionView { pos: v1@, potion_type: v3 });
    }
    Some((ret, j4))
}

/// The wire form of an optional eaten potion: `null` or the potion.
pub open spec fn enc_ate(a: Option<PotionView>) -> Seq<u8> {
    match a {
        None => l_null(),
        Some(p) => enc_potion(p),
    }
}

/// Decodes an optional eaten potion from the front of `s`.
pub open spec fn dec_ate(s: Seq<u8>) -> Option<(Option<PotionView>, Seq<u8>)> {
    if dec_lit(s, l_null()) is Some {
        Some((None, dec_lit(s, l_null()).unwrap()))
    } else {
        match dec_potion(s) {
            Some((p, r)) => Some((Some(p), r)),
            None => None,
        }
    }
}

/// An optional potion decodes from its own encoding, leaving the rest.
#[verifier::rlimit(100)]
pub proof fn lemma_dec_ate(a: Option<PotionView>, rest: Seq<u8>)
    requires
        ate_fits(a),
    ensures
        dec_ate(enc_ate(a) + rest) == Some((a, rest)),
{
    let s = enc_ate(a) + rest;
    match a {
        None => {
            lemma_dec_lit(l_null(), rest);
        },
        Some(p) => {
            lemma_dec_potion(p, rest);
            assert(dec_lit(s, l_null()) is None) by {
                if dec_lit(s, l_null()) is Some {
                    assert(s.take(l_null().len() as int)[0] == l_null()[0]);
                    assert(s[0] == l_po_pos()[0]);
                }
            }
        },
    }
}

/// Appends the wire form of an optional eaten potion to `buf`.
pub fn encode_ate(buf: &mut Vec<u8>, a: &Option<Potion>)
    ensures
        final(buf)@ == old(buf)@ + enc_ate(view_ate(*a)),
{
    match a {
        None => {
            let l = l_null_vec();
            push_bytes(buf, &l);
        },
        Some(p) => {
            encode_potion(buf, p);
        },
    }
}

/// Reads an optional eaten potion at position `i` of `s`, as [`dec_ate`]
/// describes.
pub fn parse_ate(s: &Vec<u8>, i: usize) -> (r: Option<(Option<Potion>, usize)>)
    requires
        i <= s.len(),
    ensures
        match r {
            Some(p) => i <= p.1 <= s.len() && dec_ate(s@.skip(i as int)) == Some(
                (view_ate(p.0), s@.skip(p.1 as int)),
            ),
            None => dec_ate(s@.skip(i as int)) is None,
        },
{
    let ln = l_null_vec();
    match parse_lit(s, i, &ln) {
        Some(j) => Some((None, j)),
        None => {
            match parse_potion(s, i) {
                Some((p, j)) => Some((Some(p), j)),
                None => None,
            }
        },
    }
}

/// The wire form of a motion segment of a player record.
#[verifier::opaque]
pub open spec fn enc_jump_seg(v: JumpSeg) -> Seq<u8> {
    l_pl_accel() + (enc_int(v.current_accel) + (l_pl_jumping() + (enc_bool(v.jumping) + (l_pl_joff() + (enc_int(v.jump_offset) + (l_pl_jdir() + (enc_bool(v.jump_direction) + (l_end()))))))))
}

/// Decodes a motion segment of a player record from the front of `s`.
#[verifier::opaque]
pub open spec fn dec_jump_seg(s: Seq<u8>) -> Option<(JumpSeg, Seq<u8>)> {
    match dec_lit(s, l_pl_accel()) {
        None => None,
        Some(s0) => {
            match dec_int(s0) {
                None => None,
                Some((x1, s1)) => {
                    match dec_lit(s1, l_pl_jumping()) {
                        None => None,
                        Some(s2) => {
                            match dec_bool(s2) {
                                None => None,
                                Some((x3, s3)) => {
                                    match dec_lit(s3, l_pl_joff()) {
                                        None => None,
                                        Some(s4) => {
                                            match dec_int(s4) {
                                                None => None,
                                                Some((x5, s5)) => {
                                                    match dec_lit(s5, l_pl_jdir()) {
                                                        None => None,
                                                        Some(s6) => {
                                                            match dec_bool(s6) {
                                                                None => None,
                                                                Some((x7, s7)) => {
                                                                    match dec_lit(s7, l_end()) {
                                                                        None => None,
                                                                        Some(s8) => {
                                                                            Some((JumpSeg { current_accel: x1, jumping: x3, jump_offset: x5, jump_direction: x7 }, s8))
                                                                        },
                                                                    }
                                                                },
                                                            }
                                                        },
                                                    }
                                                },
                                            }
                                        },
                                    }
                                },
                            }
                        },
                    }
                },
            }
        },
    }
}

/// A motion segment of a player record decodes from its own encoding, leaving the rest.
#[verifier::rlimit(100)]
pub proof fn lemma_dec_jump_seg(v: JumpSeg, rest: Seq<u8>)
    requires
        jump_seg_fits(v),
    ensures
        dec_jump_seg(enc_jump_seg(v) + rest) == Some((v, rest)),
{
    reveal(enc_jump_seg);
    reveal(dec_jump_seg);
    let t8 = l_end();
    let t7 = enc_bool(v.jump_direction) + (t8);
    let t6 = l_pl_jdir() + (t7);
    let t5 = enc_int(v.jump_offset) + (t6);
    let t4 = l_pl_joff() + (t5);
    let t3 = enc_bool(v.jumping) + (t4);
    let t2 = l_pl_jumping() + (t3);
    let t1 = enc_int(v.current_accel) + (t2);
    let t0 = l_pl_accel() + (t1);
    assert(enc_jump_seg(v) == t0);
    seq_assoc(l_pl_accel(), t1, rest);
    lemma_dec_lit(l_pl_accel(), t1 + rest);
    seq_assoc(enc_int(v.current_accel), t2, rest);
    assert((t2 + rest)[0] == l_pl_jumping()[0]);
    assert(!is_digit((t2 + rest)[0]));
    lemma_dec_int_enc_int(v.current_accel, t2 + rest);
    seq_assoc(l_pl_jumping(), t3, rest);
    lemma_dec_lit(l_pl_jumping(), t3 + rest);
    seq_assoc(enc_bool(v.jumping), t4, rest);
    lemma_dec_bool_enc_bool(v.jumping, t4 + rest);
    seq_assoc(l_pl_joff(), t5, rest);
    lemma_dec_lit(l_pl_joff(), t5 + rest);
    seq_assoc(enc_int(v.jump_offset), t6, rest);
    assert((t6 + rest)[0] == l_pl_jdir()[0]);
    assert(!is_digit((t6 + rest)[0]));
    lemma_dec_int_enc_int(v.jump_offset, t6 + rest);
    seq_assoc(l_pl_jdir(), t7, rest);
    lemma_dec_lit(l_pl_jdir(), t7 + rest);
    seq_assoc(enc_bool(v.jump_direction), t8, rest);
    lemma_dec_bool_enc_bool(v.jump_direction, t8 + rest);
    lemma_dec_lit(l_end(), rest);
    assert((JumpSeg { current_accel: v.current_accel, jumping: v.jumping, jump_offset: v.jump_offset, jump_direction: v.jump_direction }) =~= v);
}

/// Appends the wire form of a motion segment of a player record to `buf`.
pub fn encode_jump_seg(buf: &mut Vec<u8>, v: &JumpSegRec)
    ensures
        final(buf)@ == old(buf)@ + enc_jump_seg(v@),
{
    let ghost t8 = l_end();
    let ghost t7 = enc_bool(v.jump_direction) + (t8);
    let ghost t6 = l_pl_jdir() + (t7);
    let ghost t5 = enc_int(v.jump_offset as int) + (t6);
    let ghost t4 = l_pl_joff() + (t5);
    let ghost t3 = enc_bool(v.jumping) + (t4);
    let ghost t2 = l_pl_jumping() + (t3);
    let ghost t1 = enc_int(v.current_accel as int) + (t2);
    let ghost t0 = l_pl_accel() + (t1);
    proof {
        reveal(enc_jump_seg);
        assert(enc_jump_seg(v@) == t0);
    }
    let ghost base = buf@;
    let ghost mut done: Seq<u8> = Seq::empty();
    proof {
        assert(base + done =~= base);
        assert(done + t0 =~= t0);
    }
    let l0 = l_pl_accel_vec();
    push_bytes(buf, &l0);
    proof {
        seq_assoc(base, done, l_pl_accel());
        seq_assoc(done, l_pl_accel(), t1);
        done = done + l_pl_accel();
    }
    push_i64(buf, v.current_accel);
    proof {
        seq_assoc(base, done, enc_int(v.current_accel as int));
        seq_assoc(done, enc_int(v.current_accel as int), t2);
        done = done + enc_int(v.current_accel as int);
    }
    let l2 = l_pl_jumping_vec();
    push_bytes(buf, &l2);
    proof {
        seq_assoc(base, done, l_pl_jumping());
        seq_assoc(done, l_pl_jumping(), t3);
        done = done + l_pl_jumping();
    }
    push_bool(buf, v.jumping);
    proof {
        seq_assoc(base, done, enc_bool(v.jumping));
        seq_assoc(done, enc_bool(v.jumping), t4);
        done = done + enc_bool(v.jumping);
    }
    let l4 = l_pl_joff_vec();
    push_bytes(buf, &l4);
    proof {
        seq_assoc(base, done, l_pl_joff());
        seq_assoc(done, l_pl_joff(), t5);
        done = done + l_pl_joff();
    }
    push_i64(buf, v.jump_offset);
    proof {
        seq_assoc(base, done, enc_int(v.jump_offset as int));
        seq_assoc(done, enc_int(v.jump_offset as int), t6);
        done = done + enc_int(v.jump_offset as int);
    }
    let l6 = l_pl_jdir_vec();
    push_bytes(buf, &l6);
    proof {
        seq_assoc(base, done, l_pl_jdir());
        seq_assoc(done, l_pl_jdir(), t7);
        done = done + l_pl_jdir();
    }
    push_bool(buf, v.jump_direction);
    proof {
        seq_assoc(base, done, enc_bool(v.jump_direction));
        seq_assoc(done, enc_bool(v.jump_direction), t8);
        done = done + enc_bool(v.jump_direction);
    }
    let l8 = l_end_vec();
    push_bytes(buf, &l8);
    proof {
        seq_assoc(base, done, l_end());
        done = done + l_end();
    }
}

/// Reads a motion segment of a player record at position `i` of `s`, as [`dec_jump_seg`] describes.
pub fn parse_jump_seg(s: &Vec<u8>, i: usize) -> (r: Option<(JumpSegRec, usize)>)
    requires
        i <= s.len(),
    ensures
        match r {
            Some(p) => i <= p.1 <= s.len() && dec_jump_seg(s@.skip(i as int)) == Some(
                (p.0@, s@.skip(p.1 as int)),
            ),
            None => dec_jump_seg(s@.skip(i as int)) is None,
        },
{
    proof {
        reveal(dec_jump_seg);
    }
    let l0 = l_pl_accel_vec();
    let j0 = match parse_lit(s, i, &l0) {
        Some(j) => j,
        None => {
            return None;
        },
    };
    let (v1, j1) = match parse_i64(s, j0) {
        Some(p) => p,
        None => {
            return None;
        },
    };
    let l2 = l_pl_jumping_vec();
    let j2 = match parse_lit(s, j1, &l2) {
        Some(j) => j,
        None => {
            return None;
        },
    };
    let (v3, j3) = match parse_bool(s, j2) {
        Some(p) => p,
        None => {
            return None;
        },
    };
    let l4 = l_pl_joff_vec();
    let j4 = match parse_lit(s, j3, &l4) {
        Some(j) => j,
        None => {
            return None;
        },
    };
    let (v5, j5) = match parse_i64(s, j4) {
        Some(p) => p,
        None => {
            return None;
        },
    };
    let l6 = l_pl_jdir_vec();
    let j6 = match parse_lit(s, j5, &l6) {
        Some(j) => j,
        None => {
            return None;
        },
    };
    let (v7, j7) = match parse_bool(s, j6) {
        Some(p) => p,
        None => {
            return None;
        },
    };
    let l8 = l_end_vec();
    let j8 = match parse_lit(s, j7, &l8) {
        Some(j) => j,
        None => {
            return None;
        },
    };
    let ret = JumpSegRec { current_accel: v1, jumping: v3, jump_offset: v5, jump_direction: v7 };
    proof {
        assert(ret@ =~= JumpSeg { current_accel: v1 as int, jumping: v3, jump_offset: v5 as int, jump_direction: v7 });
    }
    Some((ret, j8))
}

/// The wire form of a vitals segment of a player record.
#[verifier::opaque]
pub open spec fn enc_player_stats(v: PlayerStats) -> Seq<u8> {
    l_pl_hp() + (enc_int(v.hp) + (l_pl_mp() + (enc_int(v.mp) + (l_pl_str() + (enc_int(v.str) + (enc_jump_seg(v.seg)))))))
}

/// Decodes a vitals segment of a player record from the front of `s`.
#[verifier::opaque]
pub open spec fn dec_player_stats(s: Seq<u8>) -> Option<(PlayerStats, Seq<u8>)> {
    match dec_lit(s, l_pl_hp()) {
        None => None,
        Some(s0) => {
            match dec_int(s0) {
                None => None,
                Some((x1, s1)) => {
                    match dec_lit(s1, l_pl_mp()) {
                        None => None,
                        Some(s2) => {
                            match dec_int(s2) {
                                None => None,
                                Some((x3, s3)) => {
                                    match dec_lit(s3, l_pl_str()) {
                                        None => None,
                                        Some(s4) => {
                                            match dec_int(s4) {
                                                None => None,
                                                Some((x5, s5)) => {
                                                    match dec_jump_seg(s5) {
                                                        None => None,
                                                        Some((x6, s6)) => {
                                                            Some((PlayerStats { hp: x1, mp: x3, str: x5, seg: x6 }, s6))
                                                        },
                                                    }
                                                },
                                            }
                                        },
                                    }
                                },
                            }
                        },
                    }
                },
            }
        },
    }
}

/// A vitals segment of a player record decodes from its own encoding, leaving the rest.
#[verifier::rlimit(100)]
pub proof fn lemma_dec_player_stats(v: PlayerStats, rest: Seq<u8>)
    requires
        stats_fits(v),
    ensures
        dec_player_stats(enc_player_stats(v) + rest) == Some((v, rest)),
{
    reveal(enc_player_stats);
    reveal(dec_player_stats);
    reveal(enc_jump_seg);
    let t6 = enc_jump_seg(v.seg);
    let t5 = enc_int(v.str) + (t6);
    let t4 = l_pl_str() + (t5);
    let t3 = enc_int(v.mp) + (t4);
    let t2 = l_pl_mp() + (t3);
    let t1 = enc_int(v.hp) + (t2);
    let t0 = l_pl_hp() + (t1);
    assert(enc_player_stats(v) == t0);
    seq_assoc(l_pl_hp(), t1, rest);
    lemma_dec_lit(l_pl_hp(), t1 + rest);
    seq_assoc(enc_int(v.hp), t2, rest);
    assert((t2 + rest)[0] == l_pl_mp()[0]);
    assert(!is_digit((t2 + rest)[0]));
    lemma_dec_int_enc_int(v.hp, t2 + rest);
    seq_assoc(l_pl_mp(), t3, rest);
    lemma_dec_lit(l_pl_mp(), t3 + rest);
    seq_assoc(enc_int(v.mp), t4, rest);
    assert((t4 + rest)[0] == l_pl_str()[0]);
    assert(!is_digit((t4 + rest)[0]));
    lemma_dec_int_enc_int(v.mp, t4 + rest);
    seq_assoc(l_pl_str(), t5, rest);
    lemma_dec_lit(l_pl_str(), t5 + rest);
    seq_assoc(enc_int(v.str), t6, rest);
    assert((t6 + rest)[0] == l_pl_accel()[0]);
    assert(!is_digit((t6 + rest)[0]));
    lemma_dec_int_enc_int(v.str, t6 + rest);
    lemma_dec_jump_seg(v.seg, rest);
    assert((PlayerStats { hp: v.hp, mp: v.mp, str: v.str, seg: v.seg }) =~= v);
}

/// Appends the wire form of a vitals segment of a player record to `buf`.
pub fn encode_player_stats(buf: &mut Vec<u8>, v: &PlayerStatsRec)
    ensures
        final(buf)@ == old(buf)@ + enc_player_stats(v@),
{
    let ghost t6 = enc_jump_seg(v.seg@);
    let ghost t5 = enc_int(v.str as int) + (t6);
    let ghost t4 = l_pl_str() + (t5);
    let ghost t3 = enc_int(v.mp as int) + (t4);
    let ghost t2 = l_pl_mp() + (t3);
    let ghost t1 = enc_int(v.hp as int) + (t2);
    let ghost t0 = l_pl_hp() + (t1);
    proof {
        reveal(enc_player_stats);
        assert(enc_player_stats(v@) == t0);
    }
    let ghost base = buf@;
    let ghost mut done: Seq<u8> = Seq::empty();
    proof {
        assert(base + done =~= base);
        assert(done + t0 =~= t0);
    }
    let l0 = l_pl_hp_vec();
    push_bytes(buf, &l0);
    proof {
        seq_assoc(base, done, l_pl_hp());
        seq_assoc(done, l_pl_hp(), t1);
        done = done + l_pl_hp();
    }
    push_i64(buf, v.hp);
    proof {
        seq_assoc(base, done, enc_int(v.hp as int));
        seq_assoc(done, enc_int(v.hp as int), t2);
        done = done + enc_int(v.hp as int);
    }
    let l2 = l_pl_mp_vec();
    push_bytes(buf, &l2);
    proof {
        seq_assoc(base, done, l_pl_mp());
        seq_assoc(done, l_pl_mp(), t3);
        done = done + l_pl_mp();
    }
    push_i64(buf, v.mp);
    proof {
        seq_assoc(base, done, enc_int(v.mp as int));
        seq_assoc(done, enc_int(v.mp as int), t4);
        done = done + enc_int(v.mp as int);
    }
    let l4 = l_pl_str_vec();
    push_bytes(buf, &l4);
    proof {
        seq_assoc(base, done, l_pl_str());
        seq_assoc(done, l_pl_str(), t5);
        done = done + l_pl_str();
    }
    push_i64(buf, v.str);
    proof {
        seq_assoc(base, done, enc_int(v.str as int));
        seq_assoc(done, enc_int(v.str as int), t6);
        done = done + enc_int(v.str as int);
    }
    encode_jump_seg(buf, &v.seg);
    proof {
        seq_assoc(base, done, enc_jump_seg(v.seg@));
        done = done + enc_jump_seg(v.seg@);
    }
}

/// Reads a vitals segment of a player record at position `i` of `s`, as [`dec_player_stats`] describes.
pub fn parse_player_stats(s: &Vec<u8>, i: usize) -> (r: Option<(PlayerStatsRec, usize)>)
    requires
        i <= s.len(),
    ensures
        match r {
            Some(p) => i <= p.1 <= s.len() && dec_player_stats(s@.skip(i as int)) == Some(
                (p.0@, s@.skip(p.1 as int)),
            ),
            None => dec_player_stats(s@.skip(i as int)) is None,
        },
{
    proof {
        reveal(dec_player_stats);
    }
    let l0 = l_pl_hp_vec();
    let j0 = match parse_lit(s, i, &l0) {
        Some(j) => j,
        None => {
            return None;
        },
    };
    let (v1, j1) = match parse_i64(s, j0) {
        Some(p) => p,
        None => {
            return None;
        },
    };
    let l2 = l_pl_mp_vec();
    let j2 = match parse_lit(s, j1, &l2) {
        Some(j) => j,
        None => {
            return None;
        },
    };
    let (v3, j3) = match parse_i64(s, j2) {
        Some(p) => p,
        None => {
            return None;
        },
    };
    let l4 = l_pl_str_vec();
    let j4 = match parse_lit(s, j3, &l4) {
        Some(j) => j,
        None => {
            return None;
        },
    };
    let (v5, j5) = match parse_i64(s, j4) {
        Some(p) => p,
        None => {
            return None;
        },
    };
    let (v6, j6) = match parse_jump_seg(s, j5) {
        Some(p) => p,
        None => {
            return None;
        },
    };
    let ret = PlayerStatsRec { hp: v1, mp: v3, str: v5, seg: v6 };
    proof {
        assert(ret@ =~= PlayerStats { hp: v1 as int, mp: v3 as int, str: v5 as int, seg: v6@ });
    }
    Some((ret, j6))
}

/// The motion segment of a player record: acceleration and jump state.
#[verifier::ext_equal]
pub struct JumpSeg {
    pub current_accel: int,
    pub jumping: bool,
    pub jump_offset: int,
    pub jump_direction: bool,
}

/// Executable carrier of the motion segment.
pub struct JumpSegRec {
    pub current_accel: i64,
    pub jumping: bool,
    pub jump_offset: i64,
    pub jump_direction: bool,
}

impl View for JumpSegRec {
    type V = JumpSeg;

    open spec fn view(&self) -> JumpSeg {
        JumpSeg {
            current_accel: self.current_accel as int,
            jumping: self.jumping,
            jump_offset: self.jump_offset as int,
            jump_direction: self.jump_direction,
        }
    }
}

/// Every numeric field of the motion segment fits in 64 bits.
pub open spec fn jump_seg_fits(st: JumpSeg) -> bool {
    int_fits(st.current_accel) && int_fits(st.jump_offset)
}

/// The vitals segment of a player record: the fixed stats and the motion
/// segment.
#[verifier::ext_equal]
pub struct PlayerStats {
    pub hp: int,
    pub mp: int,
    pub str: int,
    pub seg: JumpSeg,
}

/// Executable carrier of the vitals segment.
pub struct PlayerStatsRec {
    pub hp: i64,
    pub mp: i64,
    pub str: i64,
    pub seg: JumpSegRec,
}

impl View for PlayerStatsRec {
    type V = PlayerStats;

    open spec fn view(&self) -> PlayerStats {
        PlayerStats { hp: self.hp as int, mp: self.mp as int, str: self.str as int, seg: self.seg@ }
    }
}

/// Every numeric field of the segment fits in 64 bits.
pub open spec fn stats_fits(st: PlayerStats) -> bool {
    &&& int_fits(st.hp)
    &&& int_fits(st.mp)
    &&& int_fits(st.str)
    &&& jump_seg_fits(st.seg)
}

/// The vitals and motion segment of a player view.
pub open spec fn stats_of(p: PlayerView) -> PlayerStats {
    PlayerStats {
        hp: p.hp,
        mp: p.mp,
        str: p.str,
        seg: JumpSeg {
            current_accel: p.current_accel,
            jumping: p.jumping,
            jump_offset: p.jump_offset,
            jump_direction: p.jump_direction,
        },
    }
}

/// The wire form of a player record.
pub open spec fn enc_player(v: PlayerView) -> Seq<u8> {
    l_pl_body() + (enc_position(v.body) + (l_pl_dir() + (enc_direction(v.dir) + (l_pl_last() + (
    enc_direction(v.last_dir) + (l_pl_ate() + (enc_ate(v.ate) + (l_pl_name() + (enc_str(v.name)
        + enc_player_stats(stats_of(v)))))))))))
}

/// Decodes a player record from the front of `s`.
pub open spec fn dec_player(s: Seq<u8>) -> Option<(PlayerView, Seq<u8>)> {
    match dec_lit(s, l_pl_body()) {
        None => None,
        Some(s0) => match dec_position(s0) {
            None => None,
            Some((body, s1)) => match dec_lit(s1, l_pl_dir()) {
                None => None,
                Some(s2) => match dec_direction(s2) {
                    None => None,
                    Some((dir, s3)) => match dec_lit(s3, l_pl_last()) {
                        None => None,
                        Some(s4) => match dec_direction(s4) {
                            None => None,
                            Some((last_dir, s5)) => match dec_lit(s5, l_pl_ate()) {
                                None => None,
                                Some(s6) => match dec_ate(s6) {
                                    None => None,
                                    Some((ate, s7)) => match dec_lit(s7, l_pl_name()) {
                                        None => None,
                                        Some(s8) => match dec_str(s8) {
                                            None => None,
                                            Some((name, s9)) => match dec_player_stats(s9) {
                                                None => None,
                                                Some((st, s10)) => Some(
                                                    (
                                                        PlayerView {
                                                            body: body,
                                                            dir: dir,
                                                            last_dir: last_dir,
                                                            ate: ate,
                                                            name: name,
                                                            hp: st.hp,
                                                            mp: st.mp,
                                                            str: st.str,
                                                            current_accel: st.seg.current_accel,
                                                            jumping: st.seg.jumping,
                                                            jump_offset: st.seg.jump_offset,
                                                            jump_direction: st.seg.jump_direction,
                                                        },
                                                        s10,
                                                    ),
                                                ),
                                            },
                                        },
                                    },
                                },
                            },
                        },
                    },
                },
            },
        },
    }
}

/// A player record decodes from its own encoding, leaving the rest.
#[verifier::rlimit(100)]
pub proof fn lemma_dec_player(v: PlayerView, rest: Seq<u8>)
    requires
        player_fits(v),
    ensures
        dec_player(enc_player(v) + rest) == Some((v, rest)),
{
    let t10 = enc_player_stats(stats_of(v));
    let t9 = enc_str(v.name) + (t10);
    let t8 = l_pl_name() + (t9);
    let t7 = enc_ate(v.ate) + (t8);
    let t6 = l_pl_ate() + (t7);
    let t5 = enc_direction(v.last_dir) + (t6);
    let t4 = l_pl_last() + (t5);
    let t3 = enc_direction(v.dir) + (t4);
    let t2 = l_pl_dir() + (t3);
    let t1 = enc_position(v.body) + (t2);
    let t0 = l_pl_body() + (t1);
    assert(enc_player(v) == t0);
    seq_assoc(l_pl_body(), t1, rest);
    lemma_dec_lit(l_pl_body(), t1 + rest);
    seq_assoc(enc_position(v.body), t2, rest);
    lemma_dec_position(v.body, t2 + rest);
    seq_assoc(l_pl_dir(), t3, rest);
    lemma_dec_lit(l_pl_dir(), t3 + rest);
    seq_assoc(enc_direction(v.dir), t4, rest);
    lemma_dec_direction(v.dir, t4 + rest);
    seq_assoc(l_pl_last(), t5, rest);
    lemma_dec_lit(l_pl_last(), t5 + rest);
    seq_assoc(enc_direction(v.last_dir), t6, rest);
    lemma_dec_direction(v.last_dir, t6 + rest);
    seq_assoc(l_pl_ate(), t7, rest);
    lemma_dec_lit(l_pl_ate(), t7 + rest);
    seq_assoc(enc_ate(v.ate), t8, rest);
    lemma_dec_ate(v.ate, t8 + rest);
    seq_assoc(l_pl_name(), t9, rest);
    lemma_dec_lit(l_pl_name(), t9 + rest);
    seq_assoc(enc_str(v.name), t10, rest);
    lemma_dec_str_enc_str(v.name, t10 + rest);
    lemma_dec_player_stats(stats_of(v), rest);
    assert((PlayerView {
        body: v.body,
        dir: v.dir,
        last_dir: v.last_dir,
        ate: v.ate,
        name: v.name,
        hp: stats_of(v).hp,
        mp: stats_of(v).mp,
        str: stats_of(v).str,
        current_accel: stats_of(v).seg.current_accel,
        jumping: stats_of(v).seg.jumping,
        jump_offset: stats_of(v).seg.jump_offset,
        jump_direction: stats_of(v).seg.jump_direction,
    }) =~= v);
}

/// A player record's encoding is never empty and opens with a brace.
pub proof fn lemma_enc_player_head(p: PlayerView)
    ensures
        enc_player(p).len() >= 1,
        enc_player(p)[0] == 123,
{
    reveal(enc_player);
    assert(enc_player(p)[0] == l_pl_body()[0]);
}

/// Appends the wire form of a player record to `buf`.
pub fn encode_player(buf: &mut Vec<u8>, v: &Player)
    ensures
        final(buf)@ == old(buf)@ + enc_player(v@),
{
    let ghost t10 = enc_player_stats(stats_of(v@));
    let ghost t9 = enc_str(v.name@) + (t10);
    let ghost t8 = l_pl_name() + (t9);
    let ghost t7 = enc_ate(view_ate(v.ate)) + (t8);
    let ghost t6 = l_pl_ate() + (t7);
    let ghost t5 = enc_direction(v.last_dir) + (t6);
    let ghost t4 = l_pl_last() + (t5);
    let ghost t3 = enc_direction(v.dir) + (t4);
    let ghost t2 = l_pl_dir() + (t3);
    let ghost t1 = enc_position(v.body@) + (t2);
    let ghost t0 = l_pl_body() + (t1);
    proof {
        assert(enc_player(v@) == t0);
    }
    let ghost base = buf@;
    let ghost mut done: Seq<u8> = Seq::empty();
    proof {
        assert(base + done =~= base);
        assert(done + t0 =~= t0);
    }
    let l0 = l_pl_body_vec();
    push_bytes(buf, &l0);
    proof {
        seq_assoc(base, done, l_pl_body());
        seq_assoc(done, l_pl_body(), t1);
        done = done + l_pl_body();
    }
    encode_position(buf, &v.body);
    proof {
        seq_assoc(base, done, enc_position(v.body@));
        seq_assoc(done, enc_position(v.body@), t2);
        done = done + enc_position(v.body@);
    }
    let l2 = l_pl_dir_vec();
    push_bytes(buf, &l2);
    proof {
        seq_assoc(base, done, l_pl_dir());
        seq_assoc(done, l_pl_dir(), t3);
        done = done + l_pl_dir();
    }
    encode_direction(buf, &v.dir);
    proof {
        seq_assoc(base, done, enc_direction(v.dir));
        seq_assoc(done, enc_direction(v.dir), t4);
        done = done + enc_direction(v.dir);
    }
    let l4 = l_pl_last_vec();
    push_bytes(buf, &l4);
    proof {
        seq_assoc(base, done, l_pl_last());
        seq_assoc(done, l_pl_last(), t5);
        done = done + l_pl_last();
    }
    encode_direction(buf, &v.last_dir);
    proof {
        seq_assoc(base, done, enc_direction(v.last_dir));
        seq_assoc(done, enc_direction(v.last_dir), t6);
        done = done + enc_direction(v.last_dir);
    }
    let l6 = l_pl_ate_vec();
    push_bytes(buf, &l6);
    proof {
        seq_assoc(base, done, l_pl_ate());
        seq_assoc(done, l_pl_ate(), t7);
        done = done + l_pl_ate();
    }
    encode_ate(buf, &v.ate);
    proof {
        seq_assoc(base, done, enc_ate(view_ate(v.ate)));
        seq_assoc(done, enc_ate(view_ate(v.ate)), t8);
        done = done + enc_ate(view_ate(v.ate));
    }
    let l8 = l_pl_name_vec();
    push_bytes(buf, &l8);
    proof {
        seq_assoc(base, done, l_pl_name());
        seq_assoc(done, l_pl_name(), t9);
        done = done + l_pl_name();
    }
    push_str(buf, &v.name);
    proof {
        seq_assoc(base, done, enc_str(v.name@));
        seq_assoc(done, enc_str(v.name@), t10);
        done = done + enc_str(v.name@);
    }
    let st = PlayerStatsRec {
        hp: v.hp,
        mp: v.mp,
        str: v.str,
        seg: JumpSegRec {
            current_accel: v.current_accel,
            jumping: v.jumping,
            jump_offset: v.jump_offset,
            jump_direction: v.jump_direction,
        },
    };
    proof {
        assert(st@.seg =~= stats_of(v@).seg);
        assert(st@ =~= stats_of(v@));
    }
    encode_player_stats(buf, &st);
    proof {
        seq_assoc(base, done, enc_player_stats(stats_of(v@)));
        done = done + enc_player_stats(stats_of(v@));
    }
}

/// Reads a player record at position `i` of `s`, as [`dec_player`]
/// describes.
pub fn parse_player(s: &Vec<u8>, i: usize) -> (r: Option<(Player, usize)>)
    requires
        i <= s.len(),
    ensures
        match r {
            Some(p) => i <= p.1 <= s.len() && dec_player(s@.skip(i as int)) == Some(
                (p.0@, s@.skip(p.1 as int)),
            ),
            None => dec_player(s@.skip(i as int)) is None,
        },
{
    let l0 = l_pl_body_vec();
    let j0 = match parse_lit(s, i, &l0) {
        Some(j) => j,
        None => {
            return None;
        },
    };
    let (body, j1) = match parse_position(s, j0) {
        Some(p) => p,
        None => {
            return None;
        },
    };
    let l2 = l_pl_dir_vec();
    let j2 = match parse_lit(s, j1, &l2) {
        Some(j) => j,
        None => {
            return None;
        },
    };
    let (dir, j3) = match parse_direction(s, j2) {
        Some(p) => p,
        None => {
            return None;
        },
    };
    let l4 = l_pl_last_vec();
    let j4 = match parse_lit(s, j3, &l4) {
        Some(j) => j,
        None => {
            return None;
        },
    };
    let (last_dir, j5) = match parse_direction(s, j4) {
        Some(p) => p,
        None => {
            return None;
        },
    };
    let l6 = l_pl_ate_vec();
    let j6 = match parse_lit(s, j5, &l6) {
        Some(j) => j,
        None => {
            return None;
        },
    };
    let (ate, j7) = match parse_ate(s, j6) {
        Some(p) => p,
        None => {
            return None;
        },
    };
    let l8 = l_pl_name_vec();
    let j8 = match parse_lit(s, j7, &l8) {
        Some(j) => j,
        None => {
            return None;
        },
    };
    let (name, j9) = match parse_string(s, j8) {
        Some(p) => p,
        None => {
            return None;
        },
    };
    let (st, j10) = match parse_player_stats(s, j9) {
        Some(p) => p,
        None => {
            return None;
        },
    };
    let ret = Player {
        body,
        dir,
        last_dir,
        ate,
        name,
        hp: st.hp,
        mp: st.mp,
        str: st.str,
        current_accel: st.seg.current_accel,
        jumping: st.seg.jumping,
        jump_offset: st.seg.jump_offset,
        jump_direction: st.seg.jump_direction,
    };
    proof {
        assert(ret@ =~= PlayerView {
            body: body@,
            dir: dir,
            last_dir: last_dir,
            ate: view_ate(ate),
            name: name@,
            hp: st@.hp,
            mp: st@.mp,
            str: st@.str,
            current_accel: st@.seg.current_accel,
            jumping: st@.seg.jumping,
            jump_offset: st@.seg.jump_offset,
            jump_direction: st@.seg.jump_direction,
        });
    }
    Some((ret, j10))
}
} // verus!
