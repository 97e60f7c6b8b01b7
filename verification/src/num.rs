//! Canonical decimal notation for integers on the wire: an optional minus
//! sign followed by digits without leading zeros. The decoder accepts
//! exactly the encoder's output for every value that fits in `i64`.

use vstd::prelude::*;
use vstd::seq_lib::lemma_seq_skip_of_skip;

verus! {

pub open spec fn is_digit(b: u8) -> bool {
    48 <= b <= 57
}

pub open spec fn digit_byte(n: nat) -> u8 {
    (48 + n) as u8
}

pub open spec fn digit_val(b: u8) -> nat {
    (b - 48) as nat
}

/// The decimal digits of `n`, most significant first.
pub open spec fn enc_nat(n: nat) -> Seq<u8>
    decreases n,
{
    if n < 10 {
        seq![digit_byte(n)]
    } else {
        enc_nat(n / 10) + seq![digit_byte(n % 10)]
    }
}

/// Canonical decimal notation of `v`: digits, with a leading minus sign
/// for negative values.
pub open spec fn enc_int(v: int) -> Seq<u8> {
    if v < 0 {
        seq![45u8] + enc_nat((-v) as nat)
    } else {
        enc_nat(v as nat)
    }
}

/// Length of the leading run of digit bytes.
pub open spec fn digit_run(s: Seq<u8>) -> nat
    decreases s.len(),
{
    if s.len() > 0 && is_digit(s[0]) {
        1 + digit_run(s.skip(1))
    } else {
        0
    }
}

/// Value of a digit string, most significant digit first.
pub open spec fn digits_val(d: Seq<u8>) -> nat
    decreases d.len(),
{
    if d.len() == 0 {
        0
    } else {
        digits_val(d.take(d.len() - 1)) * 10 + digit_val(d[d.len() - 1])
    }
}

/// Decodes a canonical unsigned number from the front of `s`: a nonempty
/// digit run with no leading zero. Yields the value and the remainder.
pub open spec fn dec_nat(s: Seq<u8>) -> Option<(nat, Seq<u8>)> {
    let k = digit_run(s);
    if k == 0 {
        None
    } else if s[0] == 48 && k > 1 {
        None
    } else {
        Some((digits_val(s.take(k as int)), s.skip(k as int)))
    }
}

/// Decodes a canonical signed number that fits in `i64` from the front of
/// `s`. A minus sign must be followed by a nonzero number.
pub open spec fn dec_int(s: Seq<u8>) -> Option<(int, Seq<u8>)> {
    if s.len() > 0 && s[0] == 45 {
        match dec_nat(s.skip(1)) {
            Some((n, r)) => if n > 0 && -(n as int) >= i64::MIN as int {
                Some((-(n as int), r))
            } else {
                None
            },
            None => None,
        }
    } else {
        match dec_nat(s) {
            Some((n, r)) => if n <= i64::MAX as nat {
                Some((n as int, r))
            } else {
                None
            },
            None => None,
        }
    }
}

pub open spec fn pow10(k: nat) -> nat
    decreases k,
{
    if k == 0 {
        1
    } else {
        10 * pow10((k - 1) as nat)
    }
}

/// Concatenation splits back into its parts.
pub proof fn lemma_concat_parts<T>(a: Seq<T>, b: Seq<T>)
    ensures
        (a + b).take(a.len() as int) == a,
        (a + b).skip(a.len() as int) == b,
{
    assert((a + b).take(a.len() as int) =~= a);
    assert((a + b).skip(a.len() as int) =~= b);
}

/// The digits of `n` are a nonempty digit string without a leading zero
/// (except for zero itself), and they evaluate back to `n`.
pub proof fn lemma_enc_nat_props(n: nat)
    ensures
        enc_nat(n).len() >= 1,
        forall|i: int| 0 <= i < enc_nat(n).len() ==> is_digit(#[trigger] enc_nat(n)[i]),
        n > 0 ==> enc_nat(n)[0] != 48,
        n == 0 ==> enc_nat(n) == seq![48u8],
        digits_val(enc_nat(n)) == n,
    decreases n,
{
    if n < 10 {
        let d = seq![digit_byte(n)];
        assert(digits_val(enc_nat(n)) == digits_val(d));
        assert(d.take(0) =~= Seq::<u8>::empty());
        assert(digits_val(Seq::<u8>::empty()) == 0);
        assert(digits_val(d) == digits_val(d.take(0)) * 10 + digit_val(d[0]));
        assert(digit_val(digit_byte(n)) == n);
    } else {
        lemma_enc_nat_props(n / 10);
        let hd = enc_nat(n / 10);
        let d = seq![digit_byte(n % 10)];
        lemma_concat_parts(hd, d);
        assert(enc_nat(n) == hd + d);
        assert((hd + d).take((hd + d).len() - 1) == hd);
        assert(digits_val(enc_nat(n)) == digits_val(hd) * 10 + digit_val(digit_byte(n % 10)));
        assert(digits_val(enc_nat(n)) == (n / 10) * 10 + n % 10);
        assert(forall|i: int|
            0 <= i < enc_nat(n).len() ==> is_digit(#[trigger] enc_nat(n)[i])) by {
            assert(forall|i: int| 0 <= i < hd.len() ==> enc_nat(n)[i] == #[trigger] hd[i]);
            assert(enc_nat(n)[hd.len() as int] == digit_byte(n % 10));
        }
        assert(enc_nat(n)[0] == hd[0]);
    }
}

/// A digit run is exactly as long as the leading digits last.
pub proof fn lemma_digit_run_exact(s: Seq<u8>, k: int)
    requires
        0 <= k <= s.len(),
        forall|i: int| 0 <= i < k ==> is_digit(#[trigger] s[i]),
        k == s.len() || !is_digit(s[k]),
    ensures
        digit_run(s) == k,
    decreases k,
{
    if k == 0 {
    } else {
        lemma_digit_run_exact(s.skip(1), k - 1);
    }
}

/// A digit string of length `k` is worth less than `pow10(k)`; without a
/// leading zero it is worth at least `pow10(k - 1)`.
pub proof fn lemma_digits_val_bounds(d: Seq<u8>)
    requires
        forall|i: int| 0 <= i < d.len() ==> is_digit(#[trigger] d[i]),
    ensures
        digits_val(d) < pow10(d.len()),
        d.len() >= 1 && d[0] != 48 ==> digits_val(d) >= pow10((d.len() - 1) as nat),
    decreases d.len(),
{
    if d.len() == 0 {
    } else {
        let hd = d.take(d.len() - 1);
        lemma_digits_val_bounds(hd);
        assert(digits_val(d) == digits_val(hd) * 10 + digit_val(d[d.len() - 1]));
        assert(digits_val(hd) * 10 <= (pow10(hd.len()) - 1) * 10) by {
            assert(digits_val(hd) <= pow10(hd.len()) - 1);
        }
        assert(pow10(d.len()) == 10 * pow10(hd.len()));
        if d.len() >= 2 && d[0] != 48 {
            assert(hd[0] == d[0]);
            assert(digits_val(hd) >= pow10((hd.len() - 1) as nat));
            assert(digits_val(hd) * 10 >= pow10((hd.len() - 1) as nat) * 10);
        }
        if d.len() == 1 && d[0] != 48 {
            assert(digit_val(d[0]) >= 1);
        }
    }
}

/// Ten to the nineteenth, spelled out for the overflow checks.
pub proof fn lemma_pow10_19()
    ensures
        pow10(19) == 10000000000000000000,
{
    assert(pow10(0) == 1);
    assert(pow10(1) == 10);
    assert(pow10(2) == 100);
    assert(pow10(3) == 1000);
    assert(pow10(4) == 10000);
    assert(pow10(5) == 100000);
    assert(pow10(6) == 1000000);
    assert(pow10(7) == 10000000);
    assert(pow10(8) == 100000000);
    assert(pow10(9) == 1000000000);
    assert(pow10(10) == 10000000000);
    assert(pow10(11) == 100000000000);
    assert(pow10(12) == 1000000000000);
    assert(pow10(13) == 10000000000000);
    assert(pow10(14) == 100000000000000);
    assert(pow10(15) == 1000000000000000);
    assert(pow10(16) == 10000000000000000);
    assert(pow10(17) == 100000000000000000);
    assert(pow10(18) == 1000000000000000000);
    assert(pow10(19) == 10000000000000000000);
}

/// Decoding the encoding of an unsigned value gives the value back, as
/// long as what follows does not begin with a digit.
pub proof fn lemma_dec_nat_enc_nat(n: nat, rest: Seq<u8>)
    requires
        rest.len() == 0 || !is_digit(rest[0]),
    ensures
        dec_nat(enc_nat(n) + rest) == Some((n, rest)),
{
    let e = enc_nat(n);
    let s = e + rest;
    lemma_enc_nat_props(n);
    assert(forall|i: int| 0 <= i < e.len() ==> is_digit(#[trigger] s[i]));
    assert(e.len() == s.len() || !is_digit(s[e.len() as int]));
    lemma_digit_run_exact(s, e.len() as int);
    lemma_concat_parts(e, rest);
    if n == 0 {
        assert(e == seq![48u8]);
        assert(digit_run(s) == 1);
    } else {
        assert(s[0] == e[0]);
        assert(s[0] != 48);
    }
    assert(dec_nat(s) == Some((digits_val(e), rest)));
}

/// Decoding the encoding of a signed `i64` value gives the value back, as
/// long as what follows does not begin with a digit.
pub proof fn lemma_dec_int_enc_int(v: int, rest: Seq<u8>)
    requires
        i64::MIN as int <= v <= i64::MAX as int,
        rest.len() == 0 || !is_digit(rest[0]),
    ensures
        dec_int(enc_int(v) + rest) == Some((v, rest)),
{
    if v < 0 {
        let m = (-v) as nat;
        let e = enc_nat(m);
        lemma_enc_nat_props(m);
        let s = enc_int(v) + rest;
        assert(s =~= seq![45u8] + (e + rest));
        assert(s[0] == 45);
        assert(s.skip(1) =~= e + rest);
        lemma_dec_nat_enc_nat(m, rest);
    } else {
        let e = enc_nat(v as nat);
        lemma_enc_nat_props(v as nat);
        assert(enc_int(v) + rest =~= e + rest);
        lemma_dec_nat_enc_nat(v as nat, rest);
        let s = e + rest;
        if s[0] == 45 {
            assert(is_digit(e[0]) && s[0] == e[0]);
            assert(false);
        }
    }
}

/// Appends the decimal digits of `n` to `buf`.
pub fn push_u64_digits(buf: &mut Vec<u8>, n: u64)
    ensures
        final(buf)@ == old(buf)@ + enc_nat(n as nat),
    decreases n,
{
    if n < 10 {
        buf.push(48 + (n as u8));
        proof {
            assert(buf@ =~= old(buf)@ + enc_nat(n as nat));
        }
    } else {
        push_u64_digits(buf, n / 10);
        buf.push(48 + ((n % 10) as u8));
        proof {
            assert(buf@ =~= old(buf)@ + enc_nat(n as nat));
        }
    }
}

/// Appends the canonical decimal notation of `v` to `buf`.
pub fn push_i64(buf: &mut Vec<u8>, v: i64)
    ensures
        final(buf)@ == old(buf)@ + enc_int(v as int),
{
    if v < 0 {
        buf.push(45);
        let m: u64 = (-(v as i128)) as u64;
        push_u64_digits(buf, m);
        proof {
            assert(m as nat == (-(v as int)) as nat);
            assert(buf@ =~= old(buf)@ + enc_int(v as int));
        }
    } else {
        push_u64_digits(buf, v as u64);
        proof {
            assert(buf@ =~= old(buf)@ + enc_int(v as int));
        }
    }
}

/// Reads a canonical signed number from `s` at position `i`, as
/// [`dec_int`] describes: the value and the position after the digits, or
/// nothing where the bytes are not canonical or do not fit in `i64`.
pub fn parse_i64(s: &Vec<u8>, i: usize) -> (r: Option<(i64, usize)>)
    requires
        i <= s.len(),
    ensures
        match r {
            Some(p) => i <= p.1 <= s.len() && dec_int(s@.skip(i as int)) == Some(
                (p.0 as int, s@.skip(p.1 as int)),
            ),
            None => dec_int(s@.skip(i as int)) is None,
        },
{
    let ghost whole = s@.skip(i as int);
    let negative = i < s.len() && s[i] == 45;
    let start = if negative {
        i + 1
    } else {
        i
    };
    let ghost body = s@.skip(start as int);
    proof {
        if negative {
            lemma_seq_skip_of_skip(s@, i as int, start as int);
            assert(whole.skip(1) =~= body);
        }
    }
    let mut j = start;
    while j < s.len() && s[j] >= 48 && s[j] <= 57
        invariant
            start <= j <= s.len(),
            forall|q: int| start <= q < j ==> is_digit(#[trigger] s@[q]),
        decreases s.len() - j,
    {
        j = j + 1;
    }
    let k = j - start;
    proof {
        assert(forall|q: int| 0 <= q < k ==> is_digit(#[trigger] body[q]));
        assert(k == body.len() || !is_digit(body[k as int]));
        lemma_digit_run_exact(body, k as int);
    }
    if k == 0 {
        return None;
    }
    if s[start] == 48 && k > 1 {
        return None;
    }
    let ghost run = body.take(k as int);
    proof {
        lemma_digits_val_bounds(run);
        lemma_pow10_19();
        lemma_seq_skip_of_skip(s@, start as int, j as int);
        assert(body.skip(k as int) =~= s@.skip(j as int));
    }
    if k > 19 {
        proof {
            assert(run[0] == body[0]);
            assert(digits_val(run) >= pow10((k - 1) as nat));
            assert(pow10((k - 1) as nat) >= pow10(19)) by {
                lemma_pow10_grows(19, (k - 1) as nat);
            }
        }
        return None;
    }
    let mut acc: u64 = 0;
    let mut q = start;
    while q < j
        invariant
            start <= q <= j,
            j <= s.len(),
            j - start <= 19,
            forall|t: int| start <= t < j ==> is_digit(#[trigger] s@[t]),
            body == s@.skip(start as int),
            acc as nat == digits_val(body.take((q - start) as int)),
            (acc as nat) < pow10((q - start) as nat),
            pow10(19) == 10000000000000000000,
        decreases j - q,
    {
        let d = s[q] - 48;
        proof {
            assert(body.take((q + 1 - start) as int).take((q - start) as int) =~= body.take(
                (q - start) as int,
            ));
            assert(pow10((q - start) as nat) <= pow10(18)) by {
                lemma_pow10_grows((q - start) as nat, 18);
            }
            assert(pow10(18) * 10 == pow10(19));
            assert((acc as nat) * 10 + (d as nat) < pow10((q + 1 - start) as nat)) by {
                assert((acc as nat) <= pow10((q - start) as nat) - 1);
                assert((acc as nat) * 10 <= (pow10((q - start) as nat) - 1) * 10);
            }
        }
        acc = acc * 10 + (d as u64);
        q = q + 1;
    }
    proof {
        assert(body.take((j - start) as int) == run);
        assert(acc as nat == digits_val(run));
    }
    if negative {
        if acc == 0 {
            return None;
        }
        if acc > 9223372036854775808 {
            return None;
        }
        let v: i64 = if acc == 9223372036854775808 {
            i64::MIN
        } else {
            -(acc as i64)
        };
        Some((v, j))
    } else {
        if acc > 9223372036854775807 {
            return None;
        }
        Some((acc as i64, j))
    }
}

/// `pow10` grows with its exponent.
pub proof fn lemma_pow10_grows(a: nat, b: nat)
    requires
        a <= b,
    ensures
        pow10(a) <= pow10(b),
    decreases b,
{
    if a < b {
        lemma_pow10_grows(a, (b - 1) as nat);
        assert(pow10(b) == 10 * pow10((b - 1) as nat));
    }
}

} // verus!
