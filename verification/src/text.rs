//! Decimal text encoding used by the token wire format.
//!
//! Numbers are written in canonical decimal: no sign, no leading zeros.
//! `spec_dec` is the mathematical encoding, `dec_val` its left inverse, and
//! the executable `push_dec_u64` / `parse_u64` are proved against them.

use vstd::prelude::*;

verus! {

pub open spec fn is_digit(c: char) -> bool {
    '0' <= c && c <= '9'
}

pub open spec fn digit_char(d: nat) -> char
    recommends
        d < 10,
{
    if d == 0 { '0' }
    else if d == 1 { '1' }
    else if d == 2 { '2' }
    else if d == 3 { '3' }
    else if d == 4 { '4' }
    else if d == 5 { '5' }
    else if d == 6 { '6' }
    else if d == 7 { '7' }
    else if d == 8 { '8' }
    else { '9' }
}

pub open spec fn digit_val(c: char) -> nat
    recommends
        is_digit(c),
{
    if c == '0' { 0 }
    else if c == '1' { 1 }
    else if c == '2' { 2 }
    else if c == '3' { 3 }
    else if c == '4' { 4 }
    else if c == '5' { 5 }
    else if c == '6' { 6 }
    else if c == '7' { 7 }
    else if c == '8' { 8 }
    else { 9 }
}

/// Canonical decimal encoding of a natural number.
pub open spec fn spec_dec(n: nat) -> Seq<char>
    decreases n,
{
    if n < 10 {
        seq![digit_char(n)]
    } else {
        spec_dec(n / 10).push(digit_char(n % 10))
    }
}

/// Value of a digit string, most significant digit first.
pub open spec fn dec_val(s: Seq<char>) -> nat
    decreases s.len(),
{
    if s.len() == 0 {
        0
    } else {
        dec_val(s.drop_last()) * 10 + digit_val(s.last())
    }
}

pub open spec fn all_digits(s: Seq<char>) -> bool {
    forall|i: int| 0 <= i < s.len() ==> is_digit(#[trigger] s[i])
}

pub proof fn lemma_dec_shape(n: nat)
    ensures
        spec_dec(n).len() >= 1,
        all_digits(spec_dec(n)),
        spec_dec(n)[0] == '0' ==> n == 0,
    decreases n,
{
    if n >= 10 {
        lemma_dec_shape(n / 10);
        assert(n / 10 > 0);
        assert forall|i: int| 0 <= i < spec_dec(n).len() implies is_digit(#[trigger] spec_dec(n)[i]) by {
            if i < spec_dec(n / 10).len() {
                assert(spec_dec(n)[i] == spec_dec(n / 10)[i]);
            } else {
                assert(spec_dec(n)[i] == digit_char(n % 10));
            }
        }
    }
}

pub proof fn lemma_dec_val_of_dec(n: nat)
    ensures
        dec_val(spec_dec(n)) == n,
    decreases n,
{
    if n < 10 {
        let s = spec_dec(n);
        assert(s == seq![digit_char(n)]);
        assert(s.drop_last() =~= Seq::<char>::empty());
        assert(s.last() == digit_char(n));
        assert(digit_val(digit_char(n)) == n);
        assert(dec_val(s) == dec_val(s.drop_last()) * 10 + digit_val(s.last()));
        assert(dec_val(s.drop_last()) == 0);
    } else {
        let s = spec_dec(n);
        lemma_dec_val_of_dec(n / 10);
        assert(s == spec_dec(n / 10).push(digit_char(n % 10)));
        assert(s.drop_last() =~= spec_dec(n / 10));
        assert(s.last() == digit_char(n % 10));
        assert(digit_val(digit_char(n % 10)) == n % 10);
        assert(dec_val(s) == dec_val(s.drop_last()) * 10 + digit_val(s.last()));
        vstd::arithmetic::div_mod::lemma_fundamental_div_mod(n as int, 10);
        assert(n == 10 * (n / 10) + (n % 10));
        assert(dec_val(s) == (n / 10) * 10 + (n % 10));
    }
}

/// Two equal canonical encodings denote the same number.
pub proof fn lemma_dec_injective(a: nat, b: nat)
    requires
        spec_dec(a) == spec_dec(b),
    ensures
        a == b,
{
    lemma_dec_val_of_dec(a);
    lemma_dec_val_of_dec(b);
}

/// A nonempty digit string without a leading zero has value at least 1,
/// and appending digits never lowers the value.
pub proof fn lemma_dec_val_positive(s: Seq<char>)
    requires
        s.len() >= 1,
        all_digits(s),
        s[0] != '0',
    ensures
        dec_val(s) >= 1,
    decreases s.len(),
{
    if s.len() > 1 {
        assert(s.drop_last()[0] == s[0]);
        lemma_dec_val_positive(s.drop_last());
    }
}

/// A canonical digit string is the encoding of its own value.
pub proof fn lemma_canonical_digits(s: Seq<char>)
    requires
        s.len() >= 1,
        all_digits(s),
        s.len() > 1 ==> s[0] != '0',
    ensures
        spec_dec(dec_val(s)) == s,
    decreases s.len(),
{
    if s.len() == 1 {
        let c = s[0];
        assert(digit_char(digit_val(c)) == c);
        assert(dec_val(s) == dec_val(s.drop_last()) * 10 + digit_val(s.last()));
        assert(s.drop_last().len() == 0);
        assert(dec_val(s) == digit_val(c));
        assert(spec_dec(dec_val(s)) =~= s);
    } else {
        let p = s.drop_last();
        let d = digit_val(s.last());
        assert(p[0] == s[0]);
        lemma_canonical_digits(p);
        lemma_dec_val_positive(p);
        let v = dec_val(s);
        assert(v == dec_val(p) * 10 + d);
        assert(v / 10 == dec_val(p) && v % 10 == d) by (nonlinear_arith)
            requires
                v == dec_val(p) * 10 + d,
                0 <= d < 10,
        ;
        assert(v >= 10) by (nonlinear_arith)
            requires
                v == dec_val(p) * 10 + d,
                dec_val(p) >= 1,
                d >= 0,
        ;
        assert(spec_dec(v) == spec_dec(v / 10).push(digit_char(v % 10)));
        assert(digit_char(d) == s.last());
        assert(spec_dec(v) =~= s);
    }
}

/// Extending a digit string with further digits can only increase its value.
pub proof fn lemma_dec_val_extend(s: Seq<char>, t: Seq<char>)
    requires
        all_digits(t),
        s.len() <= t.len(),
        s =~= t.subrange(0, s.len() as int),
    ensures
        dec_val(t) >= dec_val(s),
    decreases t.len() - s.len(),
{
    if s.len() == t.len() {
        assert(t.subrange(0, s.len() as int) =~= t);
    } else {
        let u = t.drop_last();
        assert(all_digits(u)) by {
            assert(forall|i: int| 0 <= i < u.len() ==> u[i] == t[i]);
        }
        assert(s =~= u.subrange(0, s.len() as int));
        lemma_dec_val_extend(s, u);
        assert(dec_val(t) == dec_val(u) * 10 + digit_val(t.last()));
        assert(dec_val(t) >= dec_val(u)) by (nonlinear_arith)
            requires
                dec_val(t) == dec_val(u) * 10 + digit_val(t.last()),
                digit_val(t.last()) >= 0,
        ;
    }
}

/// `spec_dec(n)` appears in `s` at `pos` and the match is maximal: the
/// encoding is followed by the end of `s` or by a non-digit.
pub open spec fn dec_at(s: Seq<char>, pos: int, n: nat) -> bool {
    &&& 0 <= pos
    &&& pos + spec_dec(n).len() <= s.len()
    &&& s.subrange(pos, pos + spec_dec(n).len() as int) == spec_dec(n)
    &&& (pos + spec_dec(n).len() == s.len() || !is_digit(s[pos + spec_dec(n).len()]))
}

/// At one position at most one number can be read.
pub proof fn lemma_dec_at_unique(s: Seq<char>, pos: int, a: nat, b: nat)
    requires
        dec_at(s, pos, a),
        dec_at(s, pos, b),
    ensures
        a == b,
{
    lemma_dec_shape(a);
    lemma_dec_shape(b);
    let la = spec_dec(a).len() as int;
    let lb = spec_dec(b).len() as int;
    if la < lb {
        assert(is_digit(s[pos + la])) by {
            assert(s[pos + la] == spec_dec(b)[la]);
        }
        assert(false);
    }
    if lb < la {
        assert(is_digit(s[pos + lb])) by {
            assert(s[pos + lb] == spec_dec(a)[lb]);
        }
        assert(false);
    }
    assert(spec_dec(a) == spec_dec(b));
    lemma_dec_injective(a, b);
}

fn is_digit_char(c: char) -> (b: bool)
    ensures
        b == is_digit(c),
{
    c >= '0' && c <= '9'
}

fn digit_of(c: char) -> (d: u8)
    requires
        is_digit(c),
    ensures
        d < 10,
        d as nat == digit_val(c),
{
    if c == '0' { 0 }
    else if c == '1' { 1 }
    else if c == '2' { 2 }
    else if c == '3' { 3 }
    else if c == '4' { 4 }
    else if c == '5' { 5 }
    else if c == '6' { 6 }
    else if c == '7' { 7 }
    else if c == '8' { 8 }
    else { 9 }
}

fn char_of_digit(d: u8) -> (c: char)
    requires
        d < 10,
    ensures
        c == digit_char(d as nat),
{
    if d == 0 { '0' }
    else if d == 1 { '1' }
    else if d == 2 { '2' }
    else if d == 3 { '3' }
    else if d == 4 { '4' }
    else if d == 5 { '5' }
    else if d == 6 { '6' }
    else if d == 7 { '7' }
    else if d == 8 { '8' }
    else { '9' }
}

/// Append the canonical decimal encoding of `n`.
pub fn push_dec_u64(out: &mut Vec<char>, n: u64)
    ensures
        final(out)@ == old(out)@ + spec_dec(n as nat),
    decreases n,
{
    if n < 10 {
        out.push(char_of_digit(n as u8));
        assert(out@ =~= old(out)@ + spec_dec(n as nat));
    } else {
        push_dec_u64(out, n / 10);
        out.push(char_of_digit((n % 10) as u8));
        assert((n / 10) as nat == (n as nat) / 10);
        assert((n % 10) as nat == (n as nat) % 10);
        assert(out@ =~= old(out)@ + spec_dec(n as nat));
    }
}

/// Read a canonical decimal number at `pos`: a maximal digit run, no
/// leading zero, value within `u64`. Returns the value and the position
/// just past it; returns `None` exactly when no number can be read there.
pub fn parse_u64(s: &Vec<char>, pos: usize) -> (r: Option<(u64, usize)>)
    requires
        pos <= s@.len(),
    ensures
        r matches Some(v) ==> {
            &&& dec_at(s@, pos as int, v.0 as nat)
            &&& v.1 as int == pos + spec_dec(v.0 as nat).len()
            &&& pos < v.1 <= s@.len()
        },
        r is None ==> forall|m: u64| !dec_at(s@, pos as int, m as nat),
{
    let len = s.len();
    if pos == len || !is_digit_char(s[pos]) {
        proof {
            assert forall|m: u64| !dec_at(s@, pos as int, m as nat) by {
                lemma_dec_shape(m as nat);
                if dec_at(s@, pos as int, m as nat) {
                    assert(s@[pos as int] == spec_dec(m as nat)[0]);
                    assert(is_digit(s@[pos as int]));
                }
            }
        }
        return None;
    }
    if s[pos] == '0' {
        if pos + 1 == len || !is_digit_char(s[pos + 1]) {
            proof {
                assert(spec_dec(0)[0] == '0');
                assert(s@.subrange(pos as int, pos + 1) =~= spec_dec(0));
            }
            return Some((0, pos + 1));
        }
        proof {
            assert forall|m: u64| !dec_at(s@, pos as int, m as nat) by {
                lemma_dec_shape(m as nat);
                if dec_at(s@, pos as int, m as nat) {
                    assert(spec_dec(m as nat)[0] == s@[pos as int]);
                    assert(m == 0);
                    assert(spec_dec(0).len() == 1);
                    assert(is_digit(s@[pos + 1]));
                }
            }
        }
        return None;
    }

    let d0 = digit_of(s[pos]);
    let mut acc: u64 = d0 as u64;
    let mut i: usize = pos + 1;
    proof {
        let one = s@.subrange(pos as int, pos + 1);
        assert(one =~= seq![s@[pos as int]]);
        assert(one.len() == 1);
        assert(one.last() == s@[pos as int]);
        assert(one.drop_last() =~= Seq::<char>::empty());
        assert(dec_val(Seq::<char>::empty()) == 0);
        assert(dec_val(one) == dec_val(one.drop_last()) * 10 + digit_val(one.last()));
        assert(dec_val(one) == digit_val(s@[pos as int]));
    }
    while i < len && is_digit_char(s[i])
        invariant
            pos < i <= len,
            len == s@.len(),
            is_digit(s@[pos as int]),
            s@[pos as int] != '0',
            all_digits(s@.subrange(pos as int, i as int)),
            acc as nat == dec_val(s@.subrange(pos as int, i as int)),
        decreases len - i,
    {
        let d = digit_of(s[i]);
        let overflow: bool = acc > u64::MAX / 10 || (acc == u64::MAX / 10 && d > 5);
        if overflow {
            proof {
                let run = s@.subrange(pos as int, i + 1);
                assert(run.drop_last() =~= s@.subrange(pos as int, i as int));
                assert(dec_val(run) == (acc as nat) * 10 + digit_val(s@[i as int]));
                assert(u64::MAX as int == 10 * ((u64::MAX as int) / 10) + 5);
                assert((acc as nat) * 10 + digit_val(s@[i as int]) > u64::MAX as nat) by (nonlinear_arith)
                    requires
                        ((acc as int) > (u64::MAX as int) / 10) || ((acc as int) == (u64::MAX
                            as int) / 10 && digit_val(s@[i as int]) > 5),
                        u64::MAX as int == 10 * ((u64::MAX as int) / 10) + 5,
                        digit_val(s@[i as int]) >= 0,
                ;
                assert(all_digits(run)) by {
                    assert(forall|k: int| 0 <= k < i + 1 - pos ==> run[k] == s@.subrange(
                        pos as int, i + 1)[k]);
                }
                assert forall|m: u64| !dec_at(s@, pos as int, m as nat) by {
                    lemma_dec_shape(m as nat);
                    if dec_at(s@, pos as int, m as nat) {
                        let lm = spec_dec(m as nat).len() as int;
                        if lm < i + 1 - pos {
                            assert(is_digit(s@[pos + lm])) by {
                                assert(s@[pos + lm] == run[lm]);
                            }
                            assert(false);
                        }
                        assert(run =~= spec_dec(m as nat).subrange(0, i + 1 - pos)) by {
                            assert(forall|k: int| 0 <= k < i + 1 - pos ==> run[k] == s@[pos + k]
                                && spec_dec(m as nat)[k] == s@[pos + k]);
                        }
                        lemma_dec_val_extend(run, spec_dec(m as nat));
                        lemma_dec_val_of_dec(m as nat);
                        assert(false);
                    }
                }
            }
            return None;
        }
        proof {
            assert((acc as int) * 10 + d <= u64::MAX as int) by (nonlinear_arith)
                requires
                    (acc as int) <= (u64::MAX as int) / 10,
                    ((acc as int) < (u64::MAX as int) / 10) || (d <= 5),
                    0 <= d < 10,
                    u64::MAX as int == 10 * ((u64::MAX as int) / 10) + 5,
            ;
            assert(u64::MAX as int == 10 * ((u64::MAX as int) / 10) + 5);
        }
        let ghost prev = s@.subrange(pos as int, i as int);
        acc = acc * 10 + (d as u64);
        i = i + 1;
        proof {
            let run = s@.subrange(pos as int, i as int);
            assert(run.drop_last() =~= prev);
            assert(all_digits(run)) by {
                assert(forall|k: int| 0 <= k < run.len() ==> run[k] == s@[pos + k]);
                assert(forall|k: int| 0 <= k < prev.len() ==> prev[k] == s@[pos + k]);
            }
            assert(dec_val(run) == dec_val(prev) * 10 + digit_val(s@[i - 1]));
        }
    }
    proof {
        let run = s@.subrange(pos as int, i as int);
        lemma_canonical_digits(run);
        assert(run == spec_dec(acc as nat));
        assert(i == pos + spec_dec(acc as nat).len());
    }
    Some((acc, i))
}

} // verus!
