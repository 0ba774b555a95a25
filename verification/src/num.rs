//! Decimal renderings of frame counts and chunk indices, together with the
//! facts about them that the persisted-state codec and the chunk names rely
//! on: every number has exactly one decimal rendering, and reading the
//! digits back yields the number.

use vstd::prelude::*;

verus! {

pub open spec fn is_digit(c: char) -> bool {
    '0' <= c <= '9'
}

pub open spec fn digit_char(d: nat) -> char
    recommends
        d < 10,
{
    if d == 0 {
        '0'
    } else if d == 1 {
        '1'
    } else if d == 2 {
        '2'
    } else if d == 3 {
        '3'
    } else if d == 4 {
        '4'
    } else if d == 5 {
        '5'
    } else if d == 6 {
        '6'
    } else if d == 7 {
        '7'
    } else if d == 8 {
        '8'
    } else {
        '9'
    }
}

pub open spec fn digit_val(c: char) -> nat
    recommends
        is_digit(c),
{
    (c as nat - '0' as nat) as nat
}

/// The canonical decimal rendering of `n`: no leading zeros, most
/// significant digit first.
pub open spec fn dec_rep(n: nat) -> Seq<char>
    decreases n,
{
    if n < 10 {
        seq![digit_char(n)]
    } else {
        dec_rep(n / 10).push(digit_char(n % 10))
    }
}

/// The chunk name derived from its planning index: the index zero-padded to
/// at least five digits, `"00001"`-style.
pub open spec fn pad5_spec(n: nat) -> Seq<char> {
    if dec_rep(n).len() >= 5 {
        dec_rep(n)
    } else {
        Seq::new((5 - dec_rep(n).len()) as nat, |i: int| '0') + dec_rep(n)
    }
}

pub proof fn lemma_dec_rep_digits(n: nat)
    ensures
        dec_rep(n).len() >= 1,
        forall|i: int| 0 <= i < dec_rep(n).len() ==> is_digit(#[trigger] dec_rep(n)[i]),
        forall|i: int|
            0 <= i < dec_rep(n).len() ==> digit_val(#[trigger] dec_rep(n)[i]) < 10,
    decreases n,
{
    if n >= 10 {
        lemma_dec_rep_digits(n / 10);
    }
}

/// Reading the digits of `dec_rep(n)` back as a base-ten numeral, starting
/// from an accumulator, yields the accumulator shifted past those digits
/// plus `n`.
pub proof fn lemma_dec_rep_value(n: nat, acc: nat)
    ensures
        digits_value(dec_rep(n), acc) == acc * pow10(dec_rep(n).len()) + n,
    decreases n,
{
    assert(pow10(1) == 10) by {
        assert(pow10(0) == 1);
        assert(pow10(1) == pow10(0) * 10);
    }
    if n < 10 {
        assert(dec_rep(n) == seq![digit_char(n)]);
        assert(digits_value(dec_rep(n), acc) == digits_value(
            dec_rep(n).drop_first(),
            acc * 10 + digit_val(dec_rep(n)[0]),
        ));
        assert(dec_rep(n).drop_first() =~= Seq::<char>::empty());
        assert(digits_value(Seq::<char>::empty(), acc * 10 + digit_val(digit_char(n))) == acc * 10
            + digit_val(digit_char(n)));
        assert(digit_val(digit_char(n)) == n);
        assert(dec_rep(n).len() == 1);
    } else {
        let s = dec_rep(n);
        let hi = dec_rep(n / 10);
        let last = digit_char(n % 10);
        assert(s == hi.push(last));
        lemma_dec_rep_digits(n / 10);
        lemma_digits_value_push(hi, last, acc);
        lemma_dec_rep_value(n / 10, acc);
        assert(digits_value(s, acc) == digits_value(hi, acc) * 10 + digit_val(last));
        assert(digit_val(last) == n % 10);
        assert((acc * pow10(hi.len()) + n / 10) * 10 == acc * pow10(hi.len()) * 10 + (n / 10)
            * 10) by (nonlinear_arith);
        assert(pow10(hi.len()) * 10 == pow10(hi.len() + 1)) by {
            lemma_pow10_succ(hi.len());
        }
        assert(acc * pow10(hi.len()) * 10 == acc * (pow10(hi.len()) * 10)) by (nonlinear_arith);
        assert(n / 10 * 10 + n % 10 == n);
        assert(s.len() == hi.len() + 1);
    }
}

pub open spec fn pow10(k: nat) -> nat
    decreases k,
{
    if k == 0 {
        1
    } else {
        pow10((k - 1) as nat) * 10
    }
}

proof fn lemma_pow10_succ(k: nat)
    ensures
        pow10(k + 1) == pow10(k) * 10,
{
    assert(pow10(k + 1) == pow10(k) * 10) by {
        assert(pow10(k + 1) == pow10((k + 1 - 1) as nat) * 10);
    }
}

/// The value of a digit string read left to right on top of an accumulator.
pub open spec fn digits_value(s: Seq<char>, acc: nat) -> nat
    decreases s.len(),
{
    if s.len() == 0 {
        acc
    } else {
        digits_value(s.drop_first(), acc * 10 + digit_val(s[0]))
    }
}

pub proof fn lemma_digits_value_push(s: Seq<char>, c: char, acc: nat)
    ensures
        digits_value(s.push(c), acc) == digits_value(s, acc) * 10 + digit_val(c),
    decreases s.len(),
{
    assert(s.push(c).len() == s.len() + 1);
    assert(digits_value(s.push(c), acc) == digits_value(
        s.push(c).drop_first(),
        acc * 10 + digit_val(s.push(c)[0]),
    ));
    if s.len() == 0 {
        assert(s.push(c)[0] == c);
        assert(s.push(c).drop_first() =~= Seq::<char>::empty());
        assert(digits_value(Seq::<char>::empty(), acc * 10 + digit_val(c)) == acc * 10
            + digit_val(c));
        assert(digits_value(s, acc) == acc);
    } else {
        assert(s.push(c).drop_first() =~= s.drop_first().push(c));
        assert(s.push(c)[0] == s[0]);
        lemma_digits_value_push(s.drop_first(), c, acc * 10 + digit_val(s[0]));
        assert(digits_value(s, acc) == digits_value(s.drop_first(), acc * 10 + digit_val(s[0])));
    }
}

/// Two different numbers never share a decimal rendering, because the
/// rendering evaluates back to the number.
pub proof fn lemma_dec_rep_injective(a: nat, b: nat)
    requires
        dec_rep(a) == dec_rep(b),
    ensures
        a == b,
{
    lemma_dec_rep_value(a, 0);
    lemma_dec_rep_value(b, 0);
}

fn digit_str(d: u64) -> (s: &'static str)
    requires
        d < 10,
    ensures
        s@ =~= seq![digit_char(d as nat)],
{
    proof {
        reveal_strlit("0");
        reveal_strlit("1");
        reveal_strlit("2");
        reveal_strlit("3");
        reveal_strlit("4");
        reveal_strlit("5");
        reveal_strlit("6");
        reveal_strlit("7");
        reveal_strlit("8");
        reveal_strlit("9");
    }
    if d == 0 {
        "0"
    } else if d == 1 {
        "1"
    } else if d == 2 {
        "2"
    } else if d == 3 {
        "3"
    } else if d == 4 {
        "4"
    } else if d == 5 {
        "5"
    } else if d == 6 {
        "6"
    } else if d == 7 {
        "7"
    } else if d == 8 {
        "8"
    } else {
        "9"
    }
}

/// Render `n` in decimal, exactly as `dec_rep` describes it.
pub fn u64_dec(n: u64) -> (s: String)
    ensures
        s@ == dec_rep(n as nat),
    decreases n,
{
    if n < 10 {
        String::from_str(digit_str(n))
    } else {
        let mut s = u64_dec(n / 10);
        s.append(digit_str(n % 10));
        assert(s@ =~= dec_rep(n as nat));
        s
    }
}

proof fn lemma_dec_len_small(n: nat)
    ensures
        n < 10 ==> dec_rep(n).len() == 1,
        10 <= n < 100 ==> dec_rep(n).len() == 2,
        100 <= n < 1000 ==> dec_rep(n).len() == 3,
        1000 <= n < 10000 ==> dec_rep(n).len() == 4,
        10000 <= n < 100000 ==> dec_rep(n).len() == 5,
        100000 <= n ==> dec_rep(n).len() >= 5,
    decreases n,
{
    if n >= 10 {
        lemma_dec_len_small(n / 10);
    }
}

/// The chunk name for planning index `n`: its decimal rendering zero-padded
/// to at least five characters.
pub fn pad5(n: usize) -> (s: String)
    ensures
        s@ == pad5_spec(n as nat),
{
    let digits = u64_dec(n as u64);
    proof {
        lemma_dec_len_small(n as nat);
        reveal_strlit("");
        reveal_strlit("0");
        reveal_strlit("00");
        reveal_strlit("000");
        reveal_strlit("0000");
    }
    let prefix: &'static str = if n < 10 {
        "0000"
    } else if n < 100 {
        "000"
    } else if n < 1000 {
        "00"
    } else if n < 10000 {
        "0"
    } else {
        ""
    };
    let mut s = String::from_str(prefix);
    s.append(digits.as_str());
    proof {
        if n < 10 {
            assert(s@ =~= Seq::new(4, |i: int| '0') + dec_rep(n as nat));
            assert(pad5_spec(n as nat) =~= s@);
        } else if n < 100 {
            assert(s@ =~= Seq::new(3, |i: int| '0') + dec_rep(n as nat));
            assert(pad5_spec(n as nat) =~= s@);
        } else if n < 1000 {
            assert(s@ =~= Seq::new(2, |i: int| '0') + dec_rep(n as nat));
            assert(pad5_spec(n as nat) =~= s@);
        } else if n < 10000 {
            assert(s@ =~= Seq::new(1, |i: int| '0') + dec_rep(n as nat));
            assert(pad5_spec(n as nat) =~= s@);
        } else {
            assert(s@ =~= dec_rep(n as nat));
            assert(pad5_spec(n as nat) =~= s@);
        }
    }
    s
}

/// Character-by-character string equality, meaning equality of the views.
pub fn str_eq(a: &str, b: &str) -> (r: bool)
    ensures
        r == (a@ == b@),
{
    let alen = a.unicode_len();
    let blen = b.unicode_len();
    if alen != blen {
        assert(a@ != b@) by {
            assert(a@.len() != b@.len());
        }
        return false;
    }
    let mut i: usize = 0;
    while i < alen
        invariant
            alen == a@.len(),
            blen == b@.len(),
            alen == blen,
            i <= alen,
            forall|j: int| 0 <= j < i ==> a@[j] == b@[j],
        decreases alen - i,
    {
        let ca = a.get_char(i);
        let cb = b.get_char(i);
        if ca != cb {
            assert(a@ != b@) by {
                assert(a@[i as int] != b@[i as int]);
            }
            return false;
        }
        i += 1;
    }
    proof {
        assert(a@ =~= b@);
    }
    true
}

} // verus!
