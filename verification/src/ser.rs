//! The codec for the persisted job state: the chunk queue, the scene list,
//! and the done record are written as text and read back.
//!
//! The format is deterministic and length-prefixed: a number is its decimal
//! digits closed by `:`, a string is its length followed by its characters,
//! a list is its element count followed by the elements.  Writing a value
//! and reading it back yields the value again, which is what resume relies
//! on; the round trip is proved below for every layer.

use vstd::prelude::*;

use crate::num::{
    dec_rep, digit_val, digits_value, is_digit, lemma_dec_rep_digits, lemma_dec_rep_value, pow10,
    u64_dec,
};

verus! {

// ---------------------------------------------------------------------
// numbers
// ---------------------------------------------------------------------

/// A serialized number: its decimal digits closed by a colon.
pub open spec fn ser_num(n: nat) -> Seq<char> {
    dec_rep(n) + seq![':']
}

/// Where the digit run beginning at `i` ends.
pub open spec fn digits_end(s: Seq<char>, i: int) -> int
    decreases s.len() - i,
{
    if 0 <= i < s.len() && is_digit(s[i]) {
        digits_end(s, i + 1)
    } else {
        i
    }
}

proof fn lemma_digits_end_bounds(s: Seq<char>, i: int)
    requires
        0 <= i <= s.len(),
    ensures
        i <= digits_end(s, i) <= s.len(),
        forall|k: int| i <= k < digits_end(s, i) ==> is_digit(s[k]),
        digits_end(s, i) < s.len() ==> !is_digit(s[digits_end(s, i)]),
    decreases s.len() - i,
{
    if i < s.len() && is_digit(s[i]) {
        lemma_digits_end_bounds(s, i + 1);
    }
}

/// Scanning a known digit run ends exactly at its end.
proof fn lemma_digits_end_of_run(s: Seq<char>, i: int, j: int)
    requires
        0 <= i <= j <= s.len(),
        forall|k: int| i <= k < j ==> is_digit(#[trigger] s[k]),
        j < s.len() ==> !is_digit(s[j]),
    ensures
        digits_end(s, i) == j,
    decreases j - i,
{
    if i < j {
        lemma_digits_end_of_run(s, i + 1, j);
    }
}

/// Parse a number at `i`: the digit run up to the closing colon, as long as
/// it has at most twenty digits and its value fits.
pub open spec fn parse_num(s: Seq<char>, i: int) -> Option<(u64, int)> {
    let j = digits_end(s, i);
    if i < j && j - i <= 20 && j < s.len() && s[j] == ':' && digits_value(
        s.subrange(i, j),
        0,
    ) <= u64::MAX {
        Some((digits_value(s.subrange(i, j), 0) as u64, j + 1))
    } else {
        None
    }
}

proof fn lemma_pow10_20()
    ensures
        pow10(19) == 0x8AC7230489E80000,
        pow10(20) > u64::MAX,
{
    assert(pow10(0) == 1);
    assert(pow10(1) == pow10(0) * 10);
    assert(pow10(2) == pow10(1) * 10);
    assert(pow10(3) == pow10(2) * 10);
    assert(pow10(4) == pow10(3) * 10);
    assert(pow10(5) == pow10(4) * 10);
    assert(pow10(6) == pow10(5) * 10);
    assert(pow10(7) == pow10(6) * 10);
    assert(pow10(8) == pow10(7) * 10);
    assert(pow10(9) == pow10(8) * 10);
    assert(pow10(10) == pow10(9) * 10);
    assert(pow10(11) == pow10(10) * 10);
    assert(pow10(12) == pow10(11) * 10);
    assert(pow10(13) == pow10(12) * 10);
    assert(pow10(14) == pow10(13) * 10);
    assert(pow10(15) == pow10(14) * 10);
    assert(pow10(16) == pow10(15) * 10);
    assert(pow10(17) == pow10(16) * 10);
    assert(pow10(18) == pow10(17) * 10);
    assert(pow10(19) == pow10(18) * 10);
    assert(pow10(20) == pow10(19) * 10);
}

/// The decimal rendering of any value below `pow10(k)` has at most `k`
/// digits.
proof fn lemma_dec_len_le(n: nat, k: nat)
    requires
        k >= 1,
        n < pow10(k),
    ensures
        dec_rep(n).len() <= k,
    decreases k,
{
    if n >= 10 {
        assert(pow10(k) == pow10((k - 1) as nat) * 10);
        assert(n / 10 < pow10((k - 1) as nat)) by (nonlinear_arith)
            requires
                n < pow10((k - 1) as nat) * 10,
        ;
        lemma_dec_len_le(n / 10, (k - 1) as nat);
    }
}

/// Reading back a serialized number yields the number, whatever follows it.
pub proof fn lemma_parse_ser_num(pre: Seq<char>, n: u64, rest: Seq<char>)
    ensures
        parse_num(pre + ser_num(n as nat) + rest, pre.len() as int) == Some(
            (n, pre.len() + ser_num(n as nat).len() as int),
        ),
{
    let s = pre + ser_num(n as nat) + rest;
    let i = pre.len() as int;
    let d = dec_rep(n as nat);
    let j = i + d.len();
    lemma_dec_rep_digits(n as nat);
    assert forall|k: int| i <= k < j implies is_digit(#[trigger] s[k]) by {
        assert(s[k] == d[k - i]);
    }
    assert(s[j] == ':');
    assert(!is_digit(':'));
    lemma_digits_end_of_run(s, i, j);
    assert(s.subrange(i, j) =~= d);
    lemma_dec_rep_value(n as nat, 0);
    assert(digits_value(d, 0) == n);
    assert(d.len() <= 20) by {
        lemma_pow10_20();
        lemma_dec_len_le(n as nat, 20);
    }
}

/// Emit a number.
pub fn write_num(out: &mut String, n: u64)
    ensures
        final(out)@ == old(out)@ + ser_num(n as nat),
{
    let d = u64_dec(n);
    out.append(d.as_str());
    out.append(":");
    proof {
        reveal_strlit(":");
        assert(":"@ =~= seq![':']);
        assert(final(out)@ =~= old(out)@ + ser_num(n as nat));
    }
}

/// Read a number, exactly as `parse_num` describes.
pub fn read_num(s: &str, pos: usize) -> (r: Option<(u64, usize)>)
    requires
        pos <= s@.len(),
    ensures
        match r {
            Some((v, p)) => parse_num(s@, pos as int) == Some((v, p as int)) && pos < p <= s@.len(),
            None => parse_num(s@, pos as int) is None,
        },
{
    let len = s.unicode_len();
    // find the end of the digit run
    let mut j: usize = pos;
    while j < len
        invariant
            pos <= j <= len,
            len == s@.len(),
            forall|k: int| pos <= k < j ==> is_digit(#[trigger] s@[k]),
        ensures
            pos <= j <= len,
            len == s@.len(),
            forall|k: int| pos <= k < j ==> is_digit(#[trigger] s@[k]),
            j == len || !is_digit(s@[j as int]),
        decreases len - j,
    {
        let c = s.get_char(j);
        if !(c >= '0' && c <= '9') {
            break;
        }
        j += 1;
    }
    proof {
        lemma_digits_end_of_run(s@, pos as int, j as int);
    }
    if j == pos || j - pos > 20 || j == len {
        return None;
    }
    let close = s.get_char(j);
    if close != ':' {
        return None;
    }
    // accumulate the digits
    let ghost run = s@.subrange(pos as int, j as int);
    let mut acc: u64 = 0;
    let mut k: usize = pos;
    proof {
        lemma_pow10_20();
        assert(run.subrange(0, 0) =~= Seq::<char>::empty());
    }
    while k < j
        invariant
            pos <= k <= j < s@.len(),
            pos < j,
            j - pos <= 20,
            digits_end(s@, pos as int) == j,
            s@[j as int] == ':',
            run == s@.subrange(pos as int, j as int),
            forall|t: int| pos <= t < j ==> is_digit(#[trigger] s@[t]),
            acc == digits_value(run.subrange(0, k - pos), 0),
        decreases j - k,
    {
        let c = s.get_char(k);
        let d: u64 = (c as u32 as u64) - ('0' as u32 as u64);
        proof {
            assert(c == run[k - pos]);
            assert(is_digit(c));
            assert(d == digit_val(c));
            assert(run.subrange(0, k - pos + 1) =~= run.subrange(0, k - pos).push(c));
            crate::num::lemma_digits_value_push(run.subrange(0, k - pos), c, 0);
        }
        if acc > (u64::MAX - d) / 10 {
            proof {
                // the accumulated value has overflowed: the whole run's value
                // cannot fit either, so the spec parse fails too
                assert(acc * 10 + d > u64::MAX) by (nonlinear_arith)
                    requires
                        acc > (u64::MAX - d) / 10,
                        d <= 9,
                ;
                assert(digits_value(run.subrange(0, k - pos + 1), 0) == acc * 10 + digit_val(c));
                lemma_digits_prefix_le(run, (k - pos + 1) as int);
                assert(digits_value(run, 0) > u64::MAX);
                assert(s@.subrange(pos as int, digits_end(s@, pos as int)) == run);
                assert(parse_num(s@, pos as int) is None);
            }
            return None;
        }
        proof {
            assert(acc * 10 + d <= u64::MAX) by (nonlinear_arith)
                requires
                    acc <= (u64::MAX - d) / 10,
                    d <= 9,
            ;
        }
        acc = acc * 10 + d;
        k += 1;
    }
    proof {
        assert(run.subrange(0, (j - pos) as int) =~= run);
        assert(parse_num(s@, pos as int) == Some((acc, j + 1int)));
    }
    Some((acc, j + 1))
}

// ---------------------------------------------------------------------
// strings, booleans, options, string lists
// ---------------------------------------------------------------------

/// A serialized string: its length, then its characters.
pub open spec fn ser_str(t: Seq<char>) -> Seq<char> {
    ser_num(t.len()) + t
}

pub open spec fn parse_str(s: Seq<char>, i: int) -> Option<(Seq<char>, int)> {
    match parse_num(s, i) {
        Some((n, j)) => if j + n <= s.len() {
            Some((s.subrange(j, j + n), j + n))
        } else {
            None
        },
        None => None,
    }
}

/// Reading back a serialized string yields the string, whatever follows it.
pub proof fn lemma_parse_ser_str(pre: Seq<char>, t: Seq<char>, rest: Seq<char>)
    requires
        t.len() <= u64::MAX,
    ensures
        parse_str(pre + ser_str(t) + rest, pre.len() as int) == Some(
            (t, pre.len() + ser_str(t).len() as int),
        ),
{
    let s = pre + ser_str(t) + rest;
    assert(s =~= pre + ser_num(t.len()) + (t + rest));
    lemma_parse_ser_num(pre, t.len() as u64, t + rest);
    let j = pre.len() + ser_num(t.len()).len() as int;
    assert(s.subrange(j, j + t.len()) =~= t);
}

/// Emit a string.
pub fn write_str(out: &mut String, t: &str)
    ensures
        final(out)@ == old(out)@ + ser_str(t@),
{
    let n = t.unicode_len();
    write_num(out, n as u64);
    out.append(t);
    proof {
        assert(final(out)@ =~= old(out)@ + ser_str(t@));
    }
}

/// Read a string, exactly as `parse_str` describes.
pub fn read_str(s: &str, pos: usize) -> (r: Option<(String, usize)>)
    requires
        pos <= s@.len(),
    ensures
        match r {
            Some((t, p)) => parse_str(s@, pos as int) == Some((t@, p as int)) && pos < p
                <= s@.len(),
            None => parse_str(s@, pos as int) is None,
        },
{
    let len = s.unicode_len();
    match read_num(s, pos) {
        Some((n, j)) => {
            if n > (len - j) as u64 {
                return None;
            }
            let n_us: usize = n as usize;
            let t = s.substring_char(j, j + n_us);
            Some((String::from_str(t), j + n_us))
        },
        None => None,
    }
}

/// A serialized boolean: one tag character.
pub open spec fn ser_bool(b: bool) -> Seq<char> {
    if b {
        seq!['T']
    } else {
        seq!['F']
    }
}

pub open spec fn parse_bool(s: Seq<char>, i: int) -> Option<(bool, int)> {
    if 0 <= i < s.len() && s[i] == 'T' {
        Some((true, i + 1))
    } else if 0 <= i < s.len() && s[i] == 'F' {
        Some((false, i + 1))
    } else {
        None
    }
}

pub proof fn lemma_parse_ser_bool(pre: Seq<char>, b: bool, rest: Seq<char>)
    ensures
        parse_bool(pre + ser_bool(b) + rest, pre.len() as int) == Some(
            (b, pre.len() + 1 as int),
        ),
{
    let s = pre + ser_bool(b) + rest;
    assert(s[pre.len() as int] == if b {
        'T'
    } else {
        'F'
    });
}

pub fn write_bool(out: &mut String, b: bool)
    ensures
        final(out)@ == old(out)@ + ser_bool(b),
{
    if b {
        out.append("T");
    } else {
        out.append("F");
    }
    proof {
        reveal_strlit("T");
        reveal_strlit("F");
        assert(final(out)@ =~= old(out)@ + ser_bool(b));
    }
}

pub fn read_bool(s: &str, pos: usize) -> (r: Option<(bool, usize)>)
    requires
        pos <= s@.len(),
    ensures
        match r {
            Some((b, p)) => parse_bool(s@, pos as int) == Some((b, p as int)) && pos < p
                <= s@.len(),
            None => parse_bool(s@, pos as int) is None,
        },
{
    if pos == s.unicode_len() {
        return None;
    }
    let c = s.get_char(pos);
    if c == 'T' {
        Some((true, pos + 1))
    } else if c == 'F' {
        Some((false, pos + 1))
    } else {
        None
    }
}

/// A serialized optional number: `N`, or `S` followed by the number.
pub open spec fn ser_opt_num(o: Option<u64>) -> Seq<char> {
    match o {
        Some(v) => seq!['S'] + ser_num(v as nat),
        None => seq!['N'],
    }
}

pub open spec fn parse_opt_num(s: Seq<char>, i: int) -> Option<(Option<u64>, int)> {
    if 0 <= i < s.len() && s[i] == 'N' {
        Some((Option::<u64>::None, i + 1))
    } else if 0 <= i < s.len() && s[i] == 'S' {
        match parse_num(s, i + 1) {
            Some((v, j)) => Some((Some(v), j)),
            None => None,
        }
    } else {
        None
    }
}

pub proof fn lemma_parse_ser_opt_num(pre: Seq<char>, o: Option<u64>, rest: Seq<char>)
    ensures
        parse_opt_num(pre + ser_opt_num(o) + rest, pre.len() as int) == Some(
            (o, pre.len() + ser_opt_num(o).len() as int),
        ),
{
    let s = pre + ser_opt_num(o) + rest;
    match o {
        Some(v) => {
            assert(s[pre.len() as int] == 'S');
            assert(s =~= (pre + seq!['S']) + ser_num(v as nat) + rest);
            lemma_parse_ser_num(pre + seq!['S'], v, rest);
        },
        None => {
            assert(s[pre.len() as int] == 'N');
        },
    }
}

pub fn write_opt_num(out: &mut String, o: &Option<u64>)
    ensures
        final(out)@ == old(out)@ + ser_opt_num(*o),
{
    match o {
        Some(v) => {
            out.append("S");
            write_num(out, *v);
        },
        None => {
            out.append("N");
        },
    }
    proof {
        reveal_strlit("S");
        reveal_strlit("N");
        assert(final(out)@ =~= old(out)@ + ser_opt_num(*o));
    }
}

pub fn read_opt_num(s: &str, pos: usize) -> (r: Option<(Option<u64>, usize)>)
    requires
        pos <= s@.len(),
    ensures
        match r {
            Some((o, p)) => parse_opt_num(s@, pos as int) == Some((o, p as int)) && pos < p
                <= s@.len(),
            None => parse_opt_num(s@, pos as int) is None,
        },
{
    if pos == s.unicode_len() {
        return None;
    }
    let c = s.get_char(pos);
    if c == 'N' {
        Some((None, pos + 1))
    } else if c == 'S' {
        match read_num(s, pos + 1) {
            Some((v, j)) => Some((Some(v), j)),
            None => None,
        }
    } else {
        None
    }
}

/// A serialized optional string, tagged the same way.
pub open spec fn ser_opt_str(o: Option<Seq<char>>) -> Seq<char> {
    match o {
        Some(t) => seq!['S'] + ser_str(t),
        None => seq!['N'],
    }
}

pub open spec fn parse_opt_str(s: Seq<char>, i: int) -> Option<(Option<Seq<char>>, int)> {
    if 0 <= i < s.len() && s[i] == 'N' {
        Some((Option::<Seq<char>>::None, i + 1))
    } else if 0 <= i < s.len() && s[i] == 'S' {
        match parse_str(s, i + 1) {
            Some((t, j)) => Some((Some(t), j)),
            None => None,
        }
    } else {
        None
    }
}

pub proof fn lemma_parse_ser_opt_str(pre: Seq<char>, o: Option<Seq<char>>, rest: Seq<char>)
    requires
        match o {
            Some(t) => t.len() <= u64::MAX,
            None => true,
        },
    ensures
        parse_opt_str(pre + ser_opt_str(o) + rest, pre.len() as int) == Some(
            (o, pre.len() + ser_opt_str(o).len() as int),
        ),
{
    let s = pre + ser_opt_str(o) + rest;
    match o {
        Some(t) => {
            assert(s[pre.len() as int] == 'S');
            assert(s =~= (pre + seq!['S']) + ser_str(t) + rest);
            lemma_parse_ser_str(pre + seq!['S'], t, rest);
        },
        None => {
            assert(s[pre.len() as int] == 'N');
        },
    }
}

pub fn write_opt_str(out: &mut String, o: &Option<String>)
    ensures
        final(out)@ == old(out)@ + ser_opt_str(match *o {
            Some(t) => Some(t@),
            None => None,
        }),
{
    match o {
        Some(t) => {
            out.append("S");
            write_str(out, t.as_str());
        },
        None => {
            out.append("N");
        },
    }
    proof {
        reveal_strlit("S");
        reveal_strlit("N");
        assert(final(out)@ =~= old(out)@ + ser_opt_str(match *o {
            Some(t) => Some(t@),
            None => None,
        }));
    }
}

pub fn read_opt_str(s: &str, pos: usize) -> (r: Option<(Option<String>, usize)>)
    requires
        pos <= s@.len(),
    ensures
        match r {
            Some((o, p)) => parse_opt_str(s@, pos as int) == Some(
                (
                    match o {
                        Some(t) => Some(t@),
                        None => None,
                    },
                    p as int,
                ),
            ) && pos < p <= s@.len(),
            None => parse_opt_str(s@, pos as int) is None,
        },
{
    if pos == s.unicode_len() {
        return None;
    }
    let c = s.get_char(pos);
    if c == 'N' {
        Some((None, pos + 1))
    } else if c == 'S' {
        match read_str(s, pos + 1) {
            Some((t, j)) => Some((Some(t), j)),
            None => None,
        }
    } else {
        None
    }
}

/// Serialized string-list items, one after the other.
pub open spec fn ser_strs_items(l: Seq<Seq<char>>) -> Seq<char>
    decreases l.len(),
{
    if l.len() == 0 {
        Seq::<char>::empty()
    } else {
        ser_str(l.first()) + ser_strs_items(l.drop_first())
    }
}

/// A serialized string list: its element count, then the items.
pub open spec fn ser_strs(l: Seq<Seq<char>>) -> Seq<char> {
    ser_num(l.len()) + ser_strs_items(l)
}

pub open spec fn parse_strs_items(s: Seq<char>, i: int, count: nat) -> Option<
    (Seq<Seq<char>>, int),
>
    decreases count,
{
    if count == 0 {
        Some((Seq::<Seq<char>>::empty(), i))
    } else {
        match parse_str(s, i) {
            Some((t, j)) => match parse_strs_items(s, j, (count - 1) as nat) {
                Some((ts, k)) => Some((seq![t] + ts, k)),
                None => None,
            },
            None => None,
        }
    }
}

pub open spec fn parse_strs(s: Seq<char>, i: int) -> Option<(Seq<Seq<char>>, int)> {
    match parse_num(s, i) {
        Some((n, j)) => parse_strs_items(s, j, n as nat),
        None => None,
    }
}

proof fn lemma_parse_ser_strs_items(pre: Seq<char>, l: Seq<Seq<char>>, rest: Seq<char>)
    requires
        forall|i: int| 0 <= i < l.len() ==> (#[trigger] l[i]).len() <= u64::MAX,
    ensures
        parse_strs_items(pre + ser_strs_items(l) + rest, pre.len() as int, l.len()) == Some(
            (l, pre.len() + ser_strs_items(l).len() as int),
        ),
    decreases l.len(),
{
    let s = pre + ser_strs_items(l) + rest;
    if l.len() == 0 {
        assert(s =~= pre + rest);
        assert(parse_strs_items(s, pre.len() as int, 0) == Some(
            (Seq::<Seq<char>>::empty(), pre.len() as int),
        ));
        assert(l =~= Seq::<Seq<char>>::empty());
    } else {
        let head = l.first();
        let tail = l.drop_first();
        assert(s =~= pre + ser_str(head) + (ser_strs_items(tail) + rest));
        lemma_parse_ser_str(pre, head, ser_strs_items(tail) + rest);
        let j = pre.len() + ser_str(head).len() as int;
        assert(s =~= (pre + ser_str(head)) + ser_strs_items(tail) + rest);
        lemma_parse_ser_strs_items(pre + ser_str(head), tail, rest);
        assert(seq![head] + tail =~= l);
    }
}

/// Reading back a serialized string list yields the list.
pub proof fn lemma_parse_ser_strs(pre: Seq<char>, l: Seq<Seq<char>>, rest: Seq<char>)
    requires
        l.len() <= u64::MAX,
        forall|i: int| 0 <= i < l.len() ==> (#[trigger] l[i]).len() <= u64::MAX,
    ensures
        parse_strs(pre + ser_strs(l) + rest, pre.len() as int) == Some(
            (l, pre.len() + ser_strs(l).len() as int),
        ),
{
    let s = pre + ser_strs(l) + rest;
    assert(s =~= pre + ser_num(l.len()) + (ser_strs_items(l) + rest));
    lemma_parse_ser_num(pre, l.len() as u64, ser_strs_items(l) + rest);
    let j = pre.len() + ser_num(l.len()).len() as int;
    assert(s =~= (pre + ser_num(l.len())) + ser_strs_items(l) + rest);
    lemma_parse_ser_strs_items(pre + ser_num(l.len()), l, rest);
}

/// Emit a string list.
pub fn write_strs(out: &mut String, l: &Vec<String>)
    ensures
        final(out)@ == old(out)@ + ser_strs(l@.map_values(|t: String| t@)),
{
    let ghost m = l@.map_values(|t: String| t@);
    write_num(out, l.len() as u64);
    let mut i: usize = 0;
    proof {
        assert(ser_strs_items(m.take(0int)) =~= Seq::<char>::empty());
    }
    while i < l.len()
        invariant
            i <= l@.len(),
            m == l@.map_values(|t: String| t@),
            out@ == old(out)@ + ser_num(m.len()) + ser_strs_items(m.take(i as int)),
        decreases l@.len() - i,
    {
        write_str(out, l[i].as_str());
        proof {
            lemma_ser_strs_items_take(m, i as int);
        }
        i += 1;
    }
    proof {
        assert(m.take(m.len() as int) =~= m);
    }
}

/// Appending one more item to a prefix extends its serialization by that
/// item's serialization.
proof fn lemma_ser_strs_items_take(m: Seq<Seq<char>>, i: int)
    requires
        0 <= i < m.len(),
    ensures
        ser_strs_items(m.take(i + 1)) == ser_strs_items(m.take(i)) + ser_str(m[i]),
    decreases i,
{
    if i == 0 {
        assert(m.take(1int).first() == m[0]);
        assert(m.take(1int).drop_first() =~= Seq::<Seq<char>>::empty());
        assert(ser_strs_items(m.take(0int)) =~= Seq::<char>::empty());
        assert(ser_strs_items(m.take(1int)) == ser_str(m.take(1int).first()) + ser_strs_items(
            m.take(1int).drop_first(),
        ));
        assert(ser_strs_items(Seq::<Seq<char>>::empty()) =~= Seq::<char>::empty());
        assert(ser_strs_items(m.take(1int)) =~= ser_str(m[0]));
        assert(ser_strs_items(m.take(0int)) + ser_str(m[0]) =~= ser_str(m[0]));
    } else {
        let a = m.take(i + 1);
        let b = m.take(i);
        assert(a.first() == m[0]);
        assert(b.first() == m[0]);
        assert(a.drop_first() =~= m.drop_first().take(i));
        assert(b.drop_first() =~= m.drop_first().take(i - 1));
        assert(m.drop_first()[i - 1] == m[i]);
        lemma_ser_strs_items_take(m.drop_first(), i - 1);
        assert(ser_strs_items(a) == ser_str(m[0]) + ser_strs_items(m.drop_first().take(i)));
        assert(ser_strs_items(b) == ser_str(m[0]) + ser_strs_items(m.drop_first().take(i - 1)));
        assert(ser_str(m[0]) + (ser_strs_items(m.drop_first().take(i - 1)) + ser_str(m[i])) =~= (
        ser_str(m[0]) + ser_strs_items(m.drop_first().take(i - 1))) + ser_str(m[i]));
    }
}

/// Read a string list, exactly as `parse_strs` describes.
#[verifier::rlimit(100)]
#[verifier::spinoff_prover]
pub fn read_strs(s: &str, pos: usize) -> (r: Option<(Vec<String>, usize)>)
    requires
        pos <= s@.len(),
    ensures
        match r {
            Some((l, p)) => parse_strs(s@, pos as int) == Some(
                (l@.map_values(|t: String| t@), p as int),
            ) && pos < p <= s@.len(),
            None => parse_strs(s@, pos as int) is None,
        },
{
    let (n, mut at) = match read_num(s, pos) {
        Some(v) => v,
        None => {
            return None;
        },
    };
    let mut l: Vec<String> = Vec::new();
    let mut left = n;
    proof {
        assert(l@.map_values(|t: String| t@) =~= Seq::<Seq<char>>::empty());
    }
    while left > 0
        invariant
            at <= s@.len(),
            left <= n,
            parse_strs_items(s@, at as int, left as nat) matches Some((ts, p)) ==> parse_strs(
                s@,
                pos as int,
            ) == Some((l@.map_values(|t: String| t@) + ts, p)),
            parse_strs_items(s@, at as int, left as nat) is None ==> parse_strs(
                s@,
                pos as int,
            ) is None,
            pos < at || n == left,
            n == left ==> at > pos || pos == at,
        decreases left,
    {
        match read_str(s, at) {
            Some((t, p)) => {
                proof {
                    let ghost cur = l@.map_values(|q: String| q@);
                    assert(parse_str(s@, at as int) == Some((t@, p as int)));
                }
                let ghost old_l = l@;
                l.push(t);
                proof {
                    assert(l@.map_values(|q: String| q@) =~= old_l.map_values(|q: String| q@)
                        + seq![l@.last()@]);
                }
                at = p;
                left = left - 1;
                proof {
                    if let Some((ts, p2)) = parse_strs_items(s@, at as int, left as nat) {
                        assert(old_l.map_values(|q: String| q@) + (seq![l@.last()@] + ts) =~= l@
                            .map_values(|q: String| q@) + ts);
                    }
                }
            },
            None => {
                return None;
            },
        }
    }
    proof {
        assert(parse_strs_items(s@, at as int, 0nat) == Some(
            (Seq::<Seq<char>>::empty(), at as int),
        ));
        assert(l@.map_values(|t: String| t@) + Seq::<Seq<char>>::empty() =~= l@.map_values(
            |t: String| t@,
        ));
    }
    Some((l, at))
}

// ---------------------------------------------------------------------
// zone and scene records
// ---------------------------------------------------------------------

pub open spec fn opt_u8_as_u64(o: Option<u8>) -> Option<u64> {
    match o {
        Some(v) => Some(v as u64),
        None => None,
    }
}

pub open spec fn opt_u32_as_u64(o: Option<u32>) -> Option<u64> {
    match o {
        Some(v) => Some(v as u64),
        None => None,
    }
}

/// The numeric fields of a zone override fit their machine types; true of
/// the model of every actual `ZoneOptions` value.
pub open spec fn zone_model_fits(m: crate::types::ZoneOptionsModel) -> bool {
    &&& 0 <= m.passes <= u8::MAX
    &&& 0 <= m.min_scene_len <= usize::MAX
    &&& m.encoder.len() <= u64::MAX
    &&& m.video_params.len() <= u64::MAX
    &&& (forall|i: int|
        0 <= i < m.video_params.len() ==> (#[trigger] m.video_params[i]).len() <= u64::MAX)
}

/// A serialized zone override: its fields in a fixed order.
pub open spec fn ser_zone(m: crate::types::ZoneOptionsModel) -> Seq<char> {
    ser_str(m.encoder) + ser_num(m.passes as nat) + ser_strs(m.video_params) + ser_num(
        m.min_scene_len as nat,
    ) + ser_opt_num(opt_u8_as_u64(m.photon_noise)) + ser_opt_num(
        opt_u32_as_u64(m.photon_noise_width),
    ) + ser_opt_num(opt_u32_as_u64(m.photon_noise_height)) + ser_bool(m.chroma_noise)
}

pub open spec fn parse_zone(s: Seq<char>, i: int) -> Option<(crate::types::ZoneOptionsModel, int)> {
    match parse_str(s, i) {
        Some((encoder, i1)) => match parse_num(s, i1) {
            Some((passes, i2)) => if passes <= u8::MAX {
                match parse_strs(s, i2) {
                    Some((params, i3)) => match parse_num(s, i3) {
                        Some((msl, i4)) => if msl <= usize::MAX {
                            match parse_opt_num(s, i4) {
                                Some((pn, i5)) => if (pn matches Some(v) ==> v <= u8::MAX) {
                                    match parse_opt_num(s, i5) {
                                        Some((pw, i6)) => if (pw matches Some(v) ==> v
                                            <= u32::MAX) {
                                            match parse_opt_num(s, i6) {
                                                Some((ph, i7)) => if (ph matches Some(v) ==> v
                                                    <= u32::MAX) {
                                                    match parse_bool(s, i7) {
                                                        Some((cn, i8)) => Some(
                                                            (
                                                                crate::types::ZoneOptionsModel {
                                                                    encoder,
                                                                    passes: passes as int,
                                                                    video_params: params,
                                                                    min_scene_len: msl as int,
                                                                    photon_noise: match pn {
                                                                        Some(v) => Some(v as u8),
                                                                        None => None,
                                                                    },
                                                                    photon_noise_width: match pw {
                                                                        Some(v) => Some(v as u32),
                                                                        None => None,
                                                                    },
                                                                    photon_noise_height: match ph {
                                                                        Some(v) => Some(v as u32),
                                                                        None => None,
                                                                    },
                                                                    chroma_noise: cn,
                                                                },
                                                                i8,
                                                            ),
                                                        ),
                                                        None => None,
                                                    }
                                                } else {
                                                    None
                                                },
                                                None => None,
                                            }
                                        } else {
                                            None
                                        },
                                        None => None,
                                    }
                                } else {
                                    None
                                },
                                None => None,
                            }
                        } else {
                            None
                        },
                        None => None,
                    },
                    None => None,
                }
            } else {
                None
            },
            None => None,
        },
        None => None,
    }
}

/// Reading back a serialized zone override yields it.
#[verifier::rlimit(100)]
#[verifier::spinoff_prover]
pub proof fn lemma_parse_ser_zone(
    pre: Seq<char>,
    m: crate::types::ZoneOptionsModel,
    rest: Seq<char>,
)
    requires
        zone_model_fits(m),
    ensures
        parse_zone(pre + ser_zone(m) + rest, pre.len() as int) == Some(
            (m, pre.len() + ser_zone(m).len() as int),
        ),
{
    let s = pre + ser_zone(m) + rest;
    let f1 = ser_str(m.encoder);
    let f2 = ser_num(m.passes as nat);
    let f3 = ser_strs(m.video_params);
    let f4 = ser_num(m.min_scene_len as nat);
    let f5 = ser_opt_num(opt_u8_as_u64(m.photon_noise));
    let f6 = ser_opt_num(opt_u32_as_u64(m.photon_noise_width));
    let f7 = ser_opt_num(opt_u32_as_u64(m.photon_noise_height));
    let f8 = ser_bool(m.chroma_noise);
    let z = ser_zone(m);
    let p0 = pre;
    let p1 = p0 + f1;
    let p2 = p1 + f2;
    let p3 = p2 + f3;
    let p4 = p3 + f4;
    let p5 = p4 + f5;
    let p6 = p5 + f6;
    let p7 = p6 + f7;
    let t8 = rest;
    let t7 = f8 + t8;
    let t6 = f7 + t7;
    let t5 = f6 + t6;
    let t4 = f5 + t5;
    let t3 = f4 + t4;
    let t2 = f3 + t3;
    let t1 = f2 + t2;
    // reassociate the serialized record so each field heads its own tail
    vstd::seq_lib::lemma_concat_associative(f1 + f2 + f3 + f4 + f5 + f6 + f7, f8, t8);
    vstd::seq_lib::lemma_concat_associative(f1 + f2 + f3 + f4 + f5 + f6, f7, t7);
    vstd::seq_lib::lemma_concat_associative(f1 + f2 + f3 + f4 + f5, f6, t6);
    vstd::seq_lib::lemma_concat_associative(f1 + f2 + f3 + f4, f5, t5);
    vstd::seq_lib::lemma_concat_associative(f1 + f2 + f3, f4, t4);
    vstd::seq_lib::lemma_concat_associative(f1 + f2, f3, t3);
    vstd::seq_lib::lemma_concat_associative(f1, f2, t2);
    assert(z + rest == f1 + t1);
    vstd::seq_lib::lemma_concat_associative(pre, z, rest);
    assert(s == pre + (f1 + t1));
    vstd::seq_lib::lemma_concat_associative(p0, f1, t1);
    assert(s == p0 + f1 + t1);
    lemma_parse_ser_str(p0, m.encoder, t1);
    vstd::seq_lib::lemma_concat_associative(p1, f2, t2);
    assert(s == p1 + f2 + t2);
    lemma_parse_ser_num(p1, m.passes as u64, t2);
    vstd::seq_lib::lemma_concat_associative(p2, f3, t3);
    assert(s == p2 + f3 + t3);
    lemma_parse_ser_strs(p2, m.video_params, t3);
    vstd::seq_lib::lemma_concat_associative(p3, f4, t4);
    assert(s == p3 + f4 + t4);
    lemma_parse_ser_num(p3, m.min_scene_len as u64, t4);
    vstd::seq_lib::lemma_concat_associative(p4, f5, t5);
    assert(s == p4 + f5 + t5);
    lemma_parse_ser_opt_num(p4, opt_u8_as_u64(m.photon_noise), t5);
    vstd::seq_lib::lemma_concat_associative(p5, f6, t6);
    assert(s == p5 + f6 + t6);
    lemma_parse_ser_opt_num(p5, opt_u32_as_u64(m.photon_noise_width), t6);
    vstd::seq_lib::lemma_concat_associative(p6, f7, t7);
    assert(s == p6 + f7 + t7);
    lemma_parse_ser_opt_num(p6, opt_u32_as_u64(m.photon_noise_height), t7);
    vstd::seq_lib::lemma_concat_associative(p7, f8, t8);
    assert(s == p7 + f8 + t8);
    lemma_parse_ser_bool(p7, m.chroma_noise, t8);
    assert(parse_zone(s, pre.len() as int) matches Some((m2, p)) && m2 =~~= m && p == pre.len()
        + ser_zone(m).len());
}

/// Emit a zone override.
#[verifier::rlimit(100)]
#[verifier::spinoff_prover]
pub fn write_zone(out: &mut String, z: &crate::types::ZoneOptions)
    ensures
        final(out)@ == old(out)@ + ser_zone(z.model()),
{
    write_str(out, z.encoder.as_str());
    write_num(out, z.passes as u64);
    write_strs(out, &z.video_params);
    write_num(out, z.min_scene_len as u64);
    let pn: Option<u64> = match z.photon_noise {
        Some(v) => Some(v as u64),
        None => None,
    };
    write_opt_num(out, &pn);
    let pw: Option<u64> = match z.photon_noise_width {
        Some(v) => Some(v as u64),
        None => None,
    };
    write_opt_num(out, &pw);
    let ph: Option<u64> = match z.photon_noise_height {
        Some(v) => Some(v as u64),
        None => None,
    };
    write_opt_num(out, &ph);
    write_bool(out, z.chroma_noise);
    proof {
        assert(final(out)@ =~= old(out)@ + ser_zone(z.model()));
    }
}

/// Read a zone override, exactly as `parse_zone` describes.
#[verifier::rlimit(100)]
#[verifier::spinoff_prover]
pub fn read_zone(s: &str, pos: usize) -> (r: Option<(crate::types::ZoneOptions, usize)>)
    requires
        pos <= s@.len(),
    ensures
        match r {
            Some((z, p)) => parse_zone(s@, pos as int) == Some((z.model(), p as int)) && pos < p
                <= s@.len(),
            None => parse_zone(s@, pos as int) is None,
        },
{
    let (encoder, i1) = match read_str(s, pos) {
        Some(v) => v,
        None => {
            return None;
        },
    };
    let (passes, i2) = match read_num(s, i1) {
        Some(v) => v,
        None => {
            return None;
        },
    };
    if passes > u8::MAX as u64 {
        return None;
    }
    let (params, i3) = match read_strs(s, i2) {
        Some(v) => v,
        None => {
            return None;
        },
    };
    let (msl, i4) = match read_num(s, i3) {
        Some(v) => v,
        None => {
            return None;
        },
    };
    if msl > usize::MAX as u64 {
        return None;
    }
    let (pn, i5) = match read_opt_num(s, i4) {
        Some(v) => v,
        None => {
            return None;
        },
    };
    let pn8: Option<u8> = match pn {
        Some(v) => {
            if v > u8::MAX as u64 {
                return None;
            }
            Some(v as u8)
        },
        None => None,
    };
    let (pw, i6) = match read_opt_num(s, i5) {
        Some(v) => v,
        None => {
            return None;
        },
    };
    let pw32: Option<u32> = match pw {
        Some(v) => {
            if v > u32::MAX as u64 {
                return None;
            }
            Some(v as u32)
        },
        None => None,
    };
    let (ph, i7) = match read_opt_num(s, i6) {
        Some(v) => v,
        None => {
            return None;
        },
    };
    let ph32: Option<u32> = match ph {
        Some(v) => {
            if v > u32::MAX as u64 {
                return None;
            }
            Some(v as u32)
        },
        None => None,
    };
    let (cn, i8) = match read_bool(s, i7) {
        Some(v) => v,
        None => {
            return None;
        },
    };
    let z = crate::types::ZoneOptions {
        encoder,
        passes: passes as u8,
        video_params: params,
        min_scene_len: msl as usize,
        photon_noise: pn8,
        photon_noise_width: pw32,
        photon_noise_height: ph32,
        chroma_noise: cn,
    };
    proof {
        if let Some((m2, p2)) = parse_zone(s@, pos as int) {
            assert(z.model() =~~= m2);
        }
    }
    Some((z, i8))
}

/// A serialized optional zone override, tagged like the other options.
pub open spec fn ser_opt_zone(o: Option<crate::types::ZoneOptionsModel>) -> Seq<char> {
    match o {
        Some(z) => seq!['S'] + ser_zone(z),
        None => seq!['N'],
    }
}

pub open spec fn parse_opt_zone(s: Seq<char>, i: int) -> Option<
    (Option<crate::types::ZoneOptionsModel>, int),
> {
    if 0 <= i < s.len() && s[i] == 'N' {
        Some((Option::<crate::types::ZoneOptionsModel>::None, i + 1))
    } else if 0 <= i < s.len() && s[i] == 'S' {
        match parse_zone(s, i + 1) {
            Some((z, j)) => Some((Some(z), j)),
            None => None,
        }
    } else {
        None
    }
}

pub proof fn lemma_parse_ser_opt_zone(
    pre: Seq<char>,
    o: Option<crate::types::ZoneOptionsModel>,
    rest: Seq<char>,
)
    requires
        match o {
            Some(z) => zone_model_fits(z),
            None => true,
        },
    ensures
        parse_opt_zone(pre + ser_opt_zone(o) + rest, pre.len() as int) == Some(
            (o, pre.len() + ser_opt_zone(o).len() as int),
        ),
{
    let s = pre + ser_opt_zone(o) + rest;
    match o {
        Some(z) => {
            assert(s[pre.len() as int] == 'S');
            vstd::seq_lib::lemma_concat_associative(pre, seq!['S'], ser_zone(z));
            vstd::seq_lib::lemma_concat_associative(pre + seq!['S'], ser_zone(z), rest);
            assert(s == (pre + seq!['S']) + ser_zone(z) + rest) by {
                assert(ser_opt_zone(o) == seq!['S'] + ser_zone(z));
                vstd::seq_lib::lemma_concat_associative(pre, seq!['S'] + ser_zone(z), rest);
            }
            lemma_parse_ser_zone(pre + seq!['S'], z, rest);
        },
        None => {
            assert(s[pre.len() as int] == 'N');
        },
    }
}

pub fn write_opt_zone(out: &mut String, o: &Option<crate::types::ZoneOptions>)
    ensures
        final(out)@ == old(out)@ + ser_opt_zone(match *o {
            Some(z) => Some(z.model()),
            None => None,
        }),
{
    match o {
        Some(z) => {
            out.append("S");
            write_zone(out, z);
        },
        None => {
            out.append("N");
        },
    }
    proof {
        reveal_strlit("S");
        reveal_strlit("N");
        assert(final(out)@ =~= old(out)@ + ser_opt_zone(match *o {
            Some(z) => Some(z.model()),
            None => None,
        }));
    }
}

pub fn read_opt_zone(s: &str, pos: usize) -> (r: Option<
    (Option<crate::types::ZoneOptions>, usize),
>)
    requires
        pos <= s@.len(),
    ensures
        match r {
            Some((o, p)) => parse_opt_zone(s@, pos as int) == Some(
                (
                    match o {
                        Some(z) => Some(z.model()),
                        None => None,
                    },
                    p as int,
                ),
            ) && pos < p <= s@.len(),
            None => parse_opt_zone(s@, pos as int) is None,
        },
{
    if pos == s.unicode_len() {
        return None;
    }
    let c = s.get_char(pos);
    if c == 'N' {
        Some((None, pos + 1))
    } else if c == 'S' {
        match read_zone(s, pos + 1) {
            Some((z, j)) => Some((Some(z), j)),
            None => None,
        }
    } else {
        None
    }
}

/// The frame bounds of a scene fit `usize`; true of every actual `Scene`.
pub open spec fn scene_model_fits(m: crate::types::SceneModel) -> bool {
    &&& 0 <= m.start_frame <= usize::MAX
    &&& 0 <= m.end_frame <= usize::MAX
    &&& match m.zone_overrides {
        Some(z) => zone_model_fits(z),
        None => true,
    }
}

/// A serialized scene: its frame range and its overrides.
pub open spec fn ser_scene(m: crate::types::SceneModel) -> Seq<char> {
    ser_num(m.start_frame as nat) + ser_num(m.end_frame as nat) + ser_opt_zone(m.zone_overrides)
}

pub open spec fn parse_scene(s: Seq<char>, i: int) -> Option<(crate::types::SceneModel, int)> {
    match parse_num(s, i) {
        Some((start, i1)) => if start <= usize::MAX {
            match parse_num(s, i1) {
                Some((end, i2)) => if end <= usize::MAX {
                    match parse_opt_zone(s, i2) {
                        Some((o, i3)) => Some(
                            (
                                crate::types::SceneModel {
                                    start_frame: start as int,
                                    end_frame: end as int,
                                    zone_overrides: o,
                                },
                                i3,
                            ),
                        ),
                        None => None,
                    }
                } else {
                    None
                },
                None => None,
            }
        } else {
            None
        },
        None => None,
    }
}

/// Reading back a serialized scene yields it.
pub proof fn lemma_parse_ser_scene(pre: Seq<char>, m: crate::types::SceneModel, rest: Seq<char>)
    requires
        scene_model_fits(m),
    ensures
        parse_scene(pre + ser_scene(m) + rest, pre.len() as int) == Some(
            (m, pre.len() + ser_scene(m).len() as int),
        ),
{
    let s = pre + ser_scene(m) + rest;
    let f1 = ser_num(m.start_frame as nat);
    let f2 = ser_num(m.end_frame as nat);
    let f3 = ser_opt_zone(m.zone_overrides);
    let p1 = pre + f1;
    let p2 = p1 + f2;
    let t3 = rest;
    let t2 = f3 + t3;
    let t1 = f2 + t2;
    vstd::seq_lib::lemma_concat_associative(f1 + f2, f3, t3);
    vstd::seq_lib::lemma_concat_associative(f1, f2, t2);
    assert(ser_scene(m) + rest == f1 + t1);
    vstd::seq_lib::lemma_concat_associative(pre, ser_scene(m), rest);
    vstd::seq_lib::lemma_concat_associative(pre, f1, t1);
    assert(s == pre + f1 + t1);
    lemma_parse_ser_num(pre, m.start_frame as u64, t1);
    vstd::seq_lib::lemma_concat_associative(p1, f2, t2);
    assert(s == p1 + f2 + t2);
    lemma_parse_ser_num(p1, m.end_frame as u64, t2);
    vstd::seq_lib::lemma_concat_associative(p2, f3, t3);
    assert(s == p2 + f3 + t3);
    lemma_parse_ser_opt_zone(p2, m.zone_overrides, t3);
    assert(parse_scene(s, pre.len() as int) matches Some((m2, p)) && m2 =~~= m && p == pre.len()
        + ser_scene(m).len());
}

#[verifier::rlimit(100)]
#[verifier::spinoff_prover]
pub fn write_scene(out: &mut String, sc: &crate::types::Scene)
    ensures
        final(out)@ == old(out)@ + ser_scene(sc.model()),
{
    write_num(out, sc.start_frame as u64);
    write_num(out, sc.end_frame as u64);
    write_opt_zone(out, &sc.zone_overrides);
    proof {
        assert(final(out)@ =~= old(out)@ + ser_scene(sc.model()));
    }
}

#[verifier::rlimit(100)]
#[verifier::spinoff_prover]
pub fn read_scene(s: &str, pos: usize) -> (r: Option<(crate::types::Scene, usize)>)
    requires
        pos <= s@.len(),
    ensures
        match r {
            Some((sc, p)) => parse_scene(s@, pos as int) == Some((sc.model(), p as int)) && pos
                < p <= s@.len(),
            None => parse_scene(s@, pos as int) is None,
        },
{
    let (start, i1) = match read_num(s, pos) {
        Some(v) => v,
        None => {
            return None;
        },
    };
    if start > usize::MAX as u64 {
        return None;
    }
    let (end, i2) = match read_num(s, i1) {
        Some(v) => v,
        None => {
            return None;
        },
    };
    if end > usize::MAX as u64 {
        return None;
    }
    let (o, i3) = match read_opt_zone(s, i2) {
        Some(v) => v,
        None => {
            return None;
        },
    };
    let sc = crate::types::Scene {
        start_frame: start as usize,
        end_frame: end as usize,
        zone_overrides: o,
    };
    proof {
        if let Some((m2, p2)) = parse_scene(s@, pos as int) {
            assert(sc.model() =~~= m2);
        }
    }
    Some((sc, i3))
}

// ---------------------------------------------------------------------
// inputs and chunks
// ---------------------------------------------------------------------

pub open spec fn input_model_fits(m: crate::types::InputModel) -> bool {
    match m {
        crate::types::InputModel::Video { path, script_text } => {
            &&& path.len() <= u64::MAX
            &&& (script_text matches Some(t) ==> t.len() <= u64::MAX)
        },
        crate::types::InputModel::Script { path, script_args, script_text } => {
            &&& path.len() <= u64::MAX
            &&& script_args.len() <= u64::MAX
            &&& (forall|i: int|
                0 <= i < script_args.len() ==> (#[trigger] script_args[i]).len() <= u64::MAX)
            &&& script_text.len() <= u64::MAX
        },
    }
}

/// A serialized input: a tag, then the variant's fields.
pub open spec fn ser_input(m: crate::types::InputModel) -> Seq<char> {
    match m {
        crate::types::InputModel::Video { path, script_text } => seq!['V'] + ser_str(path)
            + ser_opt_str(script_text),
        crate::types::InputModel::Script { path, script_args, script_text } => seq!['P']
            + ser_str(path) + ser_strs(script_args) + ser_str(script_text),
    }
}

pub open spec fn parse_input(s: Seq<char>, i: int) -> Option<(crate::types::InputModel, int)> {
    if 0 <= i < s.len() && s[i] == 'V' {
        match parse_str(s, i + 1) {
            Some((path, i1)) => match parse_opt_str(s, i1) {
                Some((t, i2)) => Some(
                    (crate::types::InputModel::Video { path, script_text: t }, i2),
                ),
                None => None,
            },
            None => None,
        }
    } else if 0 <= i < s.len() && s[i] == 'P' {
        match parse_str(s, i + 1) {
            Some((path, i1)) => match parse_strs(s, i1) {
                Some((args, i2)) => match parse_str(s, i2) {
                    Some((text, i3)) => Some(
                        (
                            crate::types::InputModel::Script {
                                path,
                                script_args: args,
                                script_text: text,
                            },
                            i3,
                        ),
                    ),
                    None => None,
                },
                None => None,
            },
            None => None,
        }
    } else {
        None
    }
}

/// Reading back a serialized input yields it.
pub proof fn lemma_parse_ser_input(pre: Seq<char>, m: crate::types::InputModel, rest: Seq<char>)
    requires
        input_model_fits(m),
    ensures
        parse_input(pre + ser_input(m) + rest, pre.len() as int) == Some(
            (m, pre.len() + ser_input(m).len() as int),
        ),
{
    let s = pre + ser_input(m) + rest;
    match m {
        crate::types::InputModel::Video { path, script_text } => {
            let f1 = ser_str(path);
            let f2 = ser_opt_str(script_text);
            let p0 = pre + seq!['V'];
            let p1 = p0 + f1;
            let t2 = rest;
            let t1 = f2 + t2;
            assert(s[pre.len() as int] == 'V');
            vstd::seq_lib::lemma_concat_associative(seq!['V'], f1, f2);
            vstd::seq_lib::lemma_concat_associative(pre, seq!['V'], f1 + f2);
            vstd::seq_lib::lemma_concat_associative(p0, f1 + f2, rest);
            vstd::seq_lib::lemma_concat_associative(f1, f2, rest);
            vstd::seq_lib::lemma_concat_associative(p0, f1, t1);
            assert(s == p0 + f1 + t1);
            lemma_parse_ser_str(p0, path, t1);
            vstd::seq_lib::lemma_concat_associative(p1, f2, t2);
            assert(s == p1 + f2 + t2);
            lemma_parse_ser_opt_str(p1, script_text, t2);
            assert(parse_input(s, pre.len() as int) matches Some((m2, p)) && m2 =~~= m && p
                == pre.len() + ser_input(m).len());
        },
        crate::types::InputModel::Script { path, script_args, script_text } => {
            let f1 = ser_str(path);
            let f2 = ser_strs(script_args);
            let f3 = ser_str(script_text);
            let p0 = pre + seq!['P'];
            let p1 = p0 + f1;
            let p2 = p1 + f2;
            let t3 = rest;
            let t2 = f3 + t3;
            let t1 = f2 + t2;
            assert(s[pre.len() as int] == 'P');
            vstd::seq_lib::lemma_concat_associative(seq!['P'], f1, f2);
            vstd::seq_lib::lemma_concat_associative(seq!['P'] + f1, f2, f3);
            vstd::seq_lib::lemma_concat_associative(pre, seq!['P'], f1 + f2 + f3);
            vstd::seq_lib::lemma_concat_associative(p0, f1 + f2 + f3, rest);
            vstd::seq_lib::lemma_concat_associative(f1 + f2, f3, t3);
            vstd::seq_lib::lemma_concat_associative(f1, f2, t2);
            vstd::seq_lib::lemma_concat_associative(p0, f1, t1);
            assert(s == p0 + f1 + t1);
            lemma_parse_ser_str(p0, path, t1);
            vstd::seq_lib::lemma_concat_associative(p1, f2, t2);
            assert(s == p1 + f2 + t2);
            lemma_parse_ser_strs(p1, script_args, t2);
            vstd::seq_lib::lemma_concat_associative(p2, f3, t3);
            assert(s == p2 + f3 + t3);
            lemma_parse_ser_str(p2, script_text, t3);
            assert(parse_input(s, pre.len() as int) matches Some((m2, p)) && m2 =~~= m && p
                == pre.len() + ser_input(m).len());
        },
    }
}

#[verifier::rlimit(100)]
#[verifier::spinoff_prover]
pub fn write_input(out: &mut String, input: &crate::types::Input)
    ensures
        final(out)@ == old(out)@ + ser_input(input.model()),
{
    match input {
        crate::types::Input::Video { path, script_text } => {
            out.append("V");
            write_str(out, path.as_str());
            write_opt_str(out, script_text);
        },
        crate::types::Input::Script { path, script_args, script_text } => {
            out.append("P");
            write_str(out, path.as_str());
            write_strs(out, script_args);
            write_str(out, script_text.as_str());
        },
    }
    proof {
        reveal_strlit("V");
        reveal_strlit("P");
        assert(final(out)@ =~= old(out)@ + ser_input(input.model()));
    }
}

#[verifier::rlimit(100)]
#[verifier::spinoff_prover]
pub fn read_input(s: &str, pos: usize) -> (r: Option<(crate::types::Input, usize)>)
    requires
        pos <= s@.len(),
    ensures
        match r {
            Some((input, p)) => parse_input(s@, pos as int) == Some(
                (input.model(), p as int),
            ) && pos < p <= s@.len(),
            None => parse_input(s@, pos as int) is None,
        },
{
    if pos == s.unicode_len() {
        return None;
    }
    let c = s.get_char(pos);
    if c == 'V' {
        let (path, i1) = match read_str(s, pos + 1) {
            Some(v) => v,
            None => {
                return None;
            },
        };
        let (t, i2) = match read_opt_str(s, i1) {
            Some(v) => v,
            None => {
                return None;
            },
        };
        let input = crate::types::Input::Video { path, script_text: t };
        proof {
            if let Some((m2, p2)) = parse_input(s@, pos as int) {
                assert(input.model() =~~= m2);
            }
        }
        Some((input, i2))
    } else if c == 'P' {
        let (path, i1) = match read_str(s, pos + 1) {
            Some(v) => v,
            None => {
                return None;
            },
        };
        let (args, i2) = match read_strs(s, i1) {
            Some(v) => v,
            None => {
                return None;
            },
        };
        let (text, i3) = match read_str(s, i2) {
            Some(v) => v,
            None => {
                return None;
            },
        };
        let input = crate::types::Input::Script {
            path,
            script_args: args,
            script_text: text,
        };
        proof {
            if let Some((m2, p2)) = parse_input(s@, pos as int) {
                assert(input.model() =~~= m2);
            }
        }
        Some((input, i3))
    } else {
        None
    }
}

/// The numeric fields of a chunk fit their machine types; true of the model
/// of every actual `Chunk`.
pub open spec fn chunk_model_fits(m: crate::types::ChunkModel) -> bool {
    &&& 0 <= m.index <= usize::MAX
    &&& m.temp.len() <= u64::MAX
    &&& input_model_fits(m.input)
    &&& m.source_cmd.len() <= u64::MAX
    &&& (forall|i: int|
        0 <= i < m.source_cmd.len() ==> (#[trigger] m.source_cmd[i]).len() <= u64::MAX)
    &&& m.output_ext.len() <= u64::MAX
    &&& 0 <= m.start_frame <= usize::MAX
    &&& 0 <= m.end_frame <= usize::MAX
    &&& m.video_params.len() <= u64::MAX
    &&& (forall|i: int|
        0 <= i < m.video_params.len() ==> (#[trigger] m.video_params[i]).len() <= u64::MAX)
    &&& 0 <= m.passes <= u8::MAX
    &&& m.encoder.len() <= u64::MAX
}

/// The first eleven fields of a serialized chunk.
pub open spec fn ser_chunk_head(m: crate::types::ChunkModel) -> Seq<char> {
    ser_num(m.index as nat) + ser_str(m.temp) + ser_input(m.input) + ser_strs(m.source_cmd)
        + ser_str(m.output_ext) + ser_num(m.start_frame as nat) + ser_num(m.end_frame as nat)
        + ser_num(m.frame_rate.num as nat) + ser_num(m.frame_rate.den as nat) + ser_strs(
        m.video_params,
    ) + ser_num(m.passes as nat)
}

/// The last five fields of a serialized chunk.
pub open spec fn ser_chunk_rest(m: crate::types::ChunkModel) -> Seq<char> {
    ser_str(m.encoder) + ser_opt_num(opt_u32_as_u64(m.noise_width)) + ser_opt_num(
        opt_u32_as_u64(m.noise_height),
    ) + ser_opt_num(opt_u32_as_u64(m.tq_cq)) + ser_bool(m.ignore_frame_mismatch)
}

/// A serialized chunk: its fields in a fixed order.
#[verifier::opaque]
pub open spec fn ser_chunk(m: crate::types::ChunkModel) -> Seq<char> {
    ser_chunk_head(m) + ser_chunk_rest(m)
}

pub open spec fn parse_chunk(s: Seq<char>, i: int) -> Option<(crate::types::ChunkModel, int)> {
    match parse_num(s, i) {
        Some((index, i1)) => if index <= usize::MAX {
            match parse_str(s, i1) {
                Some((temp, i2)) => match parse_input(s, i2) {
                    Some((input, i3)) => match parse_strs(s, i3) {
                        Some((cmd, i4)) => match parse_str(s, i4) {
                            Some((ext, i5)) => match parse_num(s, i5) {
                                Some((start, i6)) => if start <= usize::MAX {
                                    match parse_num(s, i6) {
                                        Some((end, i7)) => if end <= usize::MAX {
                                            match parse_num(s, i7) {
                                                Some((frn, i8)) => match parse_num(s, i8) {
                                                    Some((frd, i9)) => match parse_strs(s, i9) {
                                                        Some((params, i10)) => match parse_num(
                                                            s,
                                                            i10,
                                                        ) {
                                                            Some((passes, i11)) => if passes
                                                                <= u8::MAX {
                                                                parse_chunk_tail(
                                                                    s,
                                                                    i11,
                                                                    crate::types::ChunkModel {
                                                                        index: index as int,
                                                                        temp,
                                                                        input,
                                                                        source_cmd: cmd,
                                                                        output_ext: ext,
                                                                        start_frame: start as int,
                                                                        end_frame: end as int,
                                                                        frame_rate:
                                                                            crate::types::Ratio {
                                                                            num: frn,
                                                                            den: frd,
                                                                        },
                                                                        video_params: params,
                                                                        passes: passes as int,
                                                                        encoder: Seq::empty(),
                                                                        noise_width: None,
                                                                        noise_height: None,
                                                                        tq_cq: None,
                                                                        ignore_frame_mismatch:
                                                                            false,
                                                                    },
                                                                )
                                                            } else {
                                                                None
                                                            },
                                                            None => None,
                                                        },
                                                        None => None,
                                                    },
                                                    None => None,
                                                },
                                                None => None,
                                            }
                                        } else {
                                            None
                                        },
                                        None => None,
                                    }
                                } else {
                                    None
                                },
                                None => None,
                            },
                            None => None,
                        },
                        None => None,
                    },
                    None => None,
                },
                None => None,
            }
        } else {
            None
        },
        None => None,
    }
}

/// The last five fields of a chunk record, folded into a partial model.
pub open spec fn parse_chunk_tail(s: Seq<char>, i: int, partial: crate::types::ChunkModel) -> Option<
    (crate::types::ChunkModel, int),
> {
    match parse_str(s, i) {
        Some((encoder, i1)) => match parse_opt_num(s, i1) {
            Some((nw, i2)) => if (nw matches Some(v) ==> v <= u32::MAX) {
                match parse_opt_num(s, i2) {
                    Some((nh, i3)) => if (nh matches Some(v) ==> v <= u32::MAX) {
                        match parse_opt_num(s, i3) {
                            Some((tq, i4)) => if (tq matches Some(v) ==> v <= u32::MAX) {
                                match parse_bool(s, i4) {
                                    Some((ig, i5)) => Some(
                                        (
                                            crate::types::ChunkModel {
                                                encoder,
                                                noise_width: match nw {
                                                    Some(v) => Some(v as u32),
                                                    None => None,
                                                },
                                                noise_height: match nh {
                                                    Some(v) => Some(v as u32),
                                                    None => None,
                                                },
                                                tq_cq: match tq {
                                                    Some(v) => Some(v as u32),
                                                    None => None,
                                                },
                                                ignore_frame_mismatch: ig,
                                                ..partial
                                            },
                                            i5,
                                        ),
                                    ),
                                    None => None,
                                }
                            } else {
                                None
                            },
                            None => None,
                        }
                    } else {
                        None
                    },
                    None => None,
                }
            } else {
                None
            },
            None => None,
        },
        None => None,
    }
}

/// Reading back the last five fields yields them, on top of any partial
/// model.
#[verifier::rlimit(100)]
#[verifier::spinoff_prover]
proof fn lemma_parse_ser_chunk_rest(
    pre: Seq<char>,
    m: crate::types::ChunkModel,
    rest: Seq<char>,
    partial: crate::types::ChunkModel,
)
    requires
        chunk_model_fits(m),
    ensures
        parse_chunk_tail(pre + ser_chunk_rest(m) + rest, pre.len() as int, partial) == Some(
            (
                crate::types::ChunkModel {
                    encoder: m.encoder,
                    noise_width: m.noise_width,
                    noise_height: m.noise_height,
                    tq_cq: m.tq_cq,
                    ignore_frame_mismatch: m.ignore_frame_mismatch,
                    ..partial
                },
                pre.len() + ser_chunk_rest(m).len() as int,
            ),
        ),
{
    let s = pre + ser_chunk_rest(m) + rest;
    let f12 = ser_str(m.encoder);
    let f13 = ser_opt_num(opt_u32_as_u64(m.noise_width));
    let f14 = ser_opt_num(opt_u32_as_u64(m.noise_height));
    let f15 = ser_opt_num(opt_u32_as_u64(m.tq_cq));
    let flast = ser_bool(m.ignore_frame_mismatch);
    let p12 = pre + f12;
    let p13 = p12 + f13;
    let p14 = p13 + f14;
    let p15 = p14 + f15;
    let t16 = rest;
    let t15 = flast + t16;
    let t14 = f15 + t15;
    let t13 = f14 + t14;
    let t12 = f13 + t13;
    vstd::seq_lib::lemma_concat_associative(f12 + f13 + f14 + f15, flast, t16);
    vstd::seq_lib::lemma_concat_associative(f12 + f13 + f14, f15, t15);
    vstd::seq_lib::lemma_concat_associative(f12 + f13, f14, t14);
    vstd::seq_lib::lemma_concat_associative(f12, f13, t13);
    assert(ser_chunk_rest(m) + rest == f12 + t12);
    vstd::seq_lib::lemma_concat_associative(pre, ser_chunk_rest(m), rest);
    vstd::seq_lib::lemma_concat_associative(pre, f12, t12);
    assert(s == pre + f12 + t12);
    lemma_parse_ser_str(pre, m.encoder, t12);
    vstd::seq_lib::lemma_concat_associative(p12, f13, t13);
    assert(s == p12 + f13 + t13);
    lemma_parse_ser_opt_num(p12, opt_u32_as_u64(m.noise_width), t13);
    vstd::seq_lib::lemma_concat_associative(p13, f14, t14);
    assert(s == p13 + f14 + t14);
    lemma_parse_ser_opt_num(p13, opt_u32_as_u64(m.noise_height), t14);
    vstd::seq_lib::lemma_concat_associative(p14, f15, t15);
    assert(s == p14 + f15 + t15);
    lemma_parse_ser_opt_num(p14, opt_u32_as_u64(m.tq_cq), t15);
    vstd::seq_lib::lemma_concat_associative(p15, flast, t16);
    assert(s == p15 + flast + t16);
    lemma_parse_ser_bool(p15, m.ignore_frame_mismatch, t16);
    assert(parse_chunk_tail(s, pre.len() as int, partial) matches Some((m2, p)) && m2
        =~~= (crate::types::ChunkModel {
        encoder: m.encoder,
        noise_width: m.noise_width,
        noise_height: m.noise_height,
        tq_cq: m.tq_cq,
        ignore_frame_mismatch: m.ignore_frame_mismatch,
        ..partial
    }) && p == pre.len() + ser_chunk_rest(m).len());
}

/// Reading back a serialized chunk yields it.
#[verifier::rlimit(100)]
#[verifier::spinoff_prover]
pub proof fn lemma_parse_ser_chunk(pre: Seq<char>, m: crate::types::ChunkModel, rest: Seq<char>)
    requires
        chunk_model_fits(m),
    ensures
        parse_chunk(pre + ser_chunk(m) + rest, pre.len() as int) == Some(
            (m, pre.len() + ser_chunk(m).len() as int),
        ),
{
    reveal(ser_chunk);
    let s = pre + ser_chunk(m) + rest;
    let f1 = ser_num(m.index as nat);
    let f2 = ser_str(m.temp);
    let f3 = ser_input(m.input);
    let f4 = ser_strs(m.source_cmd);
    let f5 = ser_str(m.output_ext);
    let f6 = ser_num(m.start_frame as nat);
    let f7 = ser_num(m.end_frame as nat);
    let f8 = ser_num(m.frame_rate.num as nat);
    let f9 = ser_num(m.frame_rate.den as nat);
    let f10 = ser_strs(m.video_params);
    let f11 = ser_num(m.passes as nat);
    let ftail = ser_chunk_rest(m);
    let p1 = pre + f1;
    let p2 = p1 + f2;
    let p3 = p2 + f3;
    let p4 = p3 + f4;
    let p5 = p4 + f5;
    let p6 = p5 + f6;
    let p7 = p6 + f7;
    let p8 = p7 + f8;
    let p9 = p8 + f9;
    let p10 = p9 + f10;
    let p11 = p10 + f11;
    let t11 = ftail + rest;
    let t10 = f11 + t11;
    let t9 = f10 + t10;
    let t8 = f9 + t9;
    let t7 = f8 + t8;
    let t6 = f7 + t7;
    let t5 = f6 + t6;
    let t4 = f5 + t5;
    let t3 = f4 + t4;
    let t2 = f3 + t3;
    let t1 = f2 + t2;
    vstd::seq_lib::lemma_concat_associative(ser_chunk_head(m), ftail, rest);
    vstd::seq_lib::lemma_concat_associative(
        f1 + f2 + f3 + f4 + f5 + f6 + f7 + f8 + f9 + f10,
        f11,
        t11,
    );
    vstd::seq_lib::lemma_concat_associative(f1 + f2 + f3 + f4 + f5 + f6 + f7 + f8 + f9, f10, t10);
    vstd::seq_lib::lemma_concat_associative(f1 + f2 + f3 + f4 + f5 + f6 + f7 + f8, f9, t9);
    vstd::seq_lib::lemma_concat_associative(f1 + f2 + f3 + f4 + f5 + f6 + f7, f8, t8);
    vstd::seq_lib::lemma_concat_associative(f1 + f2 + f3 + f4 + f5 + f6, f7, t7);
    vstd::seq_lib::lemma_concat_associative(f1 + f2 + f3 + f4 + f5, f6, t6);
    vstd::seq_lib::lemma_concat_associative(f1 + f2 + f3 + f4, f5, t5);
    vstd::seq_lib::lemma_concat_associative(f1 + f2 + f3, f4, t4);
    vstd::seq_lib::lemma_concat_associative(f1 + f2, f3, t3);
    vstd::seq_lib::lemma_concat_associative(f1, f2, t2);
    assert(ser_chunk(m) + rest == f1 + t1);
    vstd::seq_lib::lemma_concat_associative(pre, ser_chunk(m), rest);
    vstd::seq_lib::lemma_concat_associative(pre, f1, t1);
    assert(s == pre + f1 + t1);
    lemma_parse_ser_num(pre, m.index as u64, t1);
    vstd::seq_lib::lemma_concat_associative(p1, f2, t2);
    assert(s == p1 + f2 + t2);
    lemma_parse_ser_str(p1, m.temp, t2);
    vstd::seq_lib::lemma_concat_associative(p2, f3, t3);
    assert(s == p2 + f3 + t3);
    lemma_parse_ser_input(p2, m.input, t3);
    vstd::seq_lib::lemma_concat_associative(p3, f4, t4);
    assert(s == p3 + f4 + t4);
    lemma_parse_ser_strs(p3, m.source_cmd, t4);
    vstd::seq_lib::lemma_concat_associative(p4, f5, t5);
    assert(s == p4 + f5 + t5);
    lemma_parse_ser_str(p4, m.output_ext, t5);
    vstd::seq_lib::lemma_concat_associative(p5, f6, t6);
    assert(s == p5 + f6 + t6);
    lemma_parse_ser_num(p5, m.start_frame as u64, t6);
    vstd::seq_lib::lemma_concat_associative(p6, f7, t7);
    assert(s == p6 + f7 + t7);
    lemma_parse_ser_num(p6, m.end_frame as u64, t7);
    vstd::seq_lib::lemma_concat_associative(p7, f8, t8);
    assert(s == p7 + f8 + t8);
    lemma_parse_ser_num(p7, m.frame_rate.num, t8);
    vstd::seq_lib::lemma_concat_associative(p8, f9, t9);
    assert(s == p8 + f9 + t9);
    lemma_parse_ser_num(p8, m.frame_rate.den, t9);
    vstd::seq_lib::lemma_concat_associative(p9, f10, t10);
    assert(s == p9 + f10 + t10);
    lemma_parse_ser_strs(p9, m.video_params, t10);
    vstd::seq_lib::lemma_concat_associative(p10, f11, t11);
    assert(s == p10 + f11 + t11);
    lemma_parse_ser_num(p10, m.passes as u64, t11);
    vstd::seq_lib::lemma_concat_associative(p11, ftail, rest);
    assert(s == p11 + ftail + rest);
    let partial = crate::types::ChunkModel {
        index: m.index,
        temp: m.temp,
        input: m.input,
        source_cmd: m.source_cmd,
        output_ext: m.output_ext,
        start_frame: m.start_frame,
        end_frame: m.end_frame,
        frame_rate: m.frame_rate,
        video_params: m.video_params,
        passes: m.passes,
        encoder: Seq::empty(),
        noise_width: None,
        noise_height: None,
        tq_cq: None,
        ignore_frame_mismatch: false,
    };
    lemma_parse_ser_chunk_rest(p11, m, rest, partial);
    assert(parse_chunk(s, pre.len() as int) matches Some((m2, p)) && m2 =~~= m && p == pre.len()
        + ser_chunk(m).len());
}

/// Emit one chunk.
#[verifier::rlimit(100)]
#[verifier::spinoff_prover]
pub fn write_chunk(out: &mut String, c: &crate::types::Chunk)
    ensures
        final(out)@ == old(out)@ + ser_chunk(c.model()),
{
    write_num(out, c.index as u64);
    write_str(out, c.temp.as_str());
    write_input(out, &c.input);
    write_strs(out, &c.source_cmd);
    write_str(out, c.output_ext.as_str());
    write_num(out, c.start_frame as u64);
    write_num(out, c.end_frame as u64);
    write_num(out, c.frame_rate.num);
    write_num(out, c.frame_rate.den);
    write_strs(out, &c.video_params);
    write_num(out, c.passes as u64);
    write_str(out, c.encoder.as_str());
    let nw: Option<u64> = match c.noise_width {
        Some(v) => Some(v as u64),
        None => None,
    };
    write_opt_num(out, &nw);
    let nh: Option<u64> = match c.noise_height {
        Some(v) => Some(v as u64),
        None => None,
    };
    write_opt_num(out, &nh);
    let tq: Option<u64> = match c.tq_cq {
        Some(v) => Some(v as u64),
        None => None,
    };
    write_opt_num(out, &tq);
    write_bool(out, c.ignore_frame_mismatch);
    proof {
        reveal(ser_chunk);
        assert(final(out)@ =~= old(out)@ + ser_chunk(c.model()));
    }
}

/// Read one chunk, exactly as `parse_chunk` describes.
#[verifier::rlimit(100)]
#[verifier::spinoff_prover]
pub fn read_chunk(s: &str, pos: usize) -> (r: Option<(crate::types::Chunk, usize)>)
    requires
        pos <= s@.len(),
    ensures
        match r {
            Some((c, p)) => parse_chunk(s@, pos as int) == Some((c.model(), p as int)) && pos < p
                <= s@.len(),
            None => parse_chunk(s@, pos as int) is None,
        },
{
    let (index, i1) = match read_num(s, pos) {
        Some(v) => v,
        None => {
            return None;
        },
    };
    if index > usize::MAX as u64 {
        return None;
    }
    let (temp, i2) = match read_str(s, i1) {
        Some(v) => v,
        None => {
            return None;
        },
    };
    let (input, i3) = match read_input(s, i2) {
        Some(v) => v,
        None => {
            return None;
        },
    };
    let (cmd, i4) = match read_strs(s, i3) {
        Some(v) => v,
        None => {
            return None;
        },
    };
    let (ext, i5) = match read_str(s, i4) {
        Some(v) => v,
        None => {
            return None;
        },
    };
    let (start, i6) = match read_num(s, i5) {
        Some(v) => v,
        None => {
            return None;
        },
    };
    if start > usize::MAX as u64 {
        return None;
    }
    let (end, i7) = match read_num(s, i6) {
        Some(v) => v,
        None => {
            return None;
        },
    };
    if end > usize::MAX as u64 {
        return None;
    }
    let (frn, i8) = match read_num(s, i7) {
        Some(v) => v,
        None => {
            return None;
        },
    };
    let (frd, i9) = match read_num(s, i8) {
        Some(v) => v,
        None => {
            return None;
        },
    };
    let (params, i10) = match read_strs(s, i9) {
        Some(v) => v,
        None => {
            return None;
        },
    };
    let (passes, i11) = match read_num(s, i10) {
        Some(v) => v,
        None => {
            return None;
        },
    };
    if passes > u8::MAX as u64 {
        return None;
    }
    let (encoder, i12) = match read_str(s, i11) {
        Some(v) => v,
        None => {
            return None;
        },
    };
    let (nw, i13) = match read_opt_num(s, i12) {
        Some(v) => v,
        None => {
            return None;
        },
    };
    let nw32: Option<u32> = match nw {
        Some(v) => {
            if v > u32::MAX as u64 {
                return None;
            }
            Some(v as u32)
        },
        None => None,
    };
    let (nh, i14) = match read_opt_num(s, i13) {
        Some(v) => v,
        None => {
            return None;
        },
    };
    let nh32: Option<u32> = match nh {
        Some(v) => {
            if v > u32::MAX as u64 {
                return None;
            }
            Some(v as u32)
        },
        None => None,
    };
    let (tq, i15) = match read_opt_num(s, i14) {
        Some(v) => v,
        None => {
            return None;
        },
    };
    let tq32: Option<u32> = match tq {
        Some(v) => {
            if v > u32::MAX as u64 {
                return None;
            }
            Some(v as u32)
        },
        None => None,
    };
    let (ig, i16) = match read_bool(s, i15) {
        Some(v) => v,
        None => {
            return None;
        },
    };
    let c = crate::types::Chunk {
        index: index as usize,
        temp,
        input,
        source_cmd: cmd,
        output_ext: ext,
        start_frame: start as usize,
        end_frame: end as usize,
        frame_rate: crate::types::Ratio { num: frn, den: frd },
        video_params: params,
        passes: passes as u8,
        encoder,
        noise_width: nw32,
        noise_height: nh32,
        tq_cq: tq32,
        ignore_frame_mismatch: ig,
    };
    proof {
        if let Some((m2, p2)) = parse_chunk(s@, pos as int) {
            assert(c.model() =~~= m2);
        }
    }
    Some((c, i16))
}

// ---------------------------------------------------------------------
// the persisted files: the chunk queue, the scene list, the done record
// ---------------------------------------------------------------------

pub open spec fn ser_chunk_items(l: Seq<crate::types::ChunkModel>) -> Seq<char>
    decreases l.len(),
{
    if l.len() == 0 {
        Seq::<char>::empty()
    } else {
        ser_chunk(l.first()) + ser_chunk_items(l.drop_first())
    }
}

/// The whole persisted chunk queue: its length, then the chunks.
pub open spec fn ser_chunks(l: Seq<crate::types::ChunkModel>) -> Seq<char> {
    ser_num(l.len()) + ser_chunk_items(l)
}

pub open spec fn parse_chunk_items(s: Seq<char>, i: int, count: nat) -> Option<
    (Seq<crate::types::ChunkModel>, int),
>
    decreases count,
{
    if count == 0 {
        Some((Seq::<crate::types::ChunkModel>::empty(), i))
    } else {
        match parse_chunk(s, i) {
            Some((m, j)) => match parse_chunk_items(s, j, (count - 1) as nat) {
                Some((ms, k)) => Some((seq![m] + ms, k)),
                None => None,
            },
            None => None,
        }
    }
}

/// Parse a whole persisted chunk queue; the text must be consumed exactly.
pub open spec fn parse_chunks(s: Seq<char>) -> Option<Seq<crate::types::ChunkModel>> {
    match parse_num(s, 0) {
        Some((n, j)) => match parse_chunk_items(s, j, n as nat) {
            Some((ms, k)) => if k == s.len() {
                Some(ms)
            } else {
                None
            },
            None => None,
        },
        None => None,
    }
}

#[verifier::rlimit(100)]
#[verifier::spinoff_prover]
proof fn lemma_parse_ser_chunk_items(
    pre: Seq<char>,
    l: Seq<crate::types::ChunkModel>,
    rest: Seq<char>,
)
    requires
        forall|i: int| 0 <= i < l.len() ==> chunk_model_fits(#[trigger] l[i]),
    ensures
        parse_chunk_items(pre + ser_chunk_items(l) + rest, pre.len() as int, l.len()) == Some(
            (l, pre.len() + ser_chunk_items(l).len() as int),
        ),
    decreases l.len(),
{
    let s = pre + ser_chunk_items(l) + rest;
    if l.len() == 0 {
        assert(s =~= pre + rest);
        assert(l =~= Seq::<crate::types::ChunkModel>::empty());
    } else {
        let head = l.first();
        let tail = l.drop_first();
        vstd::seq_lib::lemma_concat_associative(ser_chunk(head), ser_chunk_items(tail), rest);
        vstd::seq_lib::lemma_concat_associative(pre, ser_chunk(head), ser_chunk_items(tail) + rest);
        vstd::seq_lib::lemma_concat_associative(pre, ser_chunk_items(l), rest);
        assert(s == pre + ser_chunk(head) + (ser_chunk_items(tail) + rest));
        lemma_parse_ser_chunk(pre, head, ser_chunk_items(tail) + rest);
        vstd::seq_lib::lemma_concat_associative(pre + ser_chunk(head), ser_chunk_items(tail), rest);
        assert(s == (pre + ser_chunk(head)) + ser_chunk_items(tail) + rest);
        lemma_parse_ser_chunk_items(pre + ser_chunk(head), tail, rest);
        assert(seq![head] + tail =~= l);
    }
}

/// Writing the chunk queue and reading it back yields the same chunks: the
/// round trip that resume relies on.
pub proof fn lemma_chunks_round_trip(l: Seq<crate::types::ChunkModel>)
    requires
        l.len() <= u64::MAX,
        forall|i: int| 0 <= i < l.len() ==> chunk_model_fits(#[trigger] l[i]),
    ensures
        parse_chunks(ser_chunks(l)) == Some(l),
{
    let s = ser_chunks(l);
    assert(s =~= Seq::<char>::empty() + ser_num(l.len()) + ser_chunk_items(l));
    lemma_parse_ser_num(Seq::<char>::empty(), l.len() as u64, ser_chunk_items(l));
    assert(parse_num(s, 0) == Some((l.len() as u64, ser_num(l.len()).len() as int)));
    assert(s =~= (Seq::<char>::empty() + ser_num(l.len())) + ser_chunk_items(l)
        + Seq::<char>::empty());
    lemma_parse_ser_chunk_items(
        Seq::<char>::empty() + ser_num(l.len()),
        l,
        Seq::<char>::empty(),
    );
}

/// Serialize the planned queue, deterministically.
#[verifier::rlimit(100)]
#[verifier::spinoff_prover]
pub fn save_chunks(chunks: &Vec<crate::types::Chunk>) -> (out: String)
    ensures
        out@ == ser_chunks(chunks@.map_values(|c: crate::types::Chunk| c.model())),
{
    let ghost m = chunks@.map_values(|c: crate::types::Chunk| c.model());
    let mut out = String::new();
    write_num(&mut out, chunks.len() as u64);
    let mut i: usize = 0;
    proof {
        assert(ser_chunk_items(m.take(0int)) =~= Seq::<char>::empty());
        assert(out@ =~= ser_num(m.len()) + ser_chunk_items(m.take(0int)));
    }
    while i < chunks.len()
        invariant
            i <= chunks@.len(),
            m == chunks@.map_values(|c: crate::types::Chunk| c.model()),
            out@ == ser_num(m.len()) + ser_chunk_items(m.take(i as int)),
        decreases chunks@.len() - i,
    {
        write_chunk(&mut out, &chunks[i]);
        proof {
            lemma_ser_chunk_items_take(m, i as int);
            vstd::seq_lib::lemma_concat_associative(
                ser_num(m.len()),
                ser_chunk_items(m.take(i as int)),
                ser_chunk(m[i as int]),
            );
        }
        i += 1;
    }
    proof {
        assert(m.take(m.len() as int) =~= m);
    }
    out
}

proof fn lemma_ser_chunk_items_take(m: Seq<crate::types::ChunkModel>, i: int)
    requires
        0 <= i < m.len(),
    ensures
        ser_chunk_items(m.take(i + 1)) == ser_chunk_items(m.take(i)) + ser_chunk(m[i]),
    decreases i,
{
    if i == 0 {
        assert(m.take(1int).first() == m[0]);
        assert(m.take(1int).drop_first() =~= Seq::<crate::types::ChunkModel>::empty());
        assert(ser_chunk_items(m.take(0int)) =~= Seq::<char>::empty());
        assert(ser_chunk_items(m.take(1int)) == ser_chunk(m.take(1int).first())
            + ser_chunk_items(m.take(1int).drop_first()));
        assert(ser_chunk_items(Seq::<crate::types::ChunkModel>::empty()) =~= Seq::<char>::empty());
        assert(ser_chunk_items(m.take(1int)) =~= ser_chunk(m[0]));
        assert(ser_chunk_items(m.take(0int)) + ser_chunk(m[0]) =~= ser_chunk(m[0]));
    } else {
        let a = m.take(i + 1);
        let b = m.take(i);
        assert(a.first() == m[0]);
        assert(b.first() == m[0]);
        assert(a.drop_first() =~= m.drop_first().take(i));
        assert(b.drop_first() =~= m.drop_first().take(i - 1));
        assert(m.drop_first()[i - 1] == m[i]);
        lemma_ser_chunk_items_take(m.drop_first(), i - 1);
        assert(ser_chunk_items(a) == ser_chunk(m[0]) + ser_chunk_items(m.drop_first().take(i)));
        assert(ser_chunk_items(b) == ser_chunk(m[0]) + ser_chunk_items(
            m.drop_first().take(i - 1),
        ));
        vstd::seq_lib::lemma_concat_associative(
            ser_chunk(m[0]),
            ser_chunk_items(m.drop_first().take(i - 1)),
            ser_chunk(m[i]),
        );
    }
}

/// Load a persisted queue.  Returns the chunks exactly when the text is a
/// whole well-formed queue, as `parse_chunks` describes.
#[verifier::rlimit(100)]
#[verifier::spinoff_prover]
pub fn load_chunks(s: &str) -> (r: Option<Vec<crate::types::Chunk>>)
    ensures
        match r {
            Some(cs) => parse_chunks(s@) == Some(
                cs@.map_values(|c: crate::types::Chunk| c.model()),
            ),
            None => parse_chunks(s@) is None,
        },
{
    let len = s.unicode_len();
    let (n, mut at) = match read_num(s, 0) {
        Some(v) => v,
        None => {
            return None;
        },
    };
    let mut cs: Vec<crate::types::Chunk> = Vec::new();
    let mut left = n;
    proof {
        assert(cs@.map_values(|c: crate::types::Chunk| c.model())
            =~= Seq::<crate::types::ChunkModel>::empty());
    }
    while left > 0
        invariant
            at <= s@.len(),
            parse_chunk_items(s@, at as int, left as nat) matches Some((ms, p)) ==> (match
                parse_num(s@, 0) {
                Some((n0, j0)) => parse_chunk_items(s@, j0, n0 as nat) == Some(
                    (cs@.map_values(|c: crate::types::Chunk| c.model()) + ms, p),
                ),
                None => false,
            }),
            parse_chunk_items(s@, at as int, left as nat) is None ==> parse_chunks(s@) is None,
        decreases left,
    {
        match read_chunk(s, at) {
            Some((c, p)) => {
                let ghost old_cs = cs@;
                cs.push(c);
                proof {
                    assert(cs@.map_values(|q: crate::types::Chunk| q.model()) =~= old_cs
                        .map_values(|q: crate::types::Chunk| q.model()) + seq![
                        cs@.last().model(),
                    ]);
                }
                at = p;
                left = left - 1;
                proof {
                    if let Some((ms, p2)) = parse_chunk_items(s@, at as int, left as nat) {
                        assert(old_cs.map_values(|q: crate::types::Chunk| q.model()) + (seq![
                            cs@.last().model(),
                        ] + ms) =~= cs@.map_values(|q: crate::types::Chunk| q.model()) + ms);
                    }
                }
            },
            None => {
                return None;
            },
        }
    }
    proof {
        assert(parse_chunk_items(s@, at as int, 0nat) == Some(
            (Seq::<crate::types::ChunkModel>::empty(), at as int),
        ));
        assert(cs@.map_values(|c: crate::types::Chunk| c.model())
            + Seq::<crate::types::ChunkModel>::empty() =~= cs@.map_values(
            |c: crate::types::Chunk| c.model(),
        ));
    }
    if at != len {
        return None;
    }
    Some(cs)
}

/// Check a loaded queue against the active temporary directory: every chunk
/// must have been planned for it, otherwise the stored queue belongs to
/// another run.
pub fn validate_queue_temp(chunks: &Vec<crate::types::Chunk>, temp: &str) -> (r: Result<
    (),
    crate::types::JobError,
>)
    ensures
        r is Ok <==> (forall|i: int|
            0 <= i < chunks@.len() ==> (#[trigger] chunks@[i]).temp@ == temp@),
        r is Err ==> r == Err::<(), crate::types::JobError>(
            crate::types::JobError::ResumeInconsistent,
        ),
{
    let mut i: usize = 0;
    while i < chunks.len()
        invariant
            i <= chunks@.len(),
            forall|k: int| 0 <= k < i ==> (#[trigger] chunks@[k]).temp@ == temp@,
        decreases chunks@.len() - i,
    {
        if !crate::num::str_eq(chunks[i].temp.as_str(), temp) {
            return Err(crate::types::JobError::ResumeInconsistent);
        }
        i += 1;
    }
    Ok(())
}

pub open spec fn ser_scene_items(l: Seq<crate::types::SceneModel>) -> Seq<char>
    decreases l.len(),
{
    if l.len() == 0 {
        Seq::<char>::empty()
    } else {
        ser_scene(l.first()) + ser_scene_items(l.drop_first())
    }
}

/// The whole persisted scene list: its length, then the scenes.
pub open spec fn ser_scenes(l: Seq<crate::types::SceneModel>) -> Seq<char> {
    ser_num(l.len()) + ser_scene_items(l)
}

pub open spec fn parse_scene_items(s: Seq<char>, i: int, count: nat) -> Option<
    (Seq<crate::types::SceneModel>, int),
>
    decreases count,
{
    if count == 0 {
        Some((Seq::<crate::types::SceneModel>::empty(), i))
    } else {
        match parse_scene(s, i) {
            Some((m, j)) => match parse_scene_items(s, j, (count - 1) as nat) {
                Some((ms, k)) => Some((seq![m] + ms, k)),
                None => None,
            },
            None => None,
        }
    }
}

/// Parse a whole persisted scene list; the text must be consumed exactly.
pub open spec fn parse_scenes(s: Seq<char>) -> Option<Seq<crate::types::SceneModel>> {
    match parse_num(s, 0) {
        Some((n, j)) => match parse_scene_items(s, j, n as nat) {
            Some((ms, k)) => if k == s.len() {
                Some(ms)
            } else {
                None
            },
            None => None,
        },
        None => None,
    }
}

#[verifier::rlimit(100)]
#[verifier::spinoff_prover]
proof fn lemma_parse_ser_scene_items(
    pre: Seq<char>,
    l: Seq<crate::types::SceneModel>,
    rest: Seq<char>,
)
    requires
        forall|i: int| 0 <= i < l.len() ==> scene_model_fits(#[trigger] l[i]),
    ensures
        parse_scene_items(pre + ser_scene_items(l) + rest, pre.len() as int, l.len()) == Some(
            (l, pre.len() + ser_scene_items(l).len() as int),
        ),
    decreases l.len(),
{
    let s = pre + ser_scene_items(l) + rest;
    if l.len() == 0 {
        assert(s =~= pre + rest);
        assert(l =~= Seq::<crate::types::SceneModel>::empty());
    } else {
        let head = l.first();
        let tail = l.drop_first();
        vstd::seq_lib::lemma_concat_associative(ser_scene(head), ser_scene_items(tail), rest);
        vstd::seq_lib::lemma_concat_associative(pre, ser_scene(head), ser_scene_items(tail) + rest);
        vstd::seq_lib::lemma_concat_associative(pre, ser_scene_items(l), rest);
        assert(s == pre + ser_scene(head) + (ser_scene_items(tail) + rest));
        lemma_parse_ser_scene(pre, head, ser_scene_items(tail) + rest);
        vstd::seq_lib::lemma_concat_associative(pre + ser_scene(head), ser_scene_items(tail), rest);
        assert(s == (pre + ser_scene(head)) + ser_scene_items(tail) + rest);
        lemma_parse_ser_scene_items(pre + ser_scene(head), tail, rest);
        assert(seq![head] + tail =~= l);
    }
}

/// Writing the scene list and reading it back yields the same scenes.
pub proof fn lemma_scenes_round_trip(l: Seq<crate::types::SceneModel>)
    requires
        l.len() <= u64::MAX,
        forall|i: int| 0 <= i < l.len() ==> scene_model_fits(#[trigger] l[i]),
    ensures
        parse_scenes(ser_scenes(l)) == Some(l),
{
    let s = ser_scenes(l);
    assert(s =~= Seq::<char>::empty() + ser_num(l.len()) + ser_scene_items(l));
    lemma_parse_ser_num(Seq::<char>::empty(), l.len() as u64, ser_scene_items(l));
    assert(s =~= (Seq::<char>::empty() + ser_num(l.len())) + ser_scene_items(l)
        + Seq::<char>::empty());
    lemma_parse_ser_scene_items(
        Seq::<char>::empty() + ser_num(l.len()),
        l,
        Seq::<char>::empty(),
    );
}

/// Serialize the detected scenes, deterministically.
#[verifier::rlimit(100)]
#[verifier::spinoff_prover]
pub fn save_scenes(scenes: &Vec<crate::types::Scene>) -> (out: String)
    ensures
        out@ == ser_scenes(scenes@.map_values(|c: crate::types::Scene| c.model())),
{
    let ghost m = scenes@.map_values(|c: crate::types::Scene| c.model());
    let mut out = String::new();
    write_num(&mut out, scenes.len() as u64);
    let mut i: usize = 0;
    proof {
        assert(ser_scene_items(m.take(0int)) =~= Seq::<char>::empty());
        assert(out@ =~= ser_num(m.len()) + ser_scene_items(m.take(0int)));
    }
    while i < scenes.len()
        invariant
            i <= scenes@.len(),
            m == scenes@.map_values(|c: crate::types::Scene| c.model()),
            out@ == ser_num(m.len()) + ser_scene_items(m.take(i as int)),
        decreases scenes@.len() - i,
    {
        write_scene(&mut out, &scenes[i]);
        proof {
            lemma_ser_scene_items_take(m, i as int);
            vstd::seq_lib::lemma_concat_associative(
                ser_num(m.len()),
                ser_scene_items(m.take(i as int)),
                ser_scene(m[i as int]),
            );
        }
        i += 1;
    }
    proof {
        assert(m.take(m.len() as int) =~= m);
    }
    out
}

proof fn lemma_ser_scene_items_take(m: Seq<crate::types::SceneModel>, i: int)
    requires
        0 <= i < m.len(),
    ensures
        ser_scene_items(m.take(i + 1)) == ser_scene_items(m.take(i)) + ser_scene(m[i]),
    decreases i,
{
    if i == 0 {
        assert(m.take(1int).first() == m[0]);
        assert(m.take(1int).drop_first() =~= Seq::<crate::types::SceneModel>::empty());
        assert(ser_scene_items(m.take(0int)) =~= Seq::<char>::empty());
        assert(ser_scene_items(m.take(1int)) == ser_scene(m.take(1int).first())
            + ser_scene_items(m.take(1int).drop_first()));
        assert(ser_scene_items(Seq::<crate::types::SceneModel>::empty()) =~= Seq::<char>::empty());
        assert(ser_scene_items(m.take(1int)) =~= ser_scene(m[0]));
        assert(ser_scene_items(m.take(0int)) + ser_scene(m[0]) =~= ser_scene(m[0]));
    } else {
        let a = m.take(i + 1);
        let b = m.take(i);
        assert(a.first() == m[0]);
        assert(b.first() == m[0]);
        assert(a.drop_first() =~= m.drop_first().take(i));
        assert(b.drop_first() =~= m.drop_first().take(i - 1));
        assert(m.drop_first()[i - 1] == m[i]);
        lemma_ser_scene_items_take(m.drop_first(), i - 1);
        assert(ser_scene_items(a) == ser_scene(m[0]) + ser_scene_items(m.drop_first().take(i)));
        assert(ser_scene_items(b) == ser_scene(m[0]) + ser_scene_items(
            m.drop_first().take(i - 1),
        ));
        vstd::seq_lib::lemma_concat_associative(
            ser_scene(m[0]),
            ser_scene_items(m.drop_first().take(i - 1)),
            ser_scene(m[i]),
        );
    }
}

/// Load a persisted scene list, exactly as `parse_scenes` describes.
#[verifier::rlimit(100)]
#[verifier::spinoff_prover]
pub fn load_scenes(s: &str) -> (r: Option<Vec<crate::types::Scene>>)
    ensures
        match r {
            Some(cs) => parse_scenes(s@) == Some(
                cs@.map_values(|c: crate::types::Scene| c.model()),
            ),
            None => parse_scenes(s@) is None,
        },
{
    let len = s.unicode_len();
    let (n, mut at) = match read_num(s, 0) {
        Some(v) => v,
        None => {
            return None;
        },
    };
    let mut cs: Vec<crate::types::Scene> = Vec::new();
    let mut left = n;
    proof {
        assert(cs@.map_values(|c: crate::types::Scene| c.model())
            =~= Seq::<crate::types::SceneModel>::empty());
    }
    while left > 0
        invariant
            at <= s@.len(),
            parse_scene_items(s@, at as int, left as nat) matches Some((ms, p)) ==> (match
                parse_num(s@, 0) {
                Some((n0, j0)) => parse_scene_items(s@, j0, n0 as nat) == Some(
                    (cs@.map_values(|c: crate::types::Scene| c.model()) + ms, p),
                ),
                None => false,
            }),
            parse_scene_items(s@, at as int, left as nat) is None ==> parse_scenes(s@) is None,
        decreases left,
    {
        match read_scene(s, at) {
            Some((c, p)) => {
                let ghost old_cs = cs@;
                cs.push(c);
                proof {
                    assert(cs@.map_values(|q: crate::types::Scene| q.model()) =~= old_cs
                        .map_values(|q: crate::types::Scene| q.model()) + seq![
                        cs@.last().model(),
                    ]);
                }
                at = p;
                left = left - 1;
                proof {
                    if let Some((ms, p2)) = parse_scene_items(s@, at as int, left as nat) {
                        assert(old_cs.map_values(|q: crate::types::Scene| q.model()) + (seq![
                            cs@.last().model(),
                        ] + ms) =~= cs@.map_values(|q: crate::types::Scene| q.model()) + ms);
                    }
                }
            },
            None => {
                return None;
            },
        }
    }
    proof {
        assert(parse_scene_items(s@, at as int, 0nat) == Some(
            (Seq::<crate::types::SceneModel>::empty(), at as int),
        ));
        assert(cs@.map_values(|c: crate::types::Scene| c.model())
            + Seq::<crate::types::SceneModel>::empty() =~= cs@.map_values(
            |c: crate::types::Scene| c.model(),
        ));
    }
    if at != len {
        return None;
    }
    Some(cs)
}

/// One recorded completion: name, frames, and output size.
pub open spec fn ser_done_entry(e: (Seq<char>, int, int)) -> Seq<char> {
    ser_str(e.0) + ser_num(e.1 as nat) + ser_num(e.2 as nat)
}

pub open spec fn done_entry_fits(e: (Seq<char>, int, int)) -> bool {
    &&& e.0.len() <= u64::MAX
    &&& 0 <= e.1 <= usize::MAX
    &&& 0 <= e.2 <= usize::MAX
}

pub open spec fn parse_done_entry(s: Seq<char>, i: int) -> Option<((Seq<char>, int, int), int)> {
    match parse_str(s, i) {
        Some((name, i1)) => match parse_num(s, i1) {
            Some((frames, i2)) => if frames <= usize::MAX {
                match parse_num(s, i2) {
                    Some((size, i3)) => if size <= usize::MAX {
                        Some(((name, frames as int, size as int), i3))
                    } else {
                        None
                    },
                    None => None,
                }
            } else {
                None
            },
            None => None,
        },
        None => None,
    }
}

proof fn lemma_parse_ser_done_entry(pre: Seq<char>, e: (Seq<char>, int, int), rest: Seq<char>)
    requires
        done_entry_fits(e),
    ensures
        parse_done_entry(pre + ser_done_entry(e) + rest, pre.len() as int) == Some(
            (e, pre.len() + ser_done_entry(e).len() as int),
        ),
{
    let s = pre + ser_done_entry(e) + rest;
    let f1 = ser_str(e.0);
    let f2 = ser_num(e.1 as nat);
    let f3 = ser_num(e.2 as nat);
    let p1 = pre + f1;
    let p2 = p1 + f2;
    let t3 = rest;
    let t2 = f3 + t3;
    let t1 = f2 + t2;
    vstd::seq_lib::lemma_concat_associative(f1 + f2, f3, t3);
    vstd::seq_lib::lemma_concat_associative(f1, f2, t2);
    assert(ser_done_entry(e) + rest == f1 + t1);
    vstd::seq_lib::lemma_concat_associative(pre, ser_done_entry(e), rest);
    vstd::seq_lib::lemma_concat_associative(pre, f1, t1);
    assert(s == pre + f1 + t1);
    lemma_parse_ser_str(pre, e.0, t1);
    vstd::seq_lib::lemma_concat_associative(p1, f2, t2);
    assert(s == p1 + f2 + t2);
    lemma_parse_ser_num(p1, e.1 as u64, t2);
    vstd::seq_lib::lemma_concat_associative(p2, f3, t3);
    assert(s == p2 + f3 + t3);
    lemma_parse_ser_num(p2, e.2 as u64, t3);
}

pub open spec fn ser_done_items(l: Seq<(Seq<char>, int, int)>) -> Seq<char>
    decreases l.len(),
{
    if l.len() == 0 {
        Seq::<char>::empty()
    } else {
        ser_done_entry(l.first()) + ser_done_items(l.drop_first())
    }
}

pub open spec fn parse_done_items(s: Seq<char>, i: int, count: nat) -> Option<
    (Seq<(Seq<char>, int, int)>, int),
>
    decreases count,
{
    if count == 0 {
        Some((Seq::<(Seq<char>, int, int)>::empty(), i))
    } else {
        match parse_done_entry(s, i) {
            Some((e, j)) => match parse_done_items(s, j, (count - 1) as nat) {
                Some((es, k)) => Some((seq![e] + es, k)),
                None => None,
            },
            None => None,
        }
    }
}

/// The whole persisted done record: the clip's frame total, the audio flag,
/// then the completed chunks.
pub open spec fn ser_done(total: int, audio: bool, l: Seq<(Seq<char>, int, int)>) -> Seq<char> {
    ser_num(total as nat) + ser_bool(audio) + ser_num(l.len()) + ser_done_items(l)
}

pub open spec fn parse_done(s: Seq<char>) -> Option<(int, bool, Seq<(Seq<char>, int, int)>)> {
    match parse_num(s, 0) {
        Some((total, i1)) => if total <= usize::MAX {
            match parse_bool(s, i1) {
                Some((audio, i2)) => match parse_num(s, i2) {
                    Some((n, i3)) => match parse_done_items(s, i3, n as nat) {
                        Some((es, k)) => if k == s.len() {
                            Some((total as int, audio, es))
                        } else {
                            None
                        },
                        None => None,
                    },
                    None => None,
                },
                None => None,
            }
        } else {
            None
        },
        None => None,
    }
}

proof fn lemma_parse_ser_done_items(
    pre: Seq<char>,
    l: Seq<(Seq<char>, int, int)>,
    rest: Seq<char>,
)
    requires
        forall|i: int| 0 <= i < l.len() ==> done_entry_fits(#[trigger] l[i]),
    ensures
        parse_done_items(pre + ser_done_items(l) + rest, pre.len() as int, l.len()) == Some(
            (l, pre.len() + ser_done_items(l).len() as int),
        ),
    decreases l.len(),
{
    let s = pre + ser_done_items(l) + rest;
    if l.len() == 0 {
        assert(s =~= pre + rest);
        assert(l =~= Seq::<(Seq<char>, int, int)>::empty());
    } else {
        let head = l.first();
        let tail = l.drop_first();
        vstd::seq_lib::lemma_concat_associative(ser_done_entry(head), ser_done_items(tail), rest);
        vstd::seq_lib::lemma_concat_associative(
            pre,
            ser_done_entry(head),
            ser_done_items(tail) + rest,
        );
        vstd::seq_lib::lemma_concat_associative(pre, ser_done_items(l), rest);
        assert(s == pre + ser_done_entry(head) + (ser_done_items(tail) + rest));
        lemma_parse_ser_done_entry(pre, head, ser_done_items(tail) + rest);
        vstd::seq_lib::lemma_concat_associative(
            pre + ser_done_entry(head),
            ser_done_items(tail),
            rest,
        );
        assert(s == (pre + ser_done_entry(head)) + ser_done_items(tail) + rest);
        lemma_parse_ser_done_items(pre + ser_done_entry(head), tail, rest);
        assert(seq![head] + tail =~= l);
    }
}

/// Writing the done record and reading it back yields the same record.
pub proof fn lemma_done_round_trip(total: int, audio: bool, l: Seq<(Seq<char>, int, int)>)
    requires
        0 <= total <= usize::MAX,
        l.len() <= u64::MAX,
        forall|i: int| 0 <= i < l.len() ==> done_entry_fits(#[trigger] l[i]),
    ensures
        parse_done(ser_done(total, audio, l)) == Some((total, audio, l)),
{
    let s = ser_done(total, audio, l);
    let f1 = ser_num(total as nat);
    let f2 = ser_bool(audio);
    let f3 = ser_num(l.len());
    let f4 = ser_done_items(l);
    let p1 = Seq::<char>::empty() + f1;
    let p2 = p1 + f2;
    let p3 = p2 + f3;
    let t4 = Seq::<char>::empty();
    let t3 = f4 + t4;
    let t2 = f3 + t3;
    let t1 = f2 + t2;
    vstd::seq_lib::lemma_concat_associative(f1 + f2 + f3, f4, t4);
    vstd::seq_lib::lemma_concat_associative(f1 + f2, f3, t3);
    vstd::seq_lib::lemma_concat_associative(f1, f2, t2);
    assert(s + Seq::<char>::empty() =~= s);
    assert(s == f1 + t1) by {
        assert(f1 + f2 + f3 + f4 == f1 + t1);
    }
    assert(Seq::<char>::empty() + f1 + t1 =~= f1 + t1);
    lemma_parse_ser_num(Seq::<char>::empty(), total as u64, t1);
    assert(s =~= Seq::<char>::empty() + f1 + t1);
    vstd::seq_lib::lemma_concat_associative(p1, f2, t2);
    assert(s =~= p1 + f2 + t2);
    lemma_parse_ser_bool(p1, audio, t2);
    vstd::seq_lib::lemma_concat_associative(p2, f3, t3);
    assert(s =~= p2 + f3 + t3);
    lemma_parse_ser_num(p2, l.len() as u64, t3);
    vstd::seq_lib::lemma_concat_associative(p3, f4, t4);
    assert(s =~= p3 + f4 + t4);
    lemma_parse_ser_done_items(p3, l, t4);
}

/// The model of a done set's entries.
pub open spec fn done_entries_model(es: Seq<crate::done::DoneEntry>) -> Seq<
    (Seq<char>, int, int),
> {
    es.map_values(
        |e: crate::done::DoneEntry| (e.name@, e.frames as int, e.size_bytes as int),
    )
}

/// Serialize the done record, deterministically.
#[verifier::rlimit(100)]
#[verifier::spinoff_prover]
pub fn save_done(d: &crate::done::DoneSet) -> (out: String)
    ensures
        out@ == ser_done(
            d.total_frames_spec(),
            d.audio_done_spec(),
            done_entries_model(d.entries@),
        ),
{
    let ghost m = done_entries_model(d.entries@);
    let mut out = String::new();
    write_num(&mut out, d.total_frames() as u64);
    write_bool(&mut out, d.audio_done());
    write_num(&mut out, d.entries.len() as u64);
    let mut i: usize = 0;
    proof {
        assert(ser_done_items(m.take(0int)) =~= Seq::<char>::empty());
        assert(out@ =~= ser_num(d.total_frames_spec() as nat) + ser_bool(d.audio_done_spec())
            + ser_num(m.len()) + ser_done_items(m.take(0int)));
    }
    while i < d.entries.len()
        invariant
            i <= d.entries@.len(),
            m == done_entries_model(d.entries@),
            out@ == ser_num(d.total_frames_spec() as nat) + ser_bool(d.audio_done_spec())
                + ser_num(m.len()) + ser_done_items(m.take(i as int)),
        decreases d.entries@.len() - i,
    {
        let e = &d.entries[i];
        write_str(&mut out, e.name.as_str());
        write_num(&mut out, e.frames as u64);
        write_num(&mut out, e.size_bytes as u64);
        proof {
            lemma_ser_done_items_take(m, i as int);
            vstd::seq_lib::lemma_concat_associative(
                ser_num(d.total_frames_spec() as nat) + ser_bool(d.audio_done_spec()) + ser_num(
                    m.len(),
                ),
                ser_done_items(m.take(i as int)),
                ser_done_entry(m[i as int]),
            );
            assert(ser_done_entry(m[i as int]) == ser_str(d.entries@[i as int].name@) + ser_num(
                d.entries@[i as int].frames as nat,
            ) + ser_num(d.entries@[i as int].size_bytes as nat));
            vstd::seq_lib::lemma_concat_associative(
                ser_str(d.entries@[i as int].name@),
                ser_num(d.entries@[i as int].frames as nat),
                ser_num(d.entries@[i as int].size_bytes as nat),
            );
            assert(out@ =~= ser_num(d.total_frames_spec() as nat) + ser_bool(
                d.audio_done_spec(),
            ) + ser_num(m.len()) + ser_done_items(m.take(i + 1int)));
        }
        i += 1;
    }
    proof {
        assert(m.take(m.len() as int) =~= m);
    }
    out
}

proof fn lemma_ser_done_items_take(m: Seq<(Seq<char>, int, int)>, i: int)
    requires
        0 <= i < m.len(),
    ensures
        ser_done_items(m.take(i + 1)) == ser_done_items(m.take(i)) + ser_done_entry(m[i]),
    decreases i,
{
    if i == 0 {
        assert(m.take(1int).first() == m[0]);
        assert(m.take(1int).drop_first() =~= Seq::<(Seq<char>, int, int)>::empty());
        assert(ser_done_items(m.take(0int)) =~= Seq::<char>::empty());
        assert(ser_done_items(m.take(1int)) == ser_done_entry(m.take(1int).first())
            + ser_done_items(m.take(1int).drop_first()));
        assert(ser_done_items(Seq::<(Seq<char>, int, int)>::empty()) =~= Seq::<char>::empty());
        assert(ser_done_items(m.take(1int)) =~= ser_done_entry(m[0]));
        assert(ser_done_items(m.take(0int)) + ser_done_entry(m[0]) =~= ser_done_entry(m[0]));
    } else {
        let a = m.take(i + 1);
        let b = m.take(i);
        assert(a.first() == m[0]);
        assert(b.first() == m[0]);
        assert(a.drop_first() =~= m.drop_first().take(i));
        assert(b.drop_first() =~= m.drop_first().take(i - 1));
        assert(m.drop_first()[i - 1] == m[i]);
        lemma_ser_done_items_take(m.drop_first(), i - 1);
        assert(ser_done_items(a) == ser_done_entry(m[0]) + ser_done_items(
            m.drop_first().take(i),
        ));
        assert(ser_done_items(b) == ser_done_entry(m[0]) + ser_done_items(
            m.drop_first().take(i - 1),
        ));
        vstd::seq_lib::lemma_concat_associative(
            ser_done_entry(m[0]),
            ser_done_items(m.drop_first().take(i - 1)),
            ser_done_entry(m[i]),
        );
    }
}

/// Sum of the recorded frame counts of parsed done entries.
pub open spec fn sum_entry_frames(es: Seq<(Seq<char>, int, int)>) -> int
    decreases es.len(),
{
    if es.len() == 0 {
        0
    } else {
        sum_entry_frames(es.drop_last()) + es.last().1
    }
}

/// A parsed done record this engine could have written: every chunk name
/// appears once and the frame counts sum to a representable total.
pub open spec fn done_record_ok(es: Seq<(Seq<char>, int, int)>) -> bool {
    &&& (forall|i: int, j: int|
        0 <= i < j < es.len() ==> (#[trigger] es[i]).0 != (#[trigger] es[j]).0)
    &&& sum_entry_frames(es) <= usize::MAX
}

proof fn lemma_sum_entry_concat(a: Seq<(Seq<char>, int, int)>, b: Seq<(Seq<char>, int, int)>)
    ensures
        sum_entry_frames(a + b) == sum_entry_frames(a) + sum_entry_frames(b),
    decreases b.len(),
{
    if b.len() == 0 {
        assert(a + b =~= a);
    } else {
        assert((a + b).drop_last() =~= a + b.drop_last());
        assert((a + b).last() == b.last());
        lemma_sum_entry_concat(a, b.drop_last());
    }
}

/// Every entry a successful items-parse yields carries nonnegative counts.
proof fn lemma_done_items_nonneg(s: Seq<char>, i: int, count: nat)
    ensures
        parse_done_items(s, i, count) matches Some((es, p)) ==> forall|k: int|
            0 <= k < es.len() ==> (#[trigger] es[k]).1 >= 0,
    decreases count,
{
    if count > 0 {
        if let Some((e, j)) = parse_done_entry(s, i) {
            lemma_done_items_nonneg(s, j, (count - 1) as nat);
        }
    }
}

/// The model of a done set's entries sums to the same frame total.
proof fn lemma_model_sum(entries: Seq<crate::done::DoneEntry>)
    ensures
        sum_entry_frames(done_entries_model(entries)) == crate::done::sum_frames_spec(entries),
    decreases entries.len(),
{
    if entries.len() > 0 {
        assert(done_entries_model(entries).drop_last() =~= done_entries_model(
            entries.drop_last(),
        ));
        assert(done_entries_model(entries).last() == (
            entries.last().name@,
            entries.last().frames as int,
            entries.last().size_bytes as int,
        ));
        lemma_model_sum(entries.drop_last());
    }
}

/// Load a persisted done record, rebuilding the set through its own
/// insertions so that the loaded set is well-formed.  Loading fails exactly
/// when the text is not a whole well-formed record or the record could not
/// have been written by this engine: a duplicated chunk name, or a frame
/// sum above what the progress counter can hold.
#[verifier::rlimit(100)]
#[verifier::spinoff_prover]
pub fn load_done(s: &str) -> (r: Option<crate::done::DoneSet>)
    ensures
        match r {
            Some(d) => {
                &&& d.wf()
                &&& parse_done(s@) == Some(
                    (
                        d.total_frames_spec(),
                        d.audio_done_spec(),
                        done_entries_model(d.entries@),
                    ),
                )
            },
            None => (parse_done(s@) matches Some((t, a, es)) ==> !done_record_ok(es)),
        },
{
    let len = s.unicode_len();
    let (total, i1) = match read_num(s, 0) {
        Some(v) => v,
        None => {
            return None;
        },
    };
    if total > usize::MAX as u64 {
        return None;
    }
    let (audio, i2) = match read_bool(s, i1) {
        Some(v) => v,
        None => {
            return None;
        },
    };
    let (n, i3) = match read_num(s, i2) {
        Some(v) => v,
        None => {
            return None;
        },
    };
    let mut d = crate::done::DoneSet::new();
    let mut at = i3;
    let mut left = n;
    while left > 0
        invariant
            at <= s@.len(),
            d.wf(),
            !d.audio_done_spec(),
            d.total_frames_spec() == 0,
            total <= usize::MAX,
            parse_num(s@, 0) == Some((total, i1 as int)),
            parse_bool(s@, i1 as int) == Some((audio, i2 as int)),
            parse_num(s@, i2 as int) == Some((n, i3 as int)),
            parse_done_items(s@, at as int, left as nat) matches Some((es, p))
                ==> parse_done_items(s@, i3 as int, n as nat) == Some(
                (done_entries_model(d.entries@) + es, p),
            ),
            parse_done_items(s@, at as int, left as nat) is None ==> parse_done_items(
                s@,
                i3 as int,
                n as nat,
            ) is None,
        decreases left,
    {
        let ghost at0 = at as int;
        let ghost left0 = left as nat;
        let (name, p1) = match read_str(s, at) {
            Some(v) => v,
            None => {
                return None;
            },
        };
        let (frames, p2) = match read_num(s, p1) {
            Some(v) => v,
            None => {
                return None;
            },
        };
        if frames > usize::MAX as u64 {
            return None;
        }
        let (size, p3) = match read_num(s, p2) {
            Some(v) => v,
            None => {
                return None;
            },
        };
        if size > usize::MAX as u64 {
            return None;
        }
        proof {
            assert(parse_done_entry(s@, at0) == Some(
                ((name@, frames as int, size as int), p3 as int),
            ));
        }
        let ghost cur = (name@, frames as int, size as int);
        let is_dup = d.contains(name.as_str());
        let current = d.sum_frames();
        let over = frames as usize > usize::MAX - current;
        if is_dup || over {
            proof {
                if let Some((t2, a2, es_full)) = parse_done(s@) {
                    // the whole record parsed, so the remaining items parse
                    // from here as well, and the full entry list is the
                    // already-loaded prefix, this entry, then the rest
                    assert(parse_done_items(s@, i3 as int, n as nat) matches Some((es0, k0))
                        && es0 == es_full && k0 == s@.len());
                    assert(parse_done_items(s@, at0, left0) is Some);
                    if let Some((rest, p4)) = parse_done_items(
                        s@,
                        p3 as int,
                        (left0 - 1) as nat,
                    ) {
                        let model = done_entries_model(d.entries@);
                        assert(parse_done_items(s@, at0, left0) == Some(
                            (seq![cur] + rest, p4),
                        ));
                        assert(es_full == model + (seq![cur] + rest));
                        if is_dup {
                            let t = choose|t: int|
                                0 <= t < d.entries@.len() && (#[trigger] d.entries@[t]).name@
                                    == name@;
                            assert(es_full[t].0 == name@);
                            assert(es_full[model.len() as int].0 == name@);
                            assert(!done_record_ok(es_full));
                        } else {
                            lemma_model_sum(d.entries@);
                            lemma_done_items_nonneg(s@, p3 as int, (left0 - 1) as nat);
                            lemma_sum_entry_concat(model, seq![cur] + rest);
                            lemma_sum_entry_concat(seq![cur], rest);
                            assert(sum_entry_frames(seq![cur]) == frames as int) by {
                                assert(seq![cur].drop_last() =~= Seq::<
                                    (Seq<char>, int, int),
                                >::empty());
                                assert(seq![cur].last() == cur);
                                assert(sum_entry_frames(
                                    Seq::<(Seq<char>, int, int)>::empty(),
                                ) == 0);
                            }
                            assert(sum_entry_frames(rest) >= 0) by {
                                lemma_sum_entry_nonneg(rest);
                            }
                            assert(sum_entry_frames(es_full) > usize::MAX);
                            assert(!done_record_ok(es_full));
                        }
                    }
                }
            }
            return None;
        }
        let ghost old_entries = d.entries@;
        d.insert(name, frames as usize, size as usize);
        proof {
            assert(done_entries_model(d.entries@) =~= done_entries_model(old_entries) + seq![
                cur,
            ]);
        }
        at = p3;
        left = left - 1;
        proof {
            assert(parse_done_items(s@, at0, left0) == (match parse_done_items(
                s@,
                at as int,
                left as nat,
            ) {
                Some((rest, p4)) => Some::<(Seq<(Seq<char>, int, int)>, int)>(
                    (seq![cur] + rest, p4),
                ),
                None => None,
            }));
            if let Some((es, p4)) = parse_done_items(s@, at as int, left as nat) {
                assert(done_entries_model(old_entries) + (seq![cur] + es)
                    =~= done_entries_model(d.entries@) + es);
            }
        }
    }
    proof {
        assert(parse_done_items(s@, at as int, 0nat) == Some(
            (Seq::<(Seq<char>, int, int)>::empty(), at as int),
        ));
        assert(done_entries_model(d.entries@) + Seq::<(Seq<char>, int, int)>::empty()
            =~= done_entries_model(d.entries@));
        assert(parse_done_items(s@, i3 as int, n as nat) == Some(
            (done_entries_model(d.entries@), at as int),
        ));
    }
    if at != len {
        return None;
    }
    d.set_total_frames(total as usize);
    if audio {
        d.mark_audio_done();
    }
    Some(d)
}

/// A list of nonnegative-count entries has a nonnegative frame sum.
proof fn lemma_sum_entry_nonneg(es: Seq<(Seq<char>, int, int)>)
    requires
        forall|k: int| 0 <= k < es.len() ==> (#[trigger] es[k]).1 >= 0,
    ensures
        sum_entry_frames(es) >= 0,
    decreases es.len(),
{
    if es.len() > 0 {
        assert(forall|k: int|
            0 <= k < es.drop_last().len() ==> (#[trigger] es.drop_last()[k]).1 >= 0);
        lemma_sum_entry_nonneg(es.drop_last());
    }
}

/// A digit run's value is at least the value of any of its prefixes scaled
/// up; in particular, if a prefix already exceeds the range, the whole run
/// does.
proof fn lemma_digits_prefix_le(run: Seq<char>, p: int)
    requires
        0 < p <= run.len(),
        forall|t: int| 0 <= t < run.len() ==> is_digit(#[trigger] run[t]),
    ensures
        digits_value(run, 0) >= digits_value(run.subrange(0, p), 0),
    decreases run.len() - p,
{
    if p < run.len() {
        let a = digits_value(run.subrange(0, p), 0);
        let b = digits_value(run.subrange(0, p + 1), 0);
        assert(run.subrange(0, p + 1) =~= run.subrange(0, p).push(run[p]));
        crate::num::lemma_digits_value_push(run.subrange(0, p), run[p], 0);
        assert(b == a * 10 + digit_val(run[p]));
        assert(b >= a) by (nonlinear_arith)
            requires
                b == a * 10 + digit_val(run[p]),
                a >= 0,
                digit_val(run[p]) >= 0,
        ;
        lemma_digits_prefix_le(run, p + 1);
    } else {
        assert(run.subrange(0, p) =~= run);
    }
}

} // verus!
