//! Numbers as text: decimal writing, zero padding and parsing.

use crate::order;
use crate::text;
use crate::text::{chars_of, digit_char};
use vstd::prelude::*;
use vstd::string::*;

verus! {

// ---- writing -------------------------------------------------------------------

/// `n` in decimal, without leading zeros.
pub open spec fn dec(n: nat) -> Seq<char>
    decreases n,
{
    if n < 10 {
        seq![text::digit(n as int)]
    } else {
        dec(n / 10).push(text::digit((n % 10) as int))
    }
}

/// `n` in decimal, with a leading `-` when it is negative.
pub open spec fn signed(n: int) -> Seq<char> {
    if n < 0 {
        seq!['-'] + dec((-n) as nat)
    } else {
        dec(n as nat)
    }
}

/// `count` zeros.
pub open spec fn zeros(count: int) -> Seq<char> {
    Seq::new(
        if count > 0 {
            count as nat
        } else {
            0
        },
        |i: int| '0',
    )
}

/// `n` in decimal, padded with leading zeros to at least `width` characters; a `-` stands before
/// the zeros and counts towards the width.
pub open spec fn padded(n: int, width: int) -> Seq<char> {
    if n < 0 {
        seq!['-'] + zeros(width - 1 - dec((-n) as nat).len()) + dec((-n) as nat)
    } else {
        zeros(width - dec(n as nat).len()) + dec(n as nat)
    }
}

/// Appends `n` in decimal to `s`.
pub fn push_dec(s: &mut String, n: u64)
    ensures
        final(s)@ == old(s)@ + dec(n as nat),
    decreases n,
{
    if n >= 10 {
        push_dec(s, n / 10);
    }
    s.push(digit_char((n % 10) as u8));
    assert(s@ =~= old(s)@ + dec(n as nat));
}

/// `n` in decimal.
pub fn dec_text(n: u64) -> (r: String)
    ensures
        r@ == dec(n as nat),
{
    let mut s = String::new();
    push_dec(&mut s, n);
    assert(s@ =~= dec(n as nat));
    s
}

/// The number after `n` in decimal.
pub fn next_dec_text(n: u64) -> (r: String)
    ensures
        r@ == dec((n + 1) as nat),
    decreases n,
{
    if n < 10 {
        return dec_text(n + 1);
    }
    if n % 10 == 9 {
        let mut s = next_dec_text(n / 10);
        s.push('0');
        assert((n + 1) / 10 == n / 10 + 1 && (n + 1) % 10 == 0);
        s
    } else {
        let mut s = dec_text(n / 10);
        s.push(digit_char((n % 10) as u8 + 1));
        assert((n + 1) / 10 == n / 10 && (n + 1) % 10 == n % 10 + 1);
        s
    }
}

/// The absolute value of `n`.
fn magnitude(n: i64) -> (r: u64)
    ensures
        r == if n < 0 {
            -n
        } else {
            n as int
        },
{
    if n >= 0 {
        n as u64
    } else if n == i64::MIN {
        9_223_372_036_854_775_808u64
    } else {
        (-n) as u64
    }
}

/// `n` in decimal, with a leading `-` when it is negative.
pub fn signed_text(n: i64) -> (r: String)
    ensures
        r@ == signed(n as int),
{
    let mut s = String::new();
    if n < 0 {
        s.push('-');
    }
    push_dec(&mut s, magnitude(n));
    assert(s@ =~= signed(n as int));
    s
}

/// Appends `count` zeros to `s`.
fn push_zeros(s: &mut String, count: usize)
    ensures
        final(s)@ == old(s)@ + zeros(count as int),
{
    let mut i: usize = 0;
    assert(s@ =~= old(s)@ + zeros(0));
    while i < count
        invariant
            i <= count,
            s@ == old(s)@ + zeros(i as int),
        decreases count - i,
    {
        s.push('0');
        assert(s@ =~= old(s)@ + zeros(i + 1));
        i = i + 1;
    }
}

/// `n` padded with leading zeros to at least `width` characters.
pub fn padded_text(n: i64, width: usize) -> (r: String)
    ensures
        r@ == padded(n as int, width as int),
{
    let digits = dec_text(magnitude(n));
    let len = digits.as_str().unicode_len();
    let mut s = String::new();
    let mut room: usize = width;
    if n < 0 {
        s.push('-');
        room = if width > 0 {
            width - 1
        } else {
            0
        };
    }
    let ghost head = s@;
    let missing: usize = if room > len {
        room - len
    } else {
        0
    };
    push_zeros(&mut s, missing);
    proof {
        assert(zeros(missing as int) =~= zeros(room - len));
        assert(n < 0 && width == 0 ==> zeros(room - len) =~= zeros(width - 1 - len));
    }
    s.append(digits.as_str());
    proof {
        if n < 0 {
            assert(head =~= seq!['-']);
            assert(zeros(missing as int) =~= zeros(width - 1 - len));
        } else {
            assert(head =~= seq![]);
            assert(s@ =~= zeros(width - len) + dec(n as nat));
        }
    }
    s
}

// ---- reading -------------------------------------------------------------------

/// Whether `s` is a non-empty run of ASCII digits.
pub open spec fn all_digits(s: Seq<char>) -> bool {
    s.len() > 0 && forall|i: int| 0 <= i < s.len() ==> text::is_dig(#[trigger] s[i])
}

/// The value of a run of decimal digits.
pub open spec fn value(s: Seq<char>) -> nat
    decreases s.len(),
{
    if s.len() == 0 {
        0
    } else {
        value(s.drop_last()) * 10 + ((s.last() as u32) - 48) as nat
    }
}

/// The number that `s` writes: decimal digits, after at most one `+`.
pub open spec fn number(s: Seq<char>) -> Option<nat> {
    let t = if s.len() > 0 && s[0] == '+' {
        s.drop_first()
    } else {
        s
    };
    if all_digits(t) {
        Some(value(t))
    } else {
        None
    }
}

/// The number that `s` writes: decimal digits, after at most one sign.
pub open spec fn signed_number(s: Seq<char>) -> Option<int> {
    if s.len() > 0 && s[0] == '-' {
        if all_digits(s.drop_first()) {
            Some(-(value(s.drop_first()) as int))
        } else {
            None
        }
    } else {
        match number(s) {
            Some(v) => Some(v as int),
            None => None,
        }
    }
}

/// `n` where it is at most `max`.
pub open spec fn within(n: Option<nat>, max: nat) -> Option<nat> {
    match n {
        Some(v) => if v <= max {
            Some(v)
        } else {
            None
        },
        None => None,
    }
}

proof fn lemma_value_grows(s: Seq<char>, k: int)
    requires
        all_digits(s),
        0 <= k <= s.len(),
    ensures
        value(s.take(k)) <= value(s),
    decreases s.len() - k,
{
    if k == s.len() {
        assert(s.take(k) =~= s);
    } else {
        lemma_value_grows(s, k + 1);
        assert(s.take(k + 1).drop_last() =~= s.take(k));
        assert(text::is_dig(s[k]));
    }
}

/// The value of the digits `cs[from..]`, when they are digits and the value is at most `max`.
fn digits_value(cs: &[char], from: usize, max: u64) -> (r: Option<u64>)
    requires
        from <= cs@.len(),
    ensures
        match r {
            Some(v) => all_digits(cs@.skip(from as int)) && value(cs@.skip(from as int)) == v && v
                <= max,
            None => !all_digits(cs@.skip(from as int)) || value(cs@.skip(from as int)) > max,
        },
{
    let ghost t = cs@.skip(from as int);
    if from == cs.len() {
        return None;
    }
    let mut i: usize = from;
    let mut acc: u64 = 0;
    assert(t.take(0) =~= seq![]);
    while i < cs.len()
        invariant
            from <= i <= cs@.len(),
            t == cs@.skip(from as int),
            from < cs@.len(),
            forall|j: int| 0 <= j < i - from ==> text::is_dig(#[trigger] t[j]),
            acc == value(t.take(i - from)),
            acc <= max,
        decreases cs@.len() - i,
    {
        let c = cs[i];
        proof {
            assert(t[i - from] == c);
            assert(t.take(i - from + 1).drop_last() =~= t.take(i - from));
        }
        if c < '0' || '9' < c {
            return None;
        }
        let d: u64 = (c as u32 - 48) as u64;
        assert(value(t.take(i - from + 1)) == acc * 10 + d);
        if acc > (max / 10) || (acc == max / 10 && d > max % 10) {
            proof {
                assert(value(t.take(i - from + 1)) > max);
                if all_digits(t) {
                    lemma_value_grows(t, i - from + 1);
                }
            }
            return None;
        }
        acc = acc * 10 + d;
        i = i + 1;
    }
    assert(t.take(t.len() as int) =~= t);
    Some(acc)
}

/// Reads `s` as an unsigned number that is at most `max`.
pub fn parse_max(s: &str, max: u64) -> (r: Option<u64>)
    ensures
        match r {
            Some(v) => within(number(s@), max as nat) == Some(v as nat),
            None => within(number(s@), max as nat) is None,
        },
{
    let cs = chars_of(s);
    if cs.len() > 0 && cs[0] == '+' {
        assert(cs@.skip(1) =~= s@.drop_first());
        digits_value(&cs, 1, max)
    } else {
        assert(cs@.skip(0) =~= s@);
        digits_value(&cs, 0, max)
    }
}

/// Reads `s` as a `u64`.
pub fn parse_u64(s: &str) -> (r: Option<u64>)
    ensures
        match r {
            Some(v) => number(s@) == Some(v as nat),
            None => within(number(s@), u64::MAX as nat) is None,
        },
{
    parse_max(s, u64::MAX)
}

/// Reads `s` as a `u16`.
pub fn parse_u16(s: &str) -> (r: Option<u16>)
    ensures
        match r {
            Some(v) => number(s@) == Some(v as nat),
            None => within(number(s@), u16::MAX as nat) is None,
        },
{
    match parse_max(s, 65535) {
        Some(v) => Some(v as u16),
        None => None,
    }
}

/// Reads `s` as an `i64`.
pub fn parse_i64(s: &str) -> (r: Option<i64>)
    ensures
        match r {
            Some(v) => signed_number(s@) == Some(v as int),
            None => match signed_number(s@) {
                Some(n) => n < i64::MIN || n > i64::MAX,
                None => true,
            },
        },
{
    let cs = chars_of(s);
    if cs.len() > 0 && cs[0] == '-' {
        assert(cs@.skip(1) =~= s@.drop_first());
        match digits_value(&cs, 1, 9_223_372_036_854_775_808) {
            Some(v) => if v == 9_223_372_036_854_775_808 {
                Some(i64::MIN)
            } else {
                Some(-(v as i64))
            },
            None => None,
        }
    } else {
        match parse_max(s, 9_223_372_036_854_775_807) {
            Some(v) => Some(v as i64),
            None => None,
        }
    }
}

// ---- reading what was written --------------------------------------------------

pub proof fn lemma_dec_digits(n: nat)
    ensures
        all_digits(dec(n)),
        value(dec(n)) == n,
    decreases n,
{
    reveal_with_fuel(value, 2);
    let d = dec(n);
    if n < 10 {
        assert(d.drop_last() =~= seq![]);
        assert(d.last() == text::digit(n as int));
    } else {
        lemma_dec_digits(n / 10);
        assert(d.drop_last() =~= dec(n / 10));
        assert forall|i: int| 0 <= i < d.len() implies text::is_dig(#[trigger] d[i]) by {
            if i < d.len() - 1 {
                assert(dec(n / 10)[i] == d[i]);
            }
        }
    }
}

/// Reading a number that was written in decimal gives the number back.
pub proof fn law_number_reads_dec(n: nat)
    ensures
        number(dec(n)) == Some(n),
{
    lemma_dec_digits(n);
    assert(text::is_dig(dec(n)[0]));
}

/// Reading a signed number that was written in decimal gives the number back.
pub proof fn law_number_reads_signed(n: int)
    ensures
        signed_number(signed(n)) == Some(n),
{
    if n < 0 {
        lemma_dec_digits((-n) as nat);
        assert(signed(n).drop_first() =~= dec((-n) as nat));
    } else {
        law_number_reads_dec(n as nat);
        lemma_dec_digits(n as nat);
        assert(text::is_dig(dec(n as nat)[0]));
    }
}


// ---- the order of padded numbers -----------------------------------------------

/// Ten to the power `width`.
pub open spec fn ten(width: nat) -> nat
    decreases width,
{
    if width == 0 {
        1
    } else {
        10 * ten((width - 1) as nat)
    }
}

proof fn lemma_padded_step(n: int, width: nat)
    requires
        width > 0,
        0 <= n < ten(width),
    ensures
        n / 10 < ten((width - 1) as nat),
        width == 1 ==> padded(n, 1) == seq![text::digit(n)],
        width > 1 ==> padded(n, width as int) == padded(n / 10, width - 1).push(text::digit(n % 10)),
{
    let w = (width - 1) as nat;
    assert(ten(width) == 10 * ten(w));
    if width == 1 {
        assert(ten(0) == 1);
        assert(padded(n, 1) =~= seq![text::digit(n)]);
    } else if n < 10 {
        assert(n / 10 == 0 && n % 10 == n);
        assert(text::digit(0) == '0');
        assert(padded(n, width as int) =~= padded(0, width - 1).push(text::digit(n)));
    } else {
        assert(dec(n as nat) == dec((n / 10) as nat).push(text::digit(n % 10)));
        assert(padded(n, width as int) =~= padded(n / 10, width - 1).push(text::digit(n % 10)));
    }
}

/// Numbers below a power of ten, padded to its width, are texts of that width, and come in the
/// order of the numbers.
pub proof fn law_padded_order(a: int, b: int, width: nat)
    requires
        width > 0,
        0 <= a <= b < ten(width),
    ensures
        padded(a, width as int).len() == width,
        padded(b, width as int).len() == width,
        a < b ==> order::lex(padded(a, width as int), padded(b, width as int)),
    decreases width,
{
    lemma_padded_step(a, width);
    lemma_padded_step(b, width);
    if width > 1 {
        let w = (width - 1) as nat;
        let (x, y) = (padded(a / 10, w as int), padded(b / 10, w as int));
        let (s, t) = (seq![text::digit(a % 10)], seq![text::digit(b % 10)]);
        law_padded_order(a / 10, b / 10, w);
        assert(padded(a, width as int) =~= x + s);
        assert(padded(b, width as int) =~= y + t);
        if a / 10 < b / 10 {
            order::lemma_lex_append(x, y, s, t);
        } else if a < b {
            order::lemma_lex_front(x, s, t);
            assert(s[0] < t[0]);
        }
    }
}

} // verus!
