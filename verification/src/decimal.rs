//! Decimal text for unsigned integers: rendering as `{}` does and parsing as
//! `usize::from_str` does.

use vstd::prelude::*;
use vstd::string::*;

verus! {

/// The ASCII digit for `d` (only meaningful for `d < 10`).
pub open spec fn digit_char(d: nat) -> char {
    ((d + 48) as u32) as char
}

/// Whether `c` is one of `'0'..='9'`.
pub open spec fn is_decimal_digit(c: char) -> bool {
    '0' <= c && c <= '9'
}

/// The value of a decimal digit character.
pub open spec fn digit_value(c: char) -> nat {
    ((c as u32) - 48) as nat
}

/// The shortest decimal spelling of `n`, as `format!("{}", n)` writes it.
pub open spec fn decimal_chars(n: nat) -> Seq<char>
    decreases n,
{
    if n < 10 {
        seq![digit_char(n)]
    } else {
        decimal_chars(n / 10).push(digit_char(n % 10))
    }
}

/// Whether every character of `s` is a decimal digit.
pub open spec fn all_decimal_digits(s: Seq<char>) -> bool {
    forall|i: int| 0 <= i < s.len() ==> is_decimal_digit(#[trigger] s[i])
}

/// The number that the digit string `s` denotes (leading zeros allowed).
pub open spec fn digits_value(s: Seq<char>) -> nat
    decreases s.len(),
{
    if s.len() == 0 {
        0
    } else {
        digits_value(s.drop_last()) * 10 + digit_value(s.last())
    }
}

/// What `s.parse::<usize>().ok()` gives for text `s`: an optional `'+'`,
/// then one or more decimal digits, whose value fits in a `usize`.
pub open spec fn parsed_usize(s: Seq<char>) -> Option<nat> {
    let digits = if s.len() > 0 && s[0] == '+' {
        s.drop_first()
    } else {
        s
    };
    if digits.len() > 0 && all_decimal_digits(digits) && digits_value(digits) <= usize::MAX {
        Some(digits_value(digits))
    } else {
        None
    }
}

/// The one-character text of the digit `d`.
fn digit_text(d: usize) -> (s: &'static str)
    requires
        d < 10,
    ensures
        s@ == seq![digit_char(d as nat)],
{
    proof {
        reveal_strlit("0");
        reveal_strlit("1");
        reveal_strlit("2");
        reveal_strlit("3");
        reveal_strlit("4");
        reveal_strlit("5");
        reveal_strlit("6");
        reveal_strlit("7");
        reveal_strlit("8");
        reveal_strlit("9");
    }
    if d == 0 {
        "0"
    } else if d == 1 {
        "1"
    } else if d == 2 {
        "2"
    } else if d == 3 {
        "3"
    } else if d == 4 {
        "4"
    } else if d == 5 {
        "5"
    } else if d == 6 {
        "6"
    } else if d == 7 {
        "7"
    } else if d == 8 {
        "8"
    } else {
        "9"
    }
}

/// Appends the decimal spelling of `n` to `out`.
pub fn push_decimal(out: &mut String, n: usize)
    ensures
        final(out)@ == old(out)@ + decimal_chars(n as nat),
    decreases n,
{
    if n < 10 {
        out.append(digit_text(n));
    } else {
        push_decimal(out, n / 10);
        out.append(digit_text(n % 10));
    }
}

/// The decimal spelling of `n`.
pub fn render_decimal(n: usize) -> (s: String)
    ensures
        s@ == decimal_chars(n as nat),
{
    let mut s = String::new();
    push_decimal(&mut s, n);
    assert(s@ =~= decimal_chars(n as nat));
    s
}


/// Digit strings only grow in value as they grow to the right.
proof fn lemma_digits_value_monotone(t: Seq<char>, j: int, k: int)
    requires
        0 <= j <= k <= t.len(),
    ensures
        digits_value(t.take(j)) <= digits_value(t.take(k)),
    decreases k - j,
{
    if j < k {
        lemma_digits_value_monotone(t, j, k - 1);
        assert(t.take(k).drop_last() =~= t.take(k - 1));
    }
}

/// Parses `s@.skip(start)` as `usize::from_str` does.
pub fn parse_usize_from(s: &str, start: usize) -> (r: Option<usize>)
    requires
        start <= s@.len(),
    ensures
        match r {
            Some(v) => parsed_usize(s@.skip(start as int)) == Some(v as nat),
            None => parsed_usize(s@.skip(start as int)) is None,
        },
{
    let ghost t = s@.skip(start as int);
    let len = s.unicode_len();
    let mut i = start;
    if i < len && s.get_char(i) == '+' {
        i = i + 1;
    }
    let d0 = i;
    let ghost digits = s@.subrange(d0 as int, len as int);
    assert(digits =~= (if t.len() > 0 && t[0] == '+' { t.drop_first() } else { t }));
    if i == len {
        return None;
    }
    let mut acc: usize = 0;
    while i < len
        invariant
            start <= d0 <= i <= len,
            len == s@.len(),
            digits == s@.subrange(d0 as int, len as int),
            t == s@.skip(start as int),
            digits == (if t.len() > 0 && t[0] == '+' { t.drop_first() } else { t }),
            all_decimal_digits(digits.take(i - d0)),
            acc as nat == digits_value(digits.take(i - d0)),
        decreases len - i,
    {
        let c = s.get_char(i);
        assert(digits[i - d0] == c);
        if !('0' <= c && c <= '9') {
            assert(!all_decimal_digits(digits));
            return None;
        }
        let d = (c as u32 - 48) as usize;
        assert(digits.take(i - d0 + 1).drop_last() =~= digits.take(i - d0));
        assert(digits.take(i - d0 + 1).last() == c);
        let next = match acc.checked_mul(10) {
            Some(m) => m.checked_add(d),
            None => None,
        };
        match next {
            Some(v) => {
                acc = v;
            },
            None => {
                proof {
                    lemma_digits_value_monotone(digits, i - d0 + 1, digits.len() as int);
                    assert(digits.take(digits.len() as int) =~= digits);
                }
                return None;
            },
        }
        i = i + 1;
    }
    assert(digits.take(i - d0) =~= digits);
    Some(acc)
}

/// The decimal spelling of any `n` parses back to `n`.
pub proof fn lemma_parse_decimal_chars(n: nat)
    requires
        n <= usize::MAX,
    ensures
        parsed_usize(decimal_chars(n)) == Some(n),
{
    lemma_decimal_chars_digits(n);
}

/// `decimal_chars(n)` is a non-empty digit string worth `n`, not starting with `'+'`.
proof fn lemma_decimal_chars_digits(n: nat)
    ensures
        decimal_chars(n).len() > 0,
        all_decimal_digits(decimal_chars(n)),
        digits_value(decimal_chars(n)) == n,
        decimal_chars(n)[0] != '+',
    decreases n,
{
    if n >= 10 {
        lemma_decimal_chars_digits(n / 10);
        let p = decimal_chars(n / 10);
        assert(decimal_chars(n).drop_last() =~= p);
        assert(digit_value(digit_char(n % 10)) == n % 10);
        assert(decimal_chars(n).last() == digit_char(n % 10));
        assert(digits_value(decimal_chars(n)) == digits_value(p) * 10 + digit_value(digit_char(n % 10)));
    } else {
        assert(digit_value(digit_char(n)) == n);
        assert(decimal_chars(n).drop_last() =~= Seq::<char>::empty());
        assert(digits_value(decimal_chars(n)) == digits_value(Seq::<char>::empty()) * 10 + digit_value(digit_char(n)));
    }
}

/// `decimal_chars(n)` is the shortest decimal spelling of `n`: a non-empty
/// string of digits worth `n` whose first digit is `'0'` only when `n` is 0,
/// which is then spelled `"0"`.
pub proof fn lemma_decimal_chars_shortest(n: nat)
    ensures
        decimal_chars(n).len() > 0,
        all_decimal_digits(decimal_chars(n)),
        digits_value(decimal_chars(n)) == n,
        decimal_chars(n)[0] == '0' <==> n == 0,
        n == 0 ==> decimal_chars(n) == seq!['0'],
    decreases n,
{
    lemma_decimal_chars_digits(n);
    if n >= 10 {
        lemma_decimal_chars_shortest(n / 10);
        assert(decimal_chars(n)[0] == decimal_chars(n / 10)[0]);
    } else {
        assert(digit_char(n) as u32 == n + 48);
        assert('0' as u32 == 48);
    }
}

/// What parsing accepts, for every text: a non-empty run of digits worth at
/// most `usize::MAX`, optionally after one `'+'`, gives its value; the empty
/// text, a lone `'+'`, and any text holding a non-digit after the optional
/// `'+'` give nothing.
pub proof fn lemma_parsed_usize_meaning(d: Seq<char>)
    ensures
        all_decimal_digits(d) && d.len() > 0 && digits_value(d) <= usize::MAX ==> parsed_usize(d)
            == Some(digits_value(d)) && parsed_usize(seq!['+'] + d) == Some(digits_value(d)),
        parsed_usize(Seq::<char>::empty()) is None,
        parsed_usize(seq!['+']) is None,
        (exists|i: int| 0 <= i < d.len() && !is_decimal_digit(#[trigger] d[i])) ==> parsed_usize(
            seq!['+'] + d,
        ) is None,
        (exists|i: int| 1 <= i < d.len() && !is_decimal_digit(#[trigger] d[i])) ==> parsed_usize(d) is None,
        d.len() > 0 && d[0] != '+' && !is_decimal_digit(d[0]) ==> parsed_usize(d) is None,
{
    let p = seq!['+'] + d;
    assert(p.drop_first() =~= d);
    if d.len() > 0 && d[0] == '+' {
        assert(!is_decimal_digit(d[0]));
    }
    if exists|i: int| 1 <= i < d.len() && !is_decimal_digit(#[trigger] d[i]) {
        let i = choose|i: int| 1 <= i < d.len() && !is_decimal_digit(#[trigger] d[i]);
        assert(d.drop_first()[i - 1] == d[i]);
    }
    assert(Seq::<char>::empty().len() == 0);
    assert(seq!['+'].drop_first() =~= Seq::<char>::empty());
}

} // verus!
