//! Text helpers: characters of a string, decimal rendering and parsing.

use vstd::prelude::*;
use vstd::string::*;

verus! {

/// The character that stands for the decimal digit `d`.
pub open spec fn digit_char(d: int) -> char
    recommends
        0 <= d <= 9,
{
    ((48 + d) as u8) as char
}

/// Whether `c` is one of `'0'..='9'`.
pub open spec fn is_digit(c: char) -> bool {
    48 <= c as u32 <= 57
}

/// The value of the decimal digit `c`.
pub open spec fn digit_value(c: char) -> nat
    recommends
        is_digit(c),
{
    (c as u32 - 48) as nat
}

/// Whether every character of `s` is a decimal digit.
pub open spec fn all_digits(s: Seq<char>) -> bool {
    forall|i: int| 0 <= i < s.len() ==> is_digit(#[trigger] s[i])
}

/// The shortest decimal rendering of `n`: no sign, no leading zero.
pub open spec fn decimal_chars(n: nat) -> Seq<char>
    decreases n,
{
    if n < 10 {
        seq![digit_char(n as int)]
    } else {
        decimal_chars(n / 10).push(digit_char((n % 10) as int))
    }
}

/// The number that a sequence of decimal digits denotes, most significant digit first.
pub open spec fn decimal_value(s: Seq<char>) -> nat
    decreases s.len(),
{
    if s.len() == 0 {
        0
    } else {
        decimal_value(s.drop_last()) * 10 + digit_value(s.last())
    }
}

/// The digits of an unsigned decimal text: the text itself, or what follows one leading `'+'`.
pub open spec fn unsigned_digits(text: Seq<char>) -> Seq<char> {
    if text.len() > 0 && text[0] == '+' {
        text.drop_first()
    } else {
        text
    }
}

/// What `text` denotes as an unsigned decimal number no greater than `max`:
/// an optional `'+'`, then one or more digits (leading zeros allowed).
pub open spec fn parse_unsigned(text: Seq<char>, max: nat) -> Option<nat> {
    let digits = unsigned_digits(text);
    if digits.len() > 0 && all_digits(digits) && decimal_value(digits) <= max {
        Some(decimal_value(digits))
    } else {
        None
    }
}

/// The position of the first `'/'` in `s` at or after `from`, or `s.len()` if there is none.
pub open spec fn first_slash(s: Seq<char>, from: int) -> int
    decreases s.len() - from,
{
    if from >= s.len() {
        s.len() as int
    } else if s[from] == '/' {
        from
    } else {
        first_slash(s, from + 1)
    }
}

/// The value of a digit sequence never shrinks when digits are appended.
pub proof fn lemma_decimal_value_prefix(s: Seq<char>, k: int)
    requires
        0 <= k <= s.len(),
    ensures
        decimal_value(s.take(k)) <= decimal_value(s),
    decreases s.len() - k,
{
    if k == s.len() {
        assert(s.take(k) =~= s);
    } else {
        lemma_decimal_value_prefix(s.drop_last(), k);
        assert(s.drop_last().take(k) =~= s.take(k));
    }
}

/// A rendering consists of digits only, is not empty, and denotes the number it was made from.
pub proof fn lemma_decimal_chars_value(n: nat)
    ensures
        decimal_chars(n).len() > 0,
        all_digits(decimal_chars(n)),
        decimal_value(decimal_chars(n)) == n,
        decimal_chars(n)[0] != '+',
        !decimal_chars(n).contains('/'),
    decreases n,
{
    if n < 10 {
        let s = decimal_chars(n);
        assert(s.drop_last() =~= Seq::<char>::empty());
        assert(decimal_value(s.drop_last()) == 0);
    } else {
        lemma_decimal_chars_value(n / 10);
        let p = decimal_chars(n / 10);
        let d = digit_char((n % 10) as int);
        let s = p.push(d);
        assert(s.drop_last() =~= p);
        assert(s.last() == d);
        assert forall|i: int| 0 <= i < s.len() implies is_digit(#[trigger] s[i]) by {
            if i < p.len() {
                assert(s[i] == p[i]);
            }
        }
        assert forall|i: int| 0 <= i < s.len() implies s[i] != '/' by {
            if i < p.len() {
                assert(s[i] == p[i]);
                assert(p.contains(p[i]));
            }
        }
    }
}

/// Rendering a number and reading it back gives the number, whenever it is within `max`.
pub proof fn lemma_parse_rendered(n: nat, max: nat)
    requires
        n <= max,
    ensures
        parse_unsigned(decimal_chars(n), max) == Some(n),
{
    lemma_decimal_chars_value(n);
}

/// The characters of `s`, in order.
pub fn chars_of(s: &str) -> (chars: Vec<char>)
    ensures
        chars@ == s@,
{
    let mut chars: Vec<char> = Vec::new();
    for c in it: s.chars()
        invariant
            chars@ == it.seq().take(it.index() as int),
            it.seq() == s@,
    {
        chars.push(c);
    }
    chars
}

/// The one-character text of a decimal digit.
fn digit_str(d: u8) -> (s: &'static str)
    requires
        d < 10,
    ensures
        s@ == seq![digit_char(d as int)],
{
    proof {
        reveal_strlit("0");
        reveal_strlit("1");
        reveal_strlit("2");
        reveal_strlit("3");
        reveal_strlit("4");
        reveal_strlit("5");
        reveal_strlit("6");
        reveal_strlit("7");
        reveal_strlit("8");
        reveal_strlit("9");
    }
    let s = if d == 0 {
        "0"
    } else if d == 1 {
        "1"
    } else if d == 2 {
        "2"
    } else if d == 3 {
        "3"
    } else if d == 4 {
        "4"
    } else if d == 5 {
        "5"
    } else if d == 6 {
        "6"
    } else if d == 7 {
        "7"
    } else if d == 8 {
        "8"
    } else {
        "9"
    };
    assert(s@ =~= seq![digit_char(d as int)]);
    s
}

/// Renders `n` in decimal.
pub fn decimal_string(n: u64) -> (s: String)
    ensures
        s@ == decimal_chars(n as nat),
    decreases n,
{
    if n < 10 {
        String::from_str(digit_str(n as u8))
    } else {
        let mut s = decimal_string(n / 10);
        s.append(digit_str((n % 10) as u8));
        assert(s@ =~= decimal_chars((n / 10) as nat).push(digit_char((n % 10) as int)));
        s
    }
}

/// Finds the first `'/'` in `chars` at or after `from`.
pub fn find_slash(chars: &Vec<char>, from: usize) -> (at: usize)
    requires
        from <= chars.len(),
    ensures
        at == first_slash(chars@, from as int),
        from <= at <= chars.len(),
        at < chars.len() ==> chars@[at as int] == '/',
        forall|i: int| from <= i < at ==> chars@[i] != '/',
{
    let mut at: usize = from;
    while at < chars.len() && chars[at] != '/'
        invariant
            from <= at <= chars.len(),
            first_slash(chars@, from as int) == first_slash(chars@, at as int),
            forall|i: int| from <= i < at ==> chars@[i] != '/',
        decreases chars.len() - at,
    {
        at = at + 1;
    }
    at
}

/// Whether `pattern` stands in `chars` at position `from`.
pub fn matches_at(chars: &Vec<char>, from: usize, pattern: &Vec<char>) -> (found: bool)
    requires
        from <= chars.len(),
    ensures
        found == pattern@.is_prefix_of(chars@.skip(from as int)),
{
    if pattern.len() > chars.len() - from {
        return false;
    }
    let mut i: usize = 0;
    while i < pattern.len()
        invariant
            from <= chars.len(),
            pattern.len() <= chars.len() - from,
            i <= pattern.len(),
            forall|j: int| 0 <= j < i ==> pattern@[j] == chars@[from + j],
        decreases pattern.len() - i,
    {
        if pattern[i] != chars[from + i] {
            proof {
                let rest = chars@.skip(from as int);
                assert(rest[i as int] == chars@[from + i]);
                if pattern@.is_prefix_of(rest) {
                    assert(pattern@ == rest.subrange(0, pattern@.len() as int));
                    assert(pattern@[i as int] == rest[i as int]);
                }
            }
            return false;
        }
        i = i + 1;
    }
    proof {
        let rest = chars@.skip(from as int);
        assert(pattern@ =~= rest.subrange(0, pattern@.len() as int));
    }
    true
}

/// Reads `chars[from..to]` as an unsigned decimal number no greater than `max`.
pub fn parse_unsigned_range(chars: &Vec<char>, from: usize, to: usize, max: u64) -> (value: Option<u64>)
    requires
        from <= to <= chars.len(),
    ensures
        value matches Some(v) ==> parse_unsigned(
            chars@.subrange(from as int, to as int),
            max as nat,
        ) == Some(v as nat),
        value is None ==> parse_unsigned(chars@.subrange(from as int, to as int), max as nat) is None,
{
    let ghost text = chars@.subrange(from as int, to as int);
    let mut start: usize = from;
    if from < to && chars[from] == '+' {
        start = from + 1;
    }
    let ghost digits = unsigned_digits(text);
    assert(digits =~= chars@.subrange(start as int, to as int));
    if start == to {
        return None;
    }
    let mut acc: u64 = 0;
    let mut i: usize = start;
    while i < to
        invariant
            from <= start <= i <= to <= chars.len(),
            digits == chars@.subrange(start as int, to as int),
            digits == unsigned_digits(chars@.subrange(from as int, to as int)),
            all_digits(digits.take(i - start)),
            acc == decimal_value(digits.take(i - start)),
            acc <= max,
        decreases to - i,
    {
        let c = chars[i];
        let code = c as u32;
        if code < 48 || code > 57 {
            proof {
                assert(digits[i - start] == c);
                assert(!is_digit(digits[i - start]));
            }
            return None;
        }
        let d: u64 = (code - 48) as u64;
        let ghost before = digits.take(i - start);
        let ghost after = digits.take(i - start + 1);
        proof {
            assert(after.drop_last() =~= before);
            assert(after.last() == c);
            assert forall|j: int| 0 <= j < after.len() implies is_digit(#[trigger] after[j]) by {
                if j < before.len() {
                    assert(after[j] == before[j]);
                }
            }
        }
        let next: u128 = acc as u128 * 10 + d as u128;
        if next > max as u128 {
            proof {
                lemma_decimal_value_prefix(digits, i - start + 1);
            }
            return None;
        }
        acc = next as u64;
        i = i + 1;
    }
    proof {
        assert(digits.take(i - start) =~= digits);
    }
    Some(acc)
}

} // verus!
