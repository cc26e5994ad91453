//! Plain text helpers: characters of a string, the segments of a dotted path,
//! decimal integers and truth words.

use vstd::prelude::*;
use vstd::string::{StrSliceExecFns, StringExecFns};
use crate::search::{first_at, lemma_first_at_is};

verus! {

/// The characters of `s`, in order.
pub fn chars_of(s: &str) -> (v: Vec<char>)
    ensures
        v@ == s@,
{
    let mut v: Vec<char> = Vec::new();
    let chars = s.chars();
    for c in it: chars
        invariant
            it.seq() == s@,
            v@ == it.seq().take(it.index()),
    {
        v.push(c);
    }
    v
}

/// Whether `a` and `b` hold the same characters.
pub fn same_text(a: &str, b: &str) -> (r: bool)
    ensures
        r == (a@ == b@),
{
    let x = a.to_owned();
    let y = b.to_owned();
    x == y
}

/// The condition of being the separator of a path's segments, `.`.
pub open spec fn is_dot() -> spec_fn(char) -> bool {
    |c: char| c == '.'
}

/// The position of the first `.` in `s`, or `s.len()` where `s` has none.
pub open spec fn first_dot(s: Seq<char>) -> int {
    first_at(s, is_dot())
}

/// Whether `s` holds a `.` at all.
pub open spec fn has_dot(s: Seq<char>) -> bool {
    0 <= first_dot(s) < s.len()
}

/// The first segment of a dotted path: what stands before its first `.`.
pub open spec fn head(path: Seq<char>) -> Seq<char> {
    path.take(first_dot(path))
}

/// What follows the first `.` of a dotted path that has one.
pub open spec fn rest(path: Seq<char>) -> Seq<char> {
    path.skip(first_dot(path) + 1)
}

/// Splits a dotted path at its first `.`: the first segment, and what follows
/// the `.` where there is one.
pub fn split_path(path: &str) -> (r: (&str, Option<&str>))
    ensures
        r.0@ == head(path@),
        match r.1 {
            Some(t) => has_dot(path@) && t@ == rest(path@),
            None => !has_dot(path@),
        },
{
    let chars = chars_of(path);
    let n: usize = chars.len();
    let mut i: usize = 0;
    while i < n && chars[i] != '.'
        invariant
            n == chars.len(),
            chars@ == path@,
            i <= n,
            forall|j: int| 0 <= j < i ==> chars@[j] != '.',
        decreases n - i,
    {
        i += 1;
    }
    proof {
        lemma_first_at_is(path@, is_dot(), i as int);
    }
    if i < n {
        (path.substring_char(0, i), Some(path.substring_char(i + 1, n)))
    } else {
        assert(path@.take(n as int) =~= path@);
        (path, None)
    }
}

/// The character of a decimal digit.
pub open spec fn digit_char(d: int) -> char {
    (d + 48) as u8 as char
}

/// The decimal digits of a natural number, without leading zeros.
pub open spec fn digits(n: nat) -> Seq<char>
    decreases n,
{
    if n < 10 {
        seq![digit_char(n as int)]
    } else {
        digits(n / 10).push(digit_char((n % 10) as int))
    }
}

/// The decimal text of an integer: its digits, after a `-` where it is
/// negative.
pub open spec fn decimal(n: int) -> Seq<char> {
    if n < 0 {
        seq!['-'] + digits((-n) as nat)
    } else {
        digits(n as nat)
    }
}

/// The text of one decimal digit.
fn digit_text(d: u8) -> (r: &'static str)
    requires
        d < 10,
    ensures
        r@ == seq![digit_char(d as int)],
{
    proof {
        reveal_strlit("0");
        reveal_strlit("1");
        reveal_strlit("2");
        reveal_strlit("3");
        reveal_strlit("4");
        reveal_strlit("5");
        reveal_strlit("6");
        reveal_strlit("7");
        reveal_strlit("8");
        reveal_strlit("9");
    }
    let r = match d {
        0 => "0",
        1 => "1",
        2 => "2",
        3 => "3",
        4 => "4",
        5 => "5",
        6 => "6",
        7 => "7",
        8 => "8",
        _ => "9",
    };
    r
}

/// The decimal text of `n`.
pub fn decimal_text(n: i64) -> (r: String)
    ensures
        r@ == decimal(n as int),
{
    let magnitude: u64 = if n < 0 {
        ((-(n + 1)) as u64) + 1
    } else {
        n as u64
    };
    let mut low: Vec<u8> = Vec::new();
    let mut m: u64 = magnitude;
    let ghost mut tail: Seq<char> = Seq::empty();
    while m >= 10
        invariant
            digits(magnitude as nat) == digits(m as nat) + tail,
            tail.len() == low.len(),
            forall|i: int| 0 <= i < low.len() ==> low@[i] < 10 && tail[low.len() - 1 - i] == digit_char(low@[i] as int),
        decreases m,
    {
        let d: u8 = (m % 10) as u8;
        proof {
            let longer = seq![digit_char(d as int)] + tail;
            assert(digits(m as nat) + tail =~= digits((m / 10) as nat) + longer);
            tail = longer;
        }
        low.push(d);
        m = m / 10;
    }
    let d: u8 = m as u8;
    proof {
        let longer = seq![digit_char(d as int)] + tail;
        assert(digits(m as nat) + tail =~= longer);
        tail = longer;
    }
    low.push(d);
    let mut r = String::new();
    if n < 0 {
        r.append("-");
        proof {
            reveal_strlit("-");
        }
    }
    let ghost sign: Seq<char> = r@;
    assert(sign =~= if n < 0 { seq!['-'] } else { Seq::<char>::empty() });
    let mut i: usize = low.len();
    while i > 0
        invariant
            i <= low.len(),
            tail.len() == low.len(),
            forall|k: int| 0 <= k < low.len() ==> low@[k] < 10 && tail[low.len() - 1 - k] == digit_char(low@[k] as int),
            r@ == sign + tail.take(low.len() - i),
        decreases i,
    {
        i -= 1;
        r.append(digit_text(low[i]));
        assert(r@ =~= sign + tail.take(low.len() - i));
    }
    assert(tail.take(low.len() as int) =~= tail);
    r
}

/// Whether `c` is one of the ten decimal digits.
pub open spec fn is_digit(c: char) -> bool {
    '0' <= c <= '9'
}

/// Whether every character of `s` is a decimal digit.
pub open spec fn all_digits(s: Seq<char>) -> bool {
    forall|i: int| 0 <= i < s.len() ==> is_digit(#[trigger] s[i])
}

/// The number that a sequence of decimal digits denotes.
pub open spec fn digits_value(s: Seq<char>) -> nat
    decreases s.len(),
{
    if s.len() == 0 {
        0
    } else {
        (digits_value(s.drop_last()) * 10 + (s.last() as int - 48)) as nat
    }
}

/// Whether `s` begins with a sign.
pub open spec fn has_sign(s: Seq<char>) -> bool {
    s.len() > 0 && (s[0] == '-' || s[0] == '+')
}

/// The digits of a decimal text: what follows its sign, if it has one.
pub open spec fn unsigned_part(s: Seq<char>) -> Seq<char> {
    if has_sign(s) {
        s.skip(1)
    } else {
        s
    }
}

/// The integer that a decimal text denotes: an optional `+` or `-`, then one
/// or more digits and nothing else, for a number that a 64-bit signed integer
/// holds. Any other text denotes none.
pub open spec fn parse_decimal(s: Seq<char>) -> Option<i64> {
    let body = unsigned_part(s);
    let value = if s.len() > 0 && s[0] == '-' {
        -(digits_value(body) as int)
    } else {
        digits_value(body) as int
    };
    if body.len() > 0 && all_digits(body) && i64::MIN <= value <= i64::MAX {
        Some(value as i64)
    } else {
        None
    }
}

/// A sequence of digits denotes at least what any of its prefixes denotes.
pub proof fn lemma_digits_value_grows(s: Seq<char>, k: int)
    requires
        all_digits(s),
        0 <= k <= s.len(),
    ensures
        digits_value(s.take(k)) <= digits_value(s),
    decreases s.len(),
{
    if k == s.len() {
        assert(s.take(k) =~= s);
    } else {
        let shorter = s.drop_last();
        assert(shorter.take(k) =~= s.take(k));
        assert(is_digit(s.last()));
        assert forall|i: int| 0 <= i < shorter.len() implies is_digit(#[trigger] shorter[i]) by {
            assert(shorter[i] == s[i]);
        }
        lemma_digits_value_grows(shorter, k);
    }
}

/// The digits of a natural number are digits, at least one, and denote it.
pub proof fn lemma_digits(m: nat)
    ensures
        digits(m).len() >= 1,
        all_digits(digits(m)),
        digits_value(digits(m)) == m,
    decreases m,
{
    if m < 10 {
        assert(digits(m).drop_last() =~= Seq::<char>::empty());
        assert(digits_value(Seq::<char>::empty()) == 0);
        assert(digit_char(m as int) as int == m + 48);
    } else {
        lemma_digits(m / 10);
        let shorter = digits(m / 10);
        let all = digits(m);
        assert(all.drop_last() =~= shorter);
        assert(digit_char((m % 10) as int) as int == m % 10 + 48);
        assert forall|i: int| 0 <= i < all.len() implies is_digit(#[trigger] all[i]) by {
            if i < shorter.len() {
                assert(all[i] == shorter[i]);
            }
        }
    }
}

/// Reading the decimal text of a 64-bit integer gives the integer back.
pub proof fn lemma_decimal_round_trip(n: i64)
    ensures
        parse_decimal(decimal(n as int)) == Some(n),
{
    let s = decimal(n as int);
    if n < 0 {
        let m = (-(n as int)) as nat;
        lemma_digits(m);
        assert(s.skip(1) =~= digits(m));
    } else {
        let m = n as nat;
        lemma_digits(m);
        assert(is_digit(digits(m)[0]));
    }
}

/// Reads a decimal integer from `s`.
#[verifier::loop_isolation(false)]
pub fn parse_i64(s: &str) -> (r: Option<i64>)
    ensures
        r == parse_decimal(s@),
{
    let chars = chars_of(s);
    let n: usize = chars.len();
    if n == 0 {
        return None;
    }
    let negative: bool = chars[0] == '-';
    let start: usize = if negative || chars[0] == '+' {
        1
    } else {
        0
    };
    if start == n {
        return None;
    }
    let limit: u64 = if negative {
        0x8000_0000_0000_0000
    } else {
        0x7fff_ffff_ffff_ffff
    };
    let ghost body = unsigned_part(s@);
    assert(body =~= chars@.skip(start as int));
    let mut total: u64 = 0;
    let mut i: usize = start;
    while i < n
        invariant
            n == chars.len(),
            start <= i <= n,
            body == chars@.skip(start as int),
            all_digits(body.take(i - start)),
            total == digits_value(body.take(i - start)),
            total <= limit,
        decreases n - i,
    {
        let c: char = chars[i];
        let ghost before = body.take(i - start);
        let ghost after = body.take(i - start + 1);
        assert(after.drop_last() =~= before);
        assert(after.last() == c);
        if !('0' <= c && c <= '9') {
            assert(!is_digit(body[i - start]));
            return None;
        }
        assert forall|k: int| 0 <= k < after.len() implies is_digit(#[trigger] after[k]) by {
            if k < before.len() {
                assert(after[k] == before[k]);
            }
        }
        let d: u64 = (c as u64) - 48;
        if total > (limit - d) / 10 {
            proof {
                if all_digits(body) {
                    lemma_digits_value_grows(body, i - start + 1);
                }
            }
            return None;
        }
        total = total * 10 + d;
        i += 1;
    }
    assert(body.take(n - start) =~= body);
    if negative {
        if total == 0x8000_0000_0000_0000 {
            Some(i64::MIN)
        } else {
            Some(-(total as i64))
        }
    } else {
        Some(total as i64)
    }
}

/// `c` in lower case where it is one of the letters `A` to `Z`, else `c`.
pub open spec fn lower(c: char) -> char {
    if 'A' <= c <= 'Z' {
        (c as u8 + 32) as u8 as char
    } else {
        c
    }
}

/// `s` with each of the letters `A` to `Z` in lower case.
pub open spec fn lowered(s: Seq<char>) -> Seq<char> {
    Seq::new(s.len(), |i: int| lower(s[i]))
}

/// The truth value that a word denotes, whatever the case of its letters:
/// `true`, `yes`, `t` and `y` are true, `false`, `no`, `f` and `n` are false,
/// and no other text has one.
pub open spec fn truth(s: Seq<char>) -> Option<bool> {
    let w = lowered(s);
    if w == "true"@ || w == "yes"@ || w == "t"@ || w == "y"@ {
        Some(true)
    } else if w == "false"@ || w == "no"@ || w == "f"@ || w == "n"@ {
        Some(false)
    } else {
        None
    }
}

/// `c` in lower case where it is one of the letters `A` to `Z`, else `c`.
fn lower_char(c: char) -> (r: char)
    ensures
        r == lower(c),
{
    if 'A' <= c && c <= 'Z' {
        ((c as u8) + 32) as char
    } else {
        c
    }
}

/// Whether the characters `w` spell `word`.
fn spells(w: &Vec<char>, word: &str) -> (r: bool)
    ensures
        r == (w@ == word@),
{
    let letters = chars_of(word);
    let n: usize = w.len();
    if letters.len() != n {
        return false;
    }
    let mut i: usize = 0;
    while i < n
        invariant
            n == w.len(),
            n == letters.len(),
            letters@ == word@,
            i <= n,
            forall|k: int| 0 <= k < i ==> w@[k] == letters@[k],
        decreases n - i,
    {
        if w[i] != letters[i] {
            return false;
        }
        i += 1;
    }
    assert(w@ =~= letters@);
    true
}

/// Reads a truth word from `s`.
pub fn parse_bool(s: &str) -> (r: Option<bool>)
    ensures
        r == truth(s@),
{
    let chars = chars_of(s);
    let n: usize = chars.len();
    let mut w: Vec<char> = Vec::new();
    let mut i: usize = 0;
    while i < n
        invariant
            n == chars.len(),
            i <= n,
            w.len() == i,
            forall|k: int| 0 <= k < i ==> w@[k] == lower(chars@[k]),
        decreases n - i,
    {
        w.push(lower_char(chars[i]));
        i += 1;
    }
    assert(w@ =~= lowered(s@));
    if spells(&w, "true") || spells(&w, "yes") || spells(&w, "t") || spells(&w, "y") {
        Some(true)
    } else if spells(&w, "false") || spells(&w, "no") || spells(&w, "f") || spells(&w, "n") {
        Some(false)
    } else {
        None
    }
}

} // verus!
