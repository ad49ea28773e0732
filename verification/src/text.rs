//! Text helpers: decimal and hexadecimal digits, and prefixes.
use vstd::prelude::*;

verus! {

/// The sixteen hexadecimal digits in order.
pub open spec fn digits() -> Seq<char> {
    "0123456789abcdef"@
}

/// The decimal digits of `n`, most significant first.
pub open spec fn decimal(n: nat) -> Seq<char>
    decreases n,
{
    if n < 10 {
        seq![digits()[n as int]]
    } else {
        decimal(n / 10).push(digits()[(n % 10) as int])
    }
}

/// Two hexadecimal digits for each byte.
pub open spec fn hex(bytes: Seq<u8>) -> Seq<char>
    decreases bytes.len(),
{
    if bytes.len() == 0 {
        seq![]
    } else {
        hex(bytes.drop_last()).push(digits()[bytes.last() as int / 16]).push(
            digits()[bytes.last() as int % 16],
        )
    }
}

/// What a hexadecimal digit stands for.
pub open spec fn digit_value(c: char) -> Option<u8> {
    if '0' <= c <= '9' {
        Some((c as int - '0' as int) as u8)
    } else if 'a' <= c <= 'f' {
        Some((c as int - 'a' as int + 10) as u8)
    } else {
        None
    }
}

/// The bytes that pairs of hexadecimal digits stand for.
pub open spec fn hex_value(s: Seq<char>) -> Option<Seq<u8>>
    decreases s.len(),
{
    if s.len() == 0 {
        Some(seq![])
    } else if s.len() == 1 {
        None
    } else {
        match (
            hex_value(s.take(s.len() - 2)),
            digit_value(s[s.len() - 2]),
            digit_value(s[s.len() - 1]),
        ) {
            (Some(front), Some(high), Some(low)) => Some(front.push((high * 16 + low) as u8)),
            _ => None,
        }
    }
}

/// Whether `s` begins with `prefix`.
pub open spec fn starts_with(s: Seq<char>, prefix: Seq<char>) -> bool {
    prefix.len() <= s.len() && s.take(prefix.len() as int) == prefix
}

/// The digit at `i` as text.
fn digit(i: u8) -> (d: &'static str)
    requires
        i < 16,
    ensures
        d@ == seq![digits()[i as int]],
{
    proof {
        reveal_strlit("0123456789abcdef");
    }
    let all: &'static str = "0123456789abcdef";
    let d = all.substring_char(i as usize, i as usize + 1);
    assert(d@ =~= seq![digits()[i as int]]);
    d
}

/// The decimal digits of a port number.
pub fn port_text(port: u16) -> (s: String)
    ensures
        s@ == decimal(port as nat),
    decreases port,
{
    if port < 10 {
        digit(port as u8).to_owned()
    } else {
        let front = port_text(port / 10);
        front.concat(digit((port % 10) as u8))
    }
}

/// Two hexadecimal digits for each byte.
pub fn hex_text(bytes: &[u8]) -> (s: String)
    ensures
        s@ == hex(bytes@),
{
    let mut s = String::new();
    let mut i: usize = 0;
    while i < bytes.len()
        invariant
            i <= bytes.len(),
            s@ == hex(bytes@.take(i as int)),
        decreases bytes.len() - i,
    {
        s.append(digit(bytes[i] / 16));
        s.append(digit(bytes[i] % 16));
        assert(bytes@.take(i + 1).drop_last() =~= bytes@.take(i as int));
        i = i + 1;
    }
    assert(bytes@.take(i as int) =~= bytes@);
    s
}

/// Computes [`digit_value`].
fn digit_of(c: char) -> (v: Option<u8>)
    ensures
        v == digit_value(c),
        v is Some ==> v->0 < 16,
{
    let code: u32 = c as u32;
    if 48 <= code && code <= 57 {
        Some((code - 48) as u8)
    } else if 97 <= code && code <= 102 {
        Some((code - 87) as u8)
    } else {
        None
    }
}

/// The characters of `s`.
fn chars_of(s: &str) -> (v: Vec<char>)
    ensures
        v@ == s@,
{
    let mut v: Vec<char> = Vec::new();
    for c in it: s.chars()
        invariant
            v@ == it.seq().take(it.index() as int),
            it.seq() == s@,
    {
        v.push(c);
        assert(it.seq().take(it.index() + 1) =~= it.seq().take(it.index() as int).push(c));
    }
    assert(v@ =~= s@);
    v
}

/// Digits that stand for nothing spoil the text that they begin.
proof fn lemma_hex_value_none(s: Seq<char>, n: int)
    requires
        0 <= n <= s.len(),
        (s.len() - n) % 2 == 0,
        hex_value(s.take(n)) is None,
    ensures
        hex_value(s) is None,
    decreases s.len(),
{
    if n == s.len() {
        assert(s.take(n) =~= s);
    } else if s.len() > 1 {
        let front = s.take(s.len() - 2);
        assert(front.take(n) =~= s.take(n));
        lemma_hex_value_none(front, n);
    }
}

/// Computes [`hex_value`].
pub fn hex_bytes(s: &str) -> (r: Option<Vec<u8>>)
    ensures
        match r {
            Some(bytes) => hex_value(s@) == Some(bytes@),
            None => hex_value(s@) is None,
        },
{
    let chars = chars_of(s);
    let n: usize = chars.len();
    if n % 2 != 0 {
        proof {
            lemma_hex_value_none(s@, 1);
        }
        return None;
    }
    let mut bytes: Vec<u8> = Vec::new();
    let mut i: usize = 0;
    while i < n
        invariant
            n == s@.len(),
            chars@ == s@,
            n % 2 == 0,
            i % 2 == 0,
            i <= n,
            hex_value(s@.take(i as int)) == Some(bytes@),
        decreases n - i,
    {
        let ghost next = s@.take(i + 2);
        assert(next.take(i as int) =~= s@.take(i as int));
        match (digit_of(chars[i]), digit_of(chars[i + 1])) {
            (Some(high), Some(low)) => {
                bytes.push(high * 16 + low);
            },
            _ => {
                proof {
                    lemma_hex_value_none(s@, i + 2);
                }
                return None;
            },
        }
        i = i + 2;
    }
    assert(s@.take(i as int) =~= s@);
    Some(bytes)
}

/// Reading hexadecimal digits gives back the bytes that were written.
pub proof fn hex_round_trip(bytes: Seq<u8>)
    ensures
        hex_value(hex(bytes)) == Some(bytes),
        hex(bytes).len() == 2 * bytes.len(),
    decreases bytes.len(),
{
    if bytes.len() > 0 {
        let front = bytes.drop_last();
        hex_round_trip(front);
        let s = hex(bytes);
        assert(s.take(s.len() - 2) =~= hex(front));
        reveal_strlit("0123456789abcdef");
        assert(forall|i: int| 0 <= i < 16 ==> digit_value(#[trigger] digits()[i]) == Some(i as u8));
        assert(front.push(bytes.last()) =~= bytes);
    }
}

/// What follows `prefix` in `s`, if `s` begins with it.
pub fn strip_prefix(s: &str, prefix: &str) -> (r: Option<String>)
    ensures
        r is Some <==> starts_with(s@, prefix@),
        r is Some ==> r->0@ == s@.skip(prefix@.len() as int),
{
    let chars = chars_of(s);
    let first = chars_of(prefix);
    let n: usize = first.len();
    if n > chars.len() {
        return None;
    }
    let mut i: usize = 0;
    while i < n
        invariant
            i <= n <= chars.len(),
            n == first.len(),
            chars@ == s@,
            first@ == prefix@,
            forall|j: int| 0 <= j < i ==> s@[j] == prefix@[j],
        decreases n - i,
    {
        if chars[i] != first[i] {
            assert(s@.take(n as int)[i as int] != prefix@[i as int]);
            return None;
        }
        i = i + 1;
    }
    assert(s@.take(n as int) =~= prefix@);
    assert(s@.subrange(n as int, s@.len() as int) =~= s@.skip(n as int));
    Some(s.substring_char(n, chars.len()).to_owned())
}

/// What a text of decimal digits stands for.
pub open spec fn decimal_value(s: Seq<char>) -> int
    decreases s.len(),
{
    if s.len() == 0 {
        0
    } else {
        10 * decimal_value(s.drop_last()) + (s.last() as int - '0' as int)
    }
}

/// The decimal digits of a number read as that number, and there is one way to
/// write it: digits only, and no zero in front.
pub proof fn decimal_reads_back(n: nat)
    ensures
        decimal_value(decimal(n)) == n,
        decimal(n).len() > 0,
        forall|i: int| 0 <= i < decimal(n).len() ==> '0' <= #[trigger] decimal(n)[i] <= '9',
        n > 0 ==> decimal(n)[0] != '0',
        n == 0 ==> decimal(n).len() == 1,
    decreases n,
{
    reveal_strlit("0123456789abcdef");
    assert(forall|i: int| 0 <= i < 10 ==> #[trigger] digits()[i] as int == '0' as int + i);
    if n < 10 {
        let s = decimal(n);
        assert(s.drop_last() =~= seq![]);
        assert(decimal_value(s.drop_last()) == 0);
    } else {
        decimal_reads_back(n / 10);
        let s = decimal(n);
        assert(s.drop_last() =~= decimal(n / 10));
    }
}

/// Two numbers are written alike only if they are the same.
pub proof fn decimals_differ(a: nat, b: nat)
    ensures
        decimal(a) == decimal(b) <==> a == b,
{
    decimal_reads_back(a);
    decimal_reads_back(b);
}

/// Each byte is written as two digits in lower case, the high one first.
pub proof fn hex_digits_are_those_of_the_bytes(bytes: Seq<u8>, i: int)
    requires
        0 <= i < bytes.len(),
    ensures
        hex(bytes).len() == 2 * bytes.len(),
        hex(bytes)[2 * i] as int == if bytes[i] as int / 16 < 10 {
            48 + bytes[i] as int / 16
        } else {
            87 + bytes[i] as int / 16
        },
        hex(bytes)[2 * i + 1] as int == if bytes[i] as int % 16 < 10 {
            48 + bytes[i] as int % 16
        } else {
            87 + bytes[i] as int % 16
        },
    decreases bytes.len(),
{
    hex_round_trip(bytes);
    let front = bytes.drop_last();
    hex_round_trip(front);
    reveal_strlit("0123456789abcdef");
    if i < front.len() {
        hex_digits_are_those_of_the_bytes(front, i);
        assert(front[i] == bytes[i]);
    } else {
        assert(forall|k: int|
            0 <= k < 16 ==> #[trigger] digits()[k] as int == if k < 10 { 48 + k } else { 87 + k });
    }
}

/// Only what was written in that form is read.
pub proof fn only_hex_is_read(s: Seq<char>)
    ensures
        hex_value(s) matches Some(bytes) ==> hex(bytes) == s,
    decreases s.len(),
{
    if s.len() > 1 && hex_value(s) is Some {
        let front = s.take(s.len() - 2);
        only_hex_is_read(front);
        let bytes = hex_value(s)->0;
        let high = digit_value(s[s.len() - 2])->0;
        let low = digit_value(s[s.len() - 1])->0;
        assert(bytes.drop_last() =~= hex_value(front)->0);
        assert(bytes.last() as int / 16 == high && bytes.last() as int % 16 == low);
        reveal_strlit("0123456789abcdef");
        assert(forall|k: int|
            0 <= k < 16 ==> #[trigger] digits()[k] as int == if k < 10 { 48 + k } else { 87 + k });
        assert(digits()[high as int] == s[s.len() - 2]);
        assert(digits()[low as int] == s[s.len() - 1]);
        assert(hex(bytes) =~= s);
    } else if s.len() == 0 {
        assert(hex(seq![]) =~= s);
    }
}

/// A text begins with a prefix exactly where it is the prefix and something more,
/// and what follows the prefix is that something.
pub proof fn prefix_and_rest(s: Seq<char>, prefix: Seq<char>, rest: Seq<char>)
    ensures
        starts_with(prefix + rest, prefix),
        (prefix + rest).skip(prefix.len() as int) == rest,
        starts_with(s, prefix) ==> s == prefix + s.skip(prefix.len() as int),
{
    assert((prefix + rest).take(prefix.len() as int) =~= prefix);
    assert((prefix + rest).skip(prefix.len() as int) =~= rest);
    if starts_with(s, prefix) {
        assert(s =~= s.take(prefix.len() as int) + s.skip(prefix.len() as int));
    }
}

} // verus!
