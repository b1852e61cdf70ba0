//! Decimal numbers and ASCII text.

use vstd::prelude::*;
use vstd::string::*;
use vstd::utf8::*;

verus! {

/// Whether `c` is one of the ten decimal digits.
pub open spec fn is_digit(c: char) -> bool {
    '0' <= c <= '9'
}

/// The number that the digit `c` stands for.
pub open spec fn digit_value(c: char) -> nat {
    (c as nat - '0' as nat) as nat
}

/// The digit that stands for `d`, for `d` below ten.
pub open spec fn digit_char(d: nat) -> char {
    (d + '0' as nat) as char
}

/// Whether every character of `s` is a decimal digit.
pub open spec fn all_digits(s: Seq<char>) -> bool {
    forall|i: int| 0 <= i < s.len() ==> is_digit(#[trigger] s[i])
}

/// The number written by the digits `s`, most significant first.
pub open spec fn digits_value(s: Seq<char>) -> nat
    decreases s.len(),
{
    if s.len() == 0 {
        0
    } else {
        digits_value(s.drop_last()) * 10 + digit_value(s.last())
    }
}

/// What `s` denotes as a number of at most `max`: one or more digits and
/// nothing else.
pub open spec fn bounded_number(s: Seq<char>, max: u64) -> Option<u64> {
    if s.len() > 0 && all_digits(s) && digits_value(s) <= max {
        Some(digits_value(s) as u64)
    } else {
        None
    }
}

/// Bytes read as text, one character for each byte.
pub open spec fn as_text(bytes: Seq<u8>) -> Seq<char> {
    Seq::new(bytes.len(), |i: int| bytes[i] as char)
}

/// A number never falls when another digit follows it.
pub proof fn lemma_value_of_prefix(s: Seq<char>, k: int)
    requires
        0 <= k <= s.len(),
    ensures
        digits_value(s.take(k)) <= digits_value(s),
    decreases s.len() - k,
{
    if k == s.len() {
        assert(s.take(k) =~= s);
    } else {
        lemma_value_of_prefix(s.drop_last(), k);
        assert(s.drop_last().take(k) =~= s.take(k));
    }
}

/// Reads the digits at `from..to` of `bytes` as a number of at most `max`.
pub(crate) fn parse_digits(bytes: &[u8], from: usize, to: usize, max: u64) -> (r: Option<u64>)
    requires
        from <= to <= bytes@.len(),
    ensures
        r == bounded_number(as_text(bytes@).subrange(from as int, to as int), max),
{
    let ghost text = as_text(bytes@).subrange(from as int, to as int);
    if from == to {
        return None;
    }
    let mut acc: u64 = 0;
    let mut i: usize = from;
    while i < to
        invariant
            from <= i <= to <= bytes@.len(),
            text == as_text(bytes@).subrange(from as int, to as int),
            all_digits(text.take(i - from)),
            acc == digits_value(text.take(i - from)),
            acc <= max,
        decreases to - i,
    {
        let b: u8 = bytes[i];
        assert(text[i - from] == b as char);
        if b < 48 || b > 57 {
            assert(!is_digit(text[i - from]));
            return None;
        }
        let d: u64 = (b - 48) as u64;
        proof {
            assert(text.take(i + 1 - from).drop_last() =~= text.take(i - from));
            assert(text.take(i + 1 - from).last() == text[i - from]);
            assert(digits_value(text.take(i + 1 - from)) == acc * 10 + d);
            lemma_value_of_prefix(text, i + 1 - from);
        }
        if acc > max / 10 {
            return None;
        }
        let shifted: u64 = acc * 10;
        if d > max - shifted {
            return None;
        }
        acc = shifted + d;
        i += 1;
    }
    assert(text.take(to - from) =~= text);
    Some(acc)
}

/// A number as the command line writes it: digits, with or without a `+`
/// before them, that fit in 64 bits.
pub open spec fn number(s: Seq<char>) -> Option<u64> {
    if s.len() > 0 && s[0] == '+' {
        bounded_number(s.subrange(1, s.len() as int), u64::MAX)
    } else {
        bounded_number(s, u64::MAX)
    }
}

/// The digits of `n`, most significant first, without leading zeros.
pub open spec fn decimal(n: nat) -> Seq<char>
    decreases n,
{
    if n < 10 {
        seq![digit_char(n)]
    } else {
        decimal(n / 10).push(digit_char(n % 10))
    }
}

/// A text that `number` accepts holds ASCII only.
pub proof fn lemma_number_is_ascii(s: Seq<char>)
    requires
        number(s) is Some,
    ensures
        is_ascii_chars(s),
{
    if s.len() > 0 && s[0] == '+' {
        let rest = s.subrange(1, s.len() as int);
        assert forall|i: int| 0 <= i < s.len() implies '\0' <= #[trigger] s[i] <= '\u{7f}' by {
            if i > 0 {
                assert(is_digit(rest[i - 1]));
            }
        }
    } else {
        assert forall|i: int| 0 <= i < s.len() implies '\0' <= #[trigger] s[i] <= '\u{7f}' by {
            assert(is_digit(s[i]));
        }
    }
}

/// The bytes of `s` where `s` is ASCII: then each byte is one character.
pub(crate) fn ascii_bytes<'a>(s: &'a str) -> (r: Option<&'a [u8]>)
    ensures
        r is Some <==> is_ascii_chars(s@),
        r matches Some(b) ==> as_text(b@) == s@,
{
    if s.is_ascii() {
        let b = s.as_bytes();
        proof {
            is_ascii_chars_encode_utf8(s@);
            assert(as_text(b@) =~= s@);
        }
        Some(b)
    } else {
        None
    }
}

/// Reads `s` as a number.
pub fn parse_number(s: &str) -> (r: Option<u64>)
    ensures
        r == number(s@),
{
    match ascii_bytes(s) {
        None => {
            proof {
                if number(s@) is Some {
                    lemma_number_is_ascii(s@);
                }
            }
            None
        },
        Some(b) => {
            let from: usize = if b.len() > 0 && b[0] == 43 { 1 } else { 0 };
            assert(b@.len() > 0 ==> s@[0] == b@[0] as char);
            assert(as_text(b@).subrange(0, b@.len() as int) =~= as_text(b@));
            parse_digits(b, from, b.len(), u64::MAX)
        },
    }
}

/// Whether `s` is the ASCII text `word`.
pub(crate) fn text_is(s: &str, word: &str) -> (r: bool)
    requires
        is_ascii_chars(word@),
    ensures
        r == (s@ == word@),
{
    let w = word.as_bytes();
    proof {
        is_ascii_chars_encode_utf8(word@);
        assert(as_text(w@) =~= word@);
    }
    match ascii_bytes(s) {
        None => false,
        Some(b) => {
            if b.len() != w.len() {
                return false;
            }
            let mut i: usize = 0;
            while i < b.len()
                invariant
                    i <= b@.len() == w@.len(),
                    as_text(b@) == s@,
                    as_text(w@) == word@,
                    forall|j: int| 0 <= j < i ==> b@[j] == w@[j],
                decreases b@.len() - i,
            {
                if b[i] != w[i] {
                    assert(s@[i as int] == b@[i as int] as char);
                    assert(word@[i as int] == w@[i as int] as char);
                    return false;
                }
                i += 1;
            }
            assert(b@ =~= w@);
            true
        },
    }
}

fn digit_text(d: u64) -> (t: &'static str)
    requires
        d < 10,
    ensures
        t@ == seq![digit_char(d as nat)],
{
    proof {
        reveal_strlit("0");
        reveal_strlit("1");
        reveal_strlit("2");
        reveal_strlit("3");
        reveal_strlit("4");
        reveal_strlit("5");
        reveal_strlit("6");
        reveal_strlit("7");
        reveal_strlit("8");
        reveal_strlit("9");
    }
    let t = if d == 0 {
        "0"
    } else if d == 1 {
        "1"
    } else if d == 2 {
        "2"
    } else if d == 3 {
        "3"
    } else if d == 4 {
        "4"
    } else if d == 5 {
        "5"
    } else if d == 6 {
        "6"
    } else if d == 7 {
        "7"
    } else if d == 8 {
        "8"
    } else {
        "9"
    };
    assert(t@ =~= seq![digit_char(d as nat)]);
    t
}

/// Writes `n` in decimal at the end of `out`.
pub fn push_decimal(out: &mut String, n: u64)
    ensures
        final(out)@ == old(out)@ + decimal(n as nat),
    decreases n,
{
    if n >= 10 {
        push_decimal(out, n / 10);
    }
    out.append(digit_text(n % 10));
    assert(out@ =~= old(out)@ + decimal(n as nat));
}

/// Reading what `decimal` wrote gives the number back.
pub proof fn lemma_decimal_reads_back(n: nat)
    ensures
        decimal(n).len() > 0,
        all_digits(decimal(n)),
        digits_value(decimal(n)) == n,
        n <= u64::MAX ==> number(decimal(n)) == Some(n as u64),
        n < 10 ==> decimal(n).len() == 1,
        n >= 1 ==> decimal(n)[0] != '0',
    decreases n,
{
    let d = decimal(n);
    if n >= 10 {
        lemma_decimal_reads_back(n / 10);
        assert(d.drop_last() =~= decimal(n / 10));
        assert(d[0] == decimal(n / 10)[0]);
    } else {
        assert(d.drop_last() =~= Seq::<char>::empty());
        assert(digits_value(d.drop_last()) == 0);
    }
    assert(d.last() == digit_char(n % 10));
    assert(digit_value(digit_char(n % 10)) == n % 10);
    assert(is_digit(d[0]));
}

} // verus!
