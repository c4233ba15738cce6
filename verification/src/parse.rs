//! Trimming of raw input lines and decimal parsing of the numeric fields.
//!
//! A field arrives as one raw line of text, line terminator included. Before
//! a number is read from it the line is trimmed; an unsigned field then
//! accepts an optional leading `+` followed by one or more decimal digits,
//! and is rejected when its value does not fit the field's width.

use vstd::prelude::*;

verus! {

/// Whitespace as the trimming understands it: the ASCII space, tab, line
/// feed, carriage return and form feed characters.
pub open spec fn is_space(c: char) -> bool {
    c == ' ' || c == '\t' || c == '\n' || c == '\r' || c == '\u{0c}'
}

/// The text with its leading whitespace removed.
pub open spec fn trim_front(s: Seq<char>) -> Seq<char>
    decreases s.len(),
{
    if s.len() > 0 && is_space(s[0]) {
        trim_front(s.drop_first())
    } else {
        s
    }
}

/// The text with its trailing whitespace removed.
pub open spec fn trim_back(s: Seq<char>) -> Seq<char>
    decreases s.len(),
{
    if s.len() > 0 && is_space(s.last()) {
        trim_back(s.drop_last())
    } else {
        s
    }
}

/// The text with leading and trailing whitespace removed.
pub open spec fn trimmed(s: Seq<char>) -> Seq<char> {
    trim_back(trim_front(s))
}

/// An ASCII decimal digit.
pub open spec fn is_digit(c: char) -> bool {
    '0' as u32 <= c as u32 && c as u32 <= '9' as u32
}

/// The numeric value of a digit; zero for any other character.
pub open spec fn digit_value(c: char) -> nat {
    if is_digit(c) {
        (c as u32 - '0' as u32) as nat
    } else {
        0
    }
}

/// Every character of the text is a decimal digit.
pub open spec fn is_digit_seq(s: Seq<char>) -> bool {
    forall|i: int| 0 <= i < s.len() ==> is_digit(s[i])
}

/// The value of a digit string read as a base-ten numeral.
pub open spec fn dec_value(s: Seq<char>) -> nat
    decreases s.len(),
{
    if s.len() == 0 {
        0
    } else {
        dec_value(s.drop_last()) * 10 + digit_value(s.last())
    }
}

/// The text without its sign: what is left after an optional leading `+`.
pub open spec fn unsigned_part(s: Seq<char>) -> Seq<char> {
    if s.len() > 0 && s[0] == '+' {
        s.drop_first()
    } else {
        s
    }
}

/// The text is a numeral denoting a value that fits in a `u32`: an optional
/// leading `+`, then one or more decimal digits, with value at most
/// `u32::MAX`.
pub open spec fn is_u32_numeral(s: Seq<char>) -> bool {
    &&& unsigned_part(s).len() > 0
    &&& is_digit_seq(unsigned_part(s))
    &&& dec_value(unsigned_part(s)) <= u32::MAX
}

/// The value such a numeral denotes.
pub open spec fn u32_numeral_value(s: Seq<char>) -> nat {
    dec_value(unsigned_part(s))
}

/// Whether `c` is whitespace in the sense of [`is_space`].
fn is_space_char(c: char) -> (r: bool)
    ensures
        r == is_space(c),
{
    c == ' ' || c == '\t' || c == '\n' || c == '\r' || c == '\u{0c}'
}

/// If everything before position `a` is whitespace and `a` is the end or a
/// non-whitespace position, trimming the front keeps exactly the tail from
/// `a` on.
proof fn lemma_trim_front_at(s: Seq<char>, a: int)
    requires
        0 <= a <= s.len(),
        forall|i: int| 0 <= i < a ==> is_space(s[i]),
        a == s.len() || !is_space(s[a]),
    ensures
        trim_front(s) == s.subrange(a, s.len() as int),
    decreases a,
{
    if a == 0 {
        assert(s.subrange(0, s.len() as int) =~= s);
    } else {
        assert(is_space(s[0]));
        assert(forall|i: int| 0 <= i < a - 1 ==> is_space(#[trigger] s.drop_first()[i]));
        lemma_trim_front_at(s.drop_first(), a - 1);
        assert(s.drop_first().subrange(a - 1, s.drop_first().len() as int) =~= s.subrange(
            a,
            s.len() as int,
        ));
    }
}

/// If everything from position `b` on is whitespace and `b` is the start or
/// follows a non-whitespace position, trimming the back keeps exactly the
/// head up to `b`.
proof fn lemma_trim_back_at(s: Seq<char>, b: int)
    requires
        0 <= b <= s.len(),
        forall|i: int| b <= i < s.len() ==> is_space(s[i]),
        b == 0 || !is_space(s[b - 1]),
    ensures
        trim_back(s) == s.subrange(0, b),
    decreases s.len() - b,
{
    if b == s.len() {
        assert(s.subrange(0, b) =~= s);
    } else {
        assert(is_space(s.last()));
        assert(forall|i: int| b <= i < s.len() - 1 ==> is_space(#[trigger] s.drop_last()[i]));
        lemma_trim_back_at(s.drop_last(), b);
        assert(s.drop_last().subrange(0, b) =~= s.subrange(0, b));
    }
}

/// Strips leading and trailing whitespace, as a downstream consumer of a raw
/// input line must before reading a number or a name from it.
pub fn trim(s: &str) -> (r: &str)
    ensures
        r@ == trimmed(s@),
{
    let n = s.unicode_len();
    let mut a: usize = 0;
    while a < n && is_space_char(s.get_char(a))
        invariant
            n == s@.len(),
            a <= n,
            forall|i: int| 0 <= i < a ==> is_space(s@[i]),
        decreases n - a,
    {
        a = a + 1;
    }
    let mut b: usize = n;
    while b > a && is_space_char(s.get_char(b - 1))
        invariant
            n == s@.len(),
            a <= b <= n,
            forall|i: int| b <= i < n ==> is_space(s@[i]),
        decreases b,
    {
        b = b - 1;
    }
    proof {
        lemma_trim_front_at(s@, a as int);
        let t = s@.subrange(a as int, n as int);
        assert(forall|i: int| b - a <= i < t.len() ==> is_space(#[trigger] t[i]));
        lemma_trim_back_at(t, b - a);
        assert(t.subrange(0, b - a) =~= s@.subrange(a as int, b as int));
    }
    s.substring_char(a, b)
}

/// The value of a digit string is at least the value of any of its prefixes.
proof fn lemma_dec_value_prefix_le(s: Seq<char>, i: int)
    requires
        0 <= i <= s.len(),
    ensures
        dec_value(s.subrange(0, i)) <= dec_value(s),
    decreases s.len() - i,
{
    if i == s.len() {
        assert(s.subrange(0, i) =~= s);
    } else {
        assert(s.subrange(0, i + 1).drop_last() =~= s.subrange(0, i));
        lemma_dec_value_prefix_le(s, i + 1);
    }
}

/// Reads a string of decimal digits as a `u32`. Returns the denoted value
/// exactly when the text is nonempty, all digits, and the value fits;
/// returns nothing otherwise.
pub fn parse_digits(s: &str) -> (r: Option<u32>)
    ensures
        r is Some <==> s@.len() > 0 && is_digit_seq(s@) && dec_value(s@) <= u32::MAX,
        r matches Some(v) ==> v as nat == dec_value(s@),
{
    let n = s.unicode_len();
    if n == 0 {
        return None;
    }
    let mut i: usize = 0;
    let mut acc: u64 = 0;
    while i < n
        invariant
            n == s@.len(),
            i <= n,
            forall|j: int| 0 <= j < i ==> is_digit(s@[j]),
            acc as nat == dec_value(s@.subrange(0, i as int)),
            acc <= u32::MAX,
        decreases n - i,
    {
        let c = s.get_char(i);
        let u = c as u32;
        if u < '0' as u32 || u > '9' as u32 {
            return None;
        }
        let d = (u - '0' as u32) as u64;
        let next: u64 = acc * 10 + d;
        proof {
            assert(s@.subrange(0, i as int + 1).drop_last() =~= s@.subrange(0, i as int));
            assert(s@.subrange(0, i as int + 1).last() == s@[i as int]);
        }
        if next > u32::MAX as u64 {
            proof {
                lemma_dec_value_prefix_le(s@, i as int + 1);
            }
            return None;
        }
        acc = next;
        i = i + 1;
    }
    proof {
        assert(s@.subrange(0, n as int) =~= s@);
    }
    Some(acc as u32)
}

/// Reads an unsigned numeral, an optional leading `+` included, as a `u32`.
pub fn parse_u32(s: &str) -> (r: Option<u32>)
    ensures
        r is Some <==> is_u32_numeral(s@),
        r matches Some(v) ==> v as nat == u32_numeral_value(s@),
{
    let n = s.unicode_len();
    if n > 0 && s.get_char(0) == '+' {
        let rest = s.substring_char(1, n);
        proof {
            assert(rest@ =~= unsigned_part(s@));
        }
        parse_digits(rest)
    } else {
        parse_digits(s)
    }
}

/// Reads the age field from a raw input line: the line is trimmed, then
/// parsed as an unsigned numeral. Exactly the lines whose trimmed text is a
/// numeral fitting a `u32` yield a value, and the value is the one the text
/// denotes.
pub fn parse_age(s: &str) -> (r: Option<u32>)
    ensures
        r is Some <==> is_u32_numeral(trimmed(s@)),
        r matches Some(v) ==> v as nat == u32_numeral_value(trimmed(s@)),
{
    let t = trim(s);
    parse_u32(t)
}

} // verus!
