//! Small text utilities: decimal and hexadecimal rendering, decimal parsing
//! and the `Debug` forms of optional integers and integer lists.

use vstd::prelude::*;
use vstd::string::StringSliceAdditionalSpecFns;

verus! {

/// The character of decimal digit `d` (`0 <= d < 10`).
pub open spec fn digit_char(d: nat) -> char {
    (48 + d) as char
}

/// Decimal rendering of a natural number, most significant digit first,
/// without leading zeros (zero is rendered as `"0"`).
pub open spec fn decimal(n: nat) -> Seq<char>
    decreases n,
{
    if n < 10 {
        seq![digit_char(n)]
    } else {
        decimal(n / 10).push(digit_char(n % 10))
    }
}

/// Decimal rendering of a signed integer: a leading `-` for negatives.
pub open spec fn signed_decimal(n: int) -> Seq<char> {
    if n < 0 {
        seq!['-'] + decimal((-n) as nat)
    } else {
        decimal(n as nat)
    }
}

fn digit_str(d: u64) -> (s: &'static str)
    requires
        d < 10,
    ensures
        s@ == seq![digit_char(d as nat)],
{
    proof {
        reveal_strlit("0");
        reveal_strlit("1");
        reveal_strlit("2");
        reveal_strlit("3");
        reveal_strlit("4");
        reveal_strlit("5");
        reveal_strlit("6");
        reveal_strlit("7");
        reveal_strlit("8");
        reveal_strlit("9");
    }
    match d {
        0 => "0",
        1 => "1",
        2 => "2",
        3 => "3",
        4 => "4",
        5 => "5",
        6 => "6",
        7 => "7",
        8 => "8",
        _ => "9",
    }
}

/// Renders `n` in decimal.
pub fn u64_to_decimal(n: u64) -> (s: String)
    ensures
        s@ == decimal(n as nat),
    decreases n,
{
    if n < 10 {
        String::from_str(digit_str(n))
    } else {
        let mut s = u64_to_decimal(n / 10);
        s.append(digit_str(n % 10));
        s
    }
}


/// Renders `n` in decimal with a leading `-` when negative.
pub fn i64_to_decimal(n: i64) -> (s: String)
    ensures
        s@ == signed_decimal(n as int),
{
    if n < 0 {
        let m: u64 = (0i128 - n as i128) as u64;
        let mut s = String::from_str("-");
        proof {
            reveal_strlit("-");
        }
        let digits = u64_to_decimal(m);
        s.append(digits.as_str());
        s
    } else {
        u64_to_decimal(n as u64)
    }
}

/// Lower-case hexadecimal digit for `d < 16`.
pub open spec fn hex_char(d: nat) -> char {
    if d < 10 {
        (48 + d) as char
    } else {
        (87 + d) as char
    }
}

/// Lower-case hexadecimal rendering, two characters per byte.
pub open spec fn hex(bytes: Seq<u8>) -> Seq<char>
    decreases bytes.len(),
{
    if bytes.len() == 0 {
        Seq::empty()
    } else {
        hex(bytes.drop_last()) + seq![
            hex_char((bytes.last() / 16) as nat),
            hex_char((bytes.last() % 16) as nat),
        ]
    }
}

fn hex_digit_str(d: u8) -> (s: &'static str)
    requires
        d < 16,
    ensures
        s@ == seq![hex_char(d as nat)],
{
    proof {
        reveal_strlit("0");
        reveal_strlit("1");
        reveal_strlit("2");
        reveal_strlit("3");
        reveal_strlit("4");
        reveal_strlit("5");
        reveal_strlit("6");
        reveal_strlit("7");
        reveal_strlit("8");
        reveal_strlit("9");
        reveal_strlit("a");
        reveal_strlit("b");
        reveal_strlit("c");
        reveal_strlit("d");
        reveal_strlit("e");
        reveal_strlit("f");
    }
    match d {
        0 => "0",
        1 => "1",
        2 => "2",
        3 => "3",
        4 => "4",
        5 => "5",
        6 => "6",
        7 => "7",
        8 => "8",
        9 => "9",
        10 => "a",
        11 => "b",
        12 => "c",
        13 => "d",
        14 => "e",
        _ => "f",
    }
}

/// Lower-case hexadecimal rendering of `bytes` (two characters per byte).
pub fn hex_lower(bytes: &[u8]) -> (s: String)
    ensures
        s@ == hex(bytes@),
{
    let mut s = String::new();
    let mut i: usize = 0;
    while i < bytes.len()
        invariant
            i <= bytes@.len(),
            s@ == hex(bytes@.subrange(0, i as int)),
        decreases bytes@.len() - i,
    {
        let b = bytes[i];
        s.append(hex_digit_str(b / 16));
        s.append(hex_digit_str(b % 16));
        proof {
            let pre = bytes@.subrange(0, i as int);
            let next = bytes@.subrange(0, i as int + 1);
            assert(next.drop_last() =~= pre);
            assert(next.last() == b);
        }
        i = i + 1;
    }
    proof {
        assert(bytes@.subrange(0, bytes@.len() as int) =~= bytes@);
    }
    s
}

/// Whether `b` is the ASCII code of a decimal digit.
pub open spec fn is_digit_byte(b: u8) -> bool {
    48 <= b <= 57
}

/// The value of a run of decimal digit bytes, most significant first.
pub open spec fn digits_value(s: Seq<u8>) -> nat
    decreases s.len(),
{
    if s.len() == 0 {
        0
    } else {
        digits_value(s.drop_last()) * 10 + (s.last() - 48) as nat
    }
}

/// The bytes after an optional leading `+`.
pub open spec fn strip_plus(b: Seq<u8>) -> Seq<u8> {
    if b.len() > 0 && b[0] == 43 {
        b.drop_first()
    } else {
        b
    }
}

/// Every byte of `s` is an ASCII decimal digit.
pub open spec fn all_digits(s: Seq<u8>) -> bool {
    forall|i: int| 0 <= i < s.len() ==> is_digit_byte(#[trigger] s[i])
}

/// What `str::parse::<u64>` accepts: an optional leading `+`, then one or
/// more ASCII digits whose value fits in 64 bits.
pub open spec fn parse_u64_spec(b: Seq<u8>) -> Option<u64> {
    let digits = strip_plus(b);
    if digits.len() == 0 || !all_digits(digits) || digits_value(digits) > u64::MAX {
        None
    } else {
        Some(digits_value(digits) as u64)
    }
}

proof fn lemma_digits_value_prefix_le(s: Seq<u8>, i: int)
    requires
        0 <= i <= s.len(),
        forall|k: int| 0 <= k < s.len() ==> is_digit_byte(#[trigger] s[k]),
    ensures
        digits_value(s.subrange(0, i)) <= digits_value(s),
    decreases s.len() - i,
{
    if i < s.len() {
        lemma_digits_value_prefix_le(s, i + 1);
        let next = s.subrange(0, i + 1);
        assert(next.drop_last() =~= s.subrange(0, i));
    } else {
        assert(s.subrange(0, i) =~= s);
    }
}

/// Parses the bytes of a string the way `str::parse::<u64>` does.
pub fn parse_u64(s: &str) -> (r: Option<u64>)
    ensures
        r == parse_u64_spec(s.spec_bytes()),
{
    parse_u64_bytes(s.as_bytes())
}

/// Parses bytes the way `str::parse::<u64>` parses the string they encode.
pub fn parse_u64_bytes(b: &[u8]) -> (r: Option<u64>)
    ensures
        r == parse_u64_spec(b@),
{
    let n = b.len();
    let start: usize = if n > 0 && b[0] == 43 {
        1
    } else {
        0
    };
    let ghost digits = strip_plus(b@);
    proof {
        assert(digits =~= b@.subrange(start as int, n as int));
    }
    if start == n {
        return None;
    }
    let mut acc: u64 = 0;
    let mut i: usize = start;
    while i < n
        invariant
            start <= i <= n,
            n == b@.len(),
            digits == b@.subrange(start as int, n as int),
            digits == strip_plus(b@),
            forall|k: int| 0 <= k < i - start ==> is_digit_byte(#[trigger] digits[k]),
            acc as nat == digits_value(digits.subrange(0, i - start)),
        decreases n - i,
    {
        let c = b[i];
        if c < 48 || c > 57 {
            proof {
                assert(!is_digit_byte(digits[i - start]));
                assert(!all_digits(digits));
            }
            return None;
        }
        let next: u128 = acc as u128 * 10 + (c - 48) as u128;
        proof {
            let pre = digits.subrange(0, i - start);
            let nx = digits.subrange(0, i - start + 1);
            assert(nx.drop_last() =~= pre);
            assert(nx.last() == c);
            assert(next as nat == digits_value(nx));
        }
        if next > u64::MAX as u128 {
            proof {
                if all_digits(digits) {
                    lemma_digits_value_prefix_le(digits, i - start + 1);
                    assert(digits_value(digits) > u64::MAX);
                }
            }
            return None;
        }
        acc = next as u64;
        i = i + 1;
    }
    proof {
        assert(digits.subrange(0, digits.len() as int) =~= digits);
    }
    Some(acc)
}

/// Appends the decimal rendering of `n` to `s`.
pub fn push_decimal(s: &mut String, n: u64)
    ensures
        final(s)@ == old(s)@ + decimal(n as nat),
{
    let d = u64_to_decimal(n);
    s.append(d.as_str());
}

/// `Debug` rendering of an optional integer: `Some(<n>)` or `None`.
pub open spec fn debug_opt_u64(o: Option<u64>) -> Seq<char> {
    match o {
        Some(n) => "Some("@ + decimal(n as nat) + ")"@,
        None => "None"@,
    }
}

/// Renders an optional integer as `Debug` does.
pub fn opt_u64_debug(o: Option<u64>) -> (s: String)
    ensures
        s@ == debug_opt_u64(o),
{
    match o {
        Some(n) => {
            let mut s = String::from_str("Some(");
            push_decimal(&mut s, n);
            s.append(")");
            s
        },
        None => String::from_str("None"),
    }
}

/// The items of a list rendered in decimal and joined by `, `.
pub open spec fn joined_decimals(v: Seq<u64>) -> Seq<char>
    decreases v.len(),
{
    if v.len() == 0 {
        Seq::empty()
    } else if v.len() == 1 {
        decimal(v[0] as nat)
    } else {
        joined_decimals(v.drop_last()) + ", "@ + decimal(v.last() as nat)
    }
}

/// `Debug` rendering of a list of integers: `[a, b, c]`.
pub open spec fn debug_u64_list(v: Seq<u64>) -> Seq<char> {
    "["@ + joined_decimals(v) + "]"@
}

/// Renders a list of integers as `Debug` does.
pub fn u64_list_debug(v: &[u64]) -> (s: String)
    ensures
        s@ == debug_u64_list(v@),
{
    let mut body = String::new();
    let mut i: usize = 0;
    while i < v.len()
        invariant
            i <= v@.len(),
            body@ == joined_decimals(v@.subrange(0, i as int)),
        decreases v@.len() - i,
    {
        proof {
            let nx = v@.subrange(0, i as int + 1);
            assert(nx.drop_last() =~= v@.subrange(0, i as int));
            assert(nx.last() == v@[i as int]);
        }
        if i > 0 {
            body.append(", ");
        }
        push_decimal(&mut body, v[i]);
        proof {
            if i == 0 {
                assert(body@ =~= decimal(v@[0] as nat));
            }
        }
        i = i + 1;
    }
    proof {
        assert(v@.subrange(0, v@.len() as int) =~= v@);
    }
    let mut s = String::from_str("[");
    s.append(body.as_str());
    s.append("]");
    s
}

} // verus!
