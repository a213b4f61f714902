//! The wire form of a counter command: JSON text for the record
//! `{"idem": <u64>, "delta": <i64>}`.
//!
//! The reader is strict JSON. A command is either an object or a two-element
//! array `[idem, delta]`. In the object form each field must occur exactly
//! once; other members are allowed (any JSON value, skipped) and may repeat.
//! Field values are integer literals in range: `idem` a non-negative `u64`,
//! `delta` an `i64` (`-0`, fractions and exponents are not integers here).
//! Member names may use escapes (`"id\u0065m"` is `idem`) and must be valid
//! UTF-8 once unescaped, with paired surrogates. Whitespace is space, tab,
//! line feed and carriage return; nothing but whitespace may follow.

use vstd::prelude::*;

verus! {

pub const QUOTE: u8 = 0x22;
pub const BACKSLASH: u8 = 0x5C;
pub const COLON: u8 = 0x3A;
pub const COMMA: u8 = 0x2C;
pub const OPEN_BRACE: u8 = 0x7B;
pub const CLOSE_BRACE: u8 = 0x7D;
pub const OPEN_BRACKET: u8 = 0x5B;
pub const CLOSE_BRACKET: u8 = 0x5D;
pub const MINUS: u8 = 0x2D;
pub const PLUS: u8 = 0x2B;
pub const DOT: u8 = 0x2E;
pub const ZERO: u8 = 0x30;

/// Text of a refusal for malformed JSON.
pub open spec fn malformed_text() -> Seq<char> {
    "malformed JSON"@
}

/// Text of a refusal for a field (`idem` when `idem`, else `delta`) that
/// occurs twice.
pub open spec fn duplicate_text(idem: bool) -> Seq<char> {
    if idem {
        "duplicate field `idem`"@
    } else {
        "duplicate field `delta`"@
    }
}

/// Text of a refusal for a field that does not occur.
pub open spec fn missing_text(idem: bool) -> Seq<char> {
    if idem {
        "missing field `idem`"@
    } else {
        "missing field `delta`"@
    }
}

/// Text of a refusal for a field whose value is not an integer in range.
pub open spec fn invalid_text(idem: bool) -> Seq<char> {
    if idem {
        "invalid value for field `idem`"@
    } else {
        "invalid value for field `delta`"@
    }
}

/// The bytes of the member name `idem`.
pub open spec fn idem_name() -> Seq<u8> {
    seq![0x69u8, 0x64u8, 0x65u8, 0x6du8]
}

/// The bytes of the member name `delta`.
pub open spec fn delta_name() -> Seq<u8> {
    seq![0x64u8, 0x65u8, 0x6cu8, 0x74u8, 0x61u8]
}

/// JSON whitespace: space, line feed, tab, carriage return.
pub open spec fn is_ws(b: u8) -> bool {
    b == 0x20 || b == 0x0A || b == 0x09 || b == 0x0D
}

/// An ASCII decimal digit.
pub open spec fn is_digit(b: u8) -> bool {
    0x30 <= b <= 0x39
}

/// An ASCII hexadecimal digit, either case.
pub open spec fn is_hex(b: u8) -> bool {
    is_digit(b) || (0x41 <= b <= 0x46) || (0x61 <= b <= 0x66)
}

/// The value of a hexadecimal digit.
pub open spec fn hex_val(b: u8) -> nat {
    if is_digit(b) {
        (b - 0x30) as nat
    } else if 0x41 <= b <= 0x46 {
        (b - 0x41 + 10) as nat
    } else {
        (b - 0x61 + 10) as nat
    }
}

/// The first position at or after `i` that is not whitespace.
pub open spec fn skip_ws(d: Seq<u8>, i: int) -> int
    decreases d.len() - i,
{
    if 0 <= i < d.len() && is_ws(d[i]) {
        skip_ws(d, i + 1)
    } else {
        i
    }
}

/// The first position at or after `i` that is not a digit.
pub open spec fn digits_end(d: Seq<u8>, i: int) -> int
    decreases d.len() - i,
{
    if 0 <= i < d.len() && is_digit(d[i]) {
        digits_end(d, i + 1)
    } else {
        i
    }
}

/// The decimal value of the digits `d[i..j]`.
pub open spec fn digits_value(d: Seq<u8>, i: int, j: int) -> nat
    decreases j - i,
{
    if j <= i {
        0
    } else {
        digits_value(d, i, j - 1) * 10 + (d[j - 1] - 0x30) as nat
    }
}

/// Four hexadecimal digits at `i`, as a number.
pub open spec fn hex4(d: Seq<u8>, i: int) -> Option<u32> {
    if 0 <= i && i + 4 <= d.len() && is_hex(d[i]) && is_hex(d[i + 1]) && is_hex(d[i + 2])
        && is_hex(d[i + 3]) {
        Some(
            (hex_val(d[i]) * 4096 + hex_val(d[i + 1]) * 256 + hex_val(d[i + 2]) * 16 + hex_val(
                d[i + 3],
            )) as u32,
        )
    } else {
        None
    }
}

/// The byte a one-letter escape stands for: `\" \\ \/ \b \f \n \r \t`.
pub open spec fn simple_escape(c: u8) -> Option<u8> {
    if c == 0x22 {
        Some(0x22u8)
    } else if c == 0x5C {
        Some(0x5Cu8)
    } else if c == 0x2F {
        Some(0x2Fu8)
    } else if c == 0x62 {
        Some(0x08u8)
    } else if c == 0x66 {
        Some(0x0Cu8)
    } else if c == 0x6E {
        Some(0x0Au8)
    } else if c == 0x72 {
        Some(0x0Du8)
    } else if c == 0x74 {
        Some(0x09u8)
    } else {
        None
    }
}

/// A leading (high) surrogate.
pub open spec fn is_high_surrogate(n: u32) -> bool {
    0xD800 <= n <= 0xDBFF
}

/// A trailing (low) surrogate.
pub open spec fn is_low_surrogate(n: u32) -> bool {
    0xDC00 <= n <= 0xDFFF
}

/// The code point of a surrogate pair.
pub open spec fn pair_scalar(hi: u32, lo: u32) -> u32 {
    ((hi - 0xD800) * 1024 + (lo - 0xDC00) + 0x10000) as u32
}

/// An escape in a member name, `i` just after the backslash: the position
/// after it and the UTF-8 bytes it stands for. A `\u` escape must not be a
/// lone surrogate.
pub open spec fn escape_bytes(d: Seq<u8>, i: int) -> Option<(int, Seq<u8>)> {
    if !(0 <= i < d.len()) {
        None
    } else if d[i] == 0x75 {
        match hex4(d, i + 1) {
            None => None,
            Some(n) => if is_low_surrogate(n) {
                None
            } else if !is_high_surrogate(n) {
                Some((i + 5, vstd::utf8::encode_scalar(n)))
            } else if i + 6 < d.len() && d[i + 5] == BACKSLASH && d[i + 6] == 0x75 {
                match hex4(d, i + 7) {
                    Some(m) => if is_low_surrogate(m) {
                        Some((i + 11, vstd::utf8::encode_scalar(pair_scalar(n, m))))
                    } else {
                        None
                    },
                    None => None,
                }
            } else {
                None
            },
        }
    } else {
        match simple_escape(d[i]) {
            Some(b) => Some((i + 1, seq![b])),
            None => None,
        }
    }
}

/// A member name from `i` (after its opening quote), with the bytes
/// unescaped so far in `acc`: the position after the closing quote and the
/// unescaped bytes. Control characters are refused.
pub open spec fn name_chars(d: Seq<u8>, i: int, acc: Seq<u8>) -> Option<(int, Seq<u8>)>
    decreases d.len() - i,
{
    if !(0 <= i < d.len()) {
        None
    } else if d[i] == QUOTE {
        Some((i + 1, acc))
    } else if d[i] == BACKSLASH {
        match escape_bytes(d, i + 1) {
            Some((e, b)) => name_chars(d, e, acc + b),
            None => None,
        }
    } else if d[i] < 0x20 {
        None
    } else {
        name_chars(d, i + 1, acc.push(d[i]))
    }
}

/// A string that is skipped from `i` (after its opening quote): the position
/// after the closing quote. Escapes must be well formed; control characters
/// are refused.
pub open spec fn skip_string(d: Seq<u8>, i: int) -> Option<int>
    decreases d.len() - i,
{
    if !(0 <= i < d.len()) {
        None
    } else if d[i] == QUOTE {
        Some(i + 1)
    } else if d[i] == BACKSLASH {
        if i + 1 < d.len() && simple_escape(d[i + 1]) is Some {
            skip_string(d, i + 2)
        } else if i + 1 < d.len() && d[i + 1] == 0x75 && hex4(d, i + 2) is Some {
            skip_string(d, i + 6)
        } else {
            None
        }
    } else if d[i] < 0x20 {
        None
    } else {
        skip_string(d, i + 1)
    }
}

/// An optional exponent at `i` (`e` or `E`, an optional sign, digits): the
/// position after it.
pub open spec fn skip_exponent(d: Seq<u8>, i: int) -> Option<int> {
    if 0 <= i < d.len() && (d[i] == 0x65 || d[i] == 0x45) {
        let s = if i + 1 < d.len() && (d[i + 1] == PLUS || d[i + 1] == MINUS) {
            i + 2
        } else {
            i + 1
        };
        if s < d.len() && is_digit(d[s]) {
            Some(digits_end(d, s))
        } else {
            None
        }
    } else {
        Some(i)
    }
}

/// A number that is skipped, starting at `i` (a minus sign or a digit):
/// the position after it. No leading zeros; a fraction needs a digit.
pub open spec fn skip_number(d: Seq<u8>, i: int) -> Option<int> {
    let s = if 0 <= i < d.len() && d[i] == MINUS {
        i + 1
    } else {
        i
    };
    if !(0 <= s < d.len() && is_digit(d[s])) {
        None
    } else {
        let e = if d[s] == ZERO {
            s + 1
        } else {
            digits_end(d, s)
        };
        if e < d.len() && is_digit(d[e]) {
            None
        } else if e < d.len() && d[e] == DOT {
            if e + 1 < d.len() && is_digit(d[e + 1]) {
                skip_exponent(d, digits_end(d, e + 1))
            } else {
                None
            }
        } else {
            skip_exponent(d, e)
        }
    }
}

/// Whether the bytes at `i` are the word `w`.
pub open spec fn word_at(d: Seq<u8>, i: int, w: Seq<u8>) -> bool {
    0 <= i && i + w.len() <= d.len() && d.subrange(i, i + w.len()) == w
}

/// The bytes of `null`.
pub open spec fn null_word() -> Seq<u8> {
    seq![0x6eu8, 0x75u8, 0x6cu8, 0x6cu8]
}

/// The bytes of `true`.
pub open spec fn true_word() -> Seq<u8> {
    seq![0x74u8, 0x72u8, 0x75u8, 0x65u8]
}

/// The bytes of `false`.
pub open spec fn false_word() -> Seq<u8> {
    seq![0x66u8, 0x61u8, 0x6cu8, 0x73u8, 0x65u8]
}

/// The closing bracket of an opening one.
pub open spec fn closer(open: u8) -> u8 {
    if open == OPEN_BRACKET {
        CLOSE_BRACKET
    } else {
        CLOSE_BRACE
    }
}

/// A member name and its colon from `q` (at the opening quote): the
/// position after the colon.
pub open spec fn name_colon(d: Seq<u8>, q: int) -> Option<int> {
    if 0 <= q < d.len() && d[q] == QUOTE {
        match skip_string(d, q + 1) {
            Some(e) => {
                let c = skip_ws(d, e);
                if 0 <= c < d.len() && d[c] == COLON {
                    Some(c + 1)
                } else {
                    None
                }
            },
            None => None,
        }
    } else {
        None
    }
}

/// Where a skipped value is: before a value, just after an opening bracket,
/// or after a value.
#[derive(PartialEq, Eq, Structural, Clone, Copy)]
pub enum SkipMode {
    Value,
    Opened,
    After,
}

/// The order in which modes may follow each other without reading a byte.
pub open spec fn mode_rank(m: SkipMode) -> int {
    match m {
        SkipMode::Value => 0,
        SkipMode::Opened => 1,
        SkipMode::After => 2,
    }
}

/// Skipping one JSON value of any shape, at position `i` with the open
/// brackets in `stack`: the position after the value, which is complete once
/// every bracket is closed.
pub open spec fn skip_json(d: Seq<u8>, i: int, stack: Seq<u8>, mode: SkipMode) -> Option<int>
    decreases d.len() - i, mode_rank(mode),
{
    if !(0 <= i <= d.len()) {
        None
    } else {
        match mode {
            SkipMode::Value => if i == d.len() {
                None
            } else if is_ws(d[i]) {
                skip_json(d, i + 1, stack, SkipMode::Value)
            } else if d[i] == 0x6e {
                if word_at(d, i, null_word()) {
                    skip_json(d, i + 4, stack, SkipMode::After)
                } else {
                    None
                }
            } else if d[i] == 0x74 {
                if word_at(d, i, true_word()) {
                    skip_json(d, i + 4, stack, SkipMode::After)
                } else {
                    None
                }
            } else if d[i] == 0x66 {
                if word_at(d, i, false_word()) {
                    skip_json(d, i + 5, stack, SkipMode::After)
                } else {
                    None
                }
            } else if d[i] == MINUS || is_digit(d[i]) {
                match skip_number(d, i) {
                    Some(e) => if i < e <= d.len() {
                        skip_json(d, e, stack, SkipMode::After)
                    } else {
                        None
                    },
                    None => None,
                }
            } else if d[i] == QUOTE {
                match skip_string(d, i + 1) {
                    Some(e) => if i < e <= d.len() {
                        skip_json(d, e, stack, SkipMode::After)
                    } else {
                        None
                    },
                    None => None,
                }
            } else if d[i] == OPEN_BRACKET || d[i] == OPEN_BRACE {
                skip_json(d, i + 1, stack.push(d[i]), SkipMode::Opened)
            } else {
                None
            },
            SkipMode::Opened => if i == d.len() || stack.len() == 0 {
                None
            } else if is_ws(d[i]) {
                skip_json(d, i + 1, stack, SkipMode::Opened)
            } else if d[i] == closer(stack.last()) {
                skip_json(d, i + 1, stack.drop_last(), SkipMode::After)
            } else if stack.last() == OPEN_BRACE {
                match name_colon(d, i) {
                    Some(c) => if i < c <= d.len() {
                        skip_json(d, c, stack, SkipMode::Value)
                    } else {
                        None
                    },
                    None => None,
                }
            } else {
                skip_json(d, i, stack, SkipMode::Value)
            },
            SkipMode::After => if stack.len() == 0 {
                Some(i)
            } else if i == d.len() {
                None
            } else if is_ws(d[i]) {
                skip_json(d, i + 1, stack, SkipMode::After)
            } else if d[i] == COMMA {
                if stack.last() == OPEN_BRACE {
                    match name_colon(d, skip_ws(d, i + 1)) {
                        Some(c) => if i < c <= d.len() {
                            skip_json(d, c, stack, SkipMode::Value)
                        } else {
                            None
                        },
                        None => None,
                    }
                } else {
                    skip_json(d, i + 1, stack, SkipMode::Value)
                }
            } else if d[i] == closer(stack.last()) {
                skip_json(d, i + 1, stack.drop_last(), SkipMode::After)
            } else {
                None
            },
        }
    }
}

/// An integer literal at `i`: the position after it, whether it is
/// negative, and its magnitude. A literal followed by a fraction or an
/// exponent is not an integer.
pub open spec fn int_token(d: Seq<u8>, i: int) -> Option<(int, bool, nat)> {
    let neg = 0 <= i < d.len() && d[i] == MINUS;
    let s = if neg {
        i + 1
    } else {
        i
    };
    if !(0 <= s < d.len() && is_digit(d[s])) {
        None
    } else {
        let e = if d[s] == ZERO {
            s + 1
        } else {
            digits_end(d, s)
        };
        if e < d.len() && (is_digit(d[e]) || d[e] == DOT || d[e] == 0x65 || d[e] == 0x45) {
            None
        } else {
            Some((e, neg, digits_value(d, s, e)))
        }
    }
}

/// The `idem` value of an integer literal: non-negative, within `u64`.
pub open spec fn idem_of(neg: bool, mag: nat) -> Option<u64> {
    if !neg && mag <= u64::MAX {
        Some(mag as u64)
    } else {
        None
    }
}

/// The `delta` value of an integer literal: within `i64`; a negative literal
/// is at least one in magnitude (`-0` is refused).
pub open spec fn delta_of(neg: bool, mag: nat) -> Option<i64> {
    if !neg && mag <= i64::MAX {
        Some(mag as i64)
    } else if neg && 1 <= mag <= 0x8000_0000_0000_0000 {
        Some((-mag) as i64)
    } else {
        None
    }
}

/// The `idem` field's value after whitespace from `i`: the position after
/// it and the value.
pub open spec fn idem_field(d: Seq<u8>, i: int) -> Option<(int, u64)> {
    match int_token(d, skip_ws(d, i)) {
        Some((e, neg, mag)) => match idem_of(neg, mag) {
            Some(v) => Some((e, v)),
            None => None,
        },
        None => None,
    }
}

/// The `delta` field's value after whitespace from `i`.
pub open spec fn delta_field(d: Seq<u8>, i: int) -> Option<(int, i64)> {
    match int_token(d, skip_ws(d, i)) {
        Some((e, neg, mag)) => match delta_of(neg, mag) {
            Some(v) => Some((e, v)),
            None => None,
        },
        None => None,
    }
}

/// The object form from `i` (inside the braces), with `first` telling
/// whether no member was read yet and the fields seen so far: the position
/// after the closing brace and the two fields, or the first refusal.
pub open spec fn members(d: Seq<u8>, i: int, first: bool, idem: Option<u64>, delta: Option<i64>) -> Result<(int, u64, i64), Seq<char>>
    decreases d.len() - i,
{
    let p = skip_ws(d, i);
    if !(0 <= i <= p < d.len()) {
        Err(malformed_text())
    } else if d[p] == CLOSE_BRACE {
        match idem {
            None => Err(missing_text(true)),
            Some(iv) => match delta {
                None => Err(missing_text(false)),
                Some(dv) => Ok((p + 1, iv, dv)),
            },
        }
    } else {
        let q = if first {
            p
        } else if d[p] == COMMA {
            skip_ws(d, p + 1)
        } else {
            -1
        };
        if !(p <= q < d.len() && d[q] == QUOTE) {
            Err(malformed_text())
        } else {
            match name_chars(d, q + 1, Seq::empty()) {
                None => Err(malformed_text()),
                Some((k, name)) => {
                    let c = skip_ws(d, k);
                    if name == idem_name() && idem is Some {
                        Err(duplicate_text(true))
                    } else if name == delta_name() && delta is Some {
                        Err(duplicate_text(false))
                    } else if name != idem_name() && name != delta_name()
                        && !vstd::utf8::valid_utf8(name) {
                        Err(malformed_text())
                    } else if !(q < c < d.len() && d[c] == COLON) {
                        Err(malformed_text())
                    } else if name == idem_name() {
                        match idem_field(d, c + 1) {
                            Some((e, v)) => if c < e <= d.len() {
                                members(d, e, false, Some(v), delta)
                            } else {
                                Err(malformed_text())
                            },
                            None => Err(invalid_text(true)),
                        }
                    } else if name == delta_name() {
                        match delta_field(d, c + 1) {
                            Some((e, v)) => if c < e <= d.len() {
                                members(d, e, false, idem, Some(v))
                            } else {
                                Err(malformed_text())
                            },
                            None => Err(invalid_text(false)),
                        }
                    } else {
                        match skip_json(d, c + 1, Seq::empty(), SkipMode::Value) {
                            Some(e) => if c < e <= d.len() {
                                members(d, e, false, idem, delta)
                            } else {
                                Err(malformed_text())
                            },
                            None => Err(malformed_text()),
                        }
                    }
                },
            }
        }
    }
}

/// The array form from `i` (just inside the bracket): exactly two
/// elements, `idem` then `delta`.
pub open spec fn elements(d: Seq<u8>, i: int) -> Result<(int, u64, i64), Seq<char>> {
    let p1 = skip_ws(d, i);
    if !(0 <= p1 < d.len()) {
        Err(malformed_text())
    } else if d[p1] == CLOSE_BRACKET {
        Err(missing_text(true))
    } else {
        match idem_field(d, p1) {
            None => Err(invalid_text(true)),
            Some((e1, iv)) => {
                let p2 = skip_ws(d, e1);
                if !(0 <= p2 < d.len()) {
                    Err(malformed_text())
                } else if d[p2] == CLOSE_BRACKET {
                    Err(missing_text(false))
                } else if d[p2] != COMMA {
                    Err(malformed_text())
                } else {
                    let p3 = skip_ws(d, p2 + 1);
                    if !(0 <= p3 < d.len()) || d[p3] == CLOSE_BRACKET {
                        Err(malformed_text())
                    } else {
                        match delta_field(d, p3) {
                            None => Err(invalid_text(false)),
                            Some((e2, dv)) => {
                                let p4 = skip_ws(d, e2);
                                if 0 <= p4 < d.len() && d[p4] == CLOSE_BRACKET {
                                    Ok((p4 + 1, iv, dv))
                                } else {
                                    Err(malformed_text())
                                }
                            },
                        }
                    }
                }
            },
        }
    }
}

/// Reading a counter command: an object or a two-element array, then
/// nothing but whitespace.
pub open spec fn read_cmd(d: Seq<u8>) -> Result<(u64, i64), Seq<char>> {
    let p = skip_ws(d, 0);
    let body = if p < d.len() && d[p] == OPEN_BRACE {
        members(d, p + 1, true, None, None)
    } else if p < d.len() && d[p] == OPEN_BRACKET {
        elements(d, p + 1)
    } else {
        Err(malformed_text())
    };
    match body {
        Err(m) => Err(m),
        Ok((e, iv, dv)) => if skip_ws(d, e) == d.len() {
            Ok((iv, dv))
        } else {
            Err(malformed_text())
        },
    }
}

fn ws_byte(b: u8) -> (r: bool)
    ensures
        r == is_ws(b),
{
    b == 0x20 || b == 0x0A || b == 0x09 || b == 0x0D
}

fn digit_byte(b: u8) -> (r: bool)
    ensures
        r == is_digit(b),
{
    0x30 <= b && b <= 0x39
}

fn hex_digit(b: u8) -> (r: Option<u32>)
    ensures
        match r {
            Some(v) => is_hex(b) && v == hex_val(b),
            None => !is_hex(b),
        },
{
    if 0x30 <= b && b <= 0x39 {
        Some((b - 0x30) as u32)
    } else if 0x41 <= b && b <= 0x46 {
        Some((b - 0x41 + 10) as u32)
    } else if 0x61 <= b && b <= 0x66 {
        Some((b - 0x61 + 10) as u32)
    } else {
        None
    }
}

/// The first position at or after `i` that is not whitespace.
fn skip_ws_at(d: &[u8], i: usize) -> (r: usize)
    requires
        i <= d@.len(),
    ensures
        r == skip_ws(d@, i as int),
        i <= r <= d@.len(),
{
    let mut j: usize = i;
    while j < d.len() && ws_byte(d[j])
        invariant
            i <= j <= d@.len(),
            skip_ws(d@, j as int) == skip_ws(d@, i as int),
        decreases d@.len() - j,
    {
        j = j + 1;
    }
    j
}

fn digits_end_at(d: &[u8], i: usize) -> (r: usize)
    requires
        i <= d@.len(),
    ensures
        r == digits_end(d@, i as int),
        i <= r <= d@.len(),
{
    let mut j: usize = i;
    while j < d.len() && digit_byte(d[j])
        invariant
            i <= j <= d@.len(),
            digits_end(d@, j as int) == digits_end(d@, i as int),
        decreases d@.len() - j,
    {
        j = j + 1;
    }
    j
}

fn hex4_at(d: &[u8], i: usize) -> (r: Option<u32>)
    ensures
        r == hex4(d@, i as int),
{
    if i > d.len() || d.len() - i < 4 {
        return None;
    }
    let a = hex_digit(d[i]);
    let b = hex_digit(d[i + 1]);
    let c = hex_digit(d[i + 2]);
    let e = hex_digit(d[i + 3]);
    match (a, b, c, e) {
        (Some(a), Some(b), Some(c), Some(e)) => Some(a * 4096 + b * 256 + c * 16 + e),
        _ => None,
    }
}

fn simple_escape_of(c: u8) -> (r: Option<u8>)
    ensures
        r == simple_escape(c),
{
    if c == 0x22 {
        Some(0x22u8)
    } else if c == 0x5C {
        Some(0x5Cu8)
    } else if c == 0x2F {
        Some(0x2Fu8)
    } else if c == 0x62 {
        Some(0x08u8)
    } else if c == 0x66 {
        Some(0x0Cu8)
    } else if c == 0x6E {
        Some(0x0Au8)
    } else if c == 0x72 {
        Some(0x0Du8)
    } else if c == 0x74 {
        Some(0x09u8)
    } else {
        None
    }
}

/// Appends the UTF-8 encoding of the scalar `n`.
fn push_scalar(acc: &mut Vec<u8>, n: u32)
    requires
        vstd::utf8::is_scalar(n),
    ensures
        final(acc)@ == old(acc)@ + vstd::utf8::encode_scalar(n),
{
    let ghost pre = acc@;
    if n <= 0x7F {
        acc.push((n & 0x7F) as u8);
    } else if n <= 0x7FF {
        acc.push(0xC0u8 | ((n >> 6u32) & 0x1F) as u8);
        acc.push(0x80u8 | (n & 0x3F) as u8);
    } else if n <= 0xFFFF {
        acc.push(0xE0u8 | ((n >> 12u32) & 0x0F) as u8);
        acc.push(0x80u8 | ((n >> 6u32) & 0x3F) as u8);
        acc.push(0x80u8 | (n & 0x3F) as u8);
    } else {
        acc.push(0xF0u8 | ((n >> 18u32) & 0x7) as u8);
        acc.push(0x80u8 | ((n >> 12u32) & 0x3F) as u8);
        acc.push(0x80u8 | ((n >> 6u32) & 0x3F) as u8);
        acc.push(0x80u8 | (n & 0x3F) as u8);
    }
    proof {
        assert(acc@ =~= pre + vstd::utf8::encode_scalar(n));
    }
}

/// Whether `b` is valid UTF-8 (`std::str::from_utf8` succeeds).
///
/// Claim of the outside call: it succeeds exactly on well-formed UTF-8.
#[verifier::external_body]
fn utf8_valid(b: &[u8]) -> (r: bool)
    ensures
        r == vstd::utf8::valid_utf8(b@),
{
    std::str::from_utf8(b).is_ok()
}

fn bytes_equal(a: &[u8], b: &[u8]) -> (r: bool)
    ensures
        r == (a@ == b@),
{
    if a.len() != b.len() {
        return false;
    }
    let mut k: usize = 0;
    while k < a.len()
        invariant
            k <= a@.len(),
            a@.len() == b@.len(),
            forall|j: int| 0 <= j < k ==> a@[j] == b@[j],
        decreases a@.len() - k,
    {
        if a[k] != b[k] {
            return false;
        }
        k = k + 1;
    }
    proof {
        assert(a@ =~= b@);
    }
    true
}

fn word_is(d: &[u8], i: usize, w: &[u8]) -> (r: bool)
    ensures
        r == word_at(d@, i as int, w@),
{
    if i > d.len() || d.len() - i < w.len() {
        return false;
    }
    let mut k: usize = 0;
    while k < w.len()
        invariant
            k <= w@.len(),
            i <= d@.len(),
            d@.len() - i >= w@.len(),
            d@.len() <= usize::MAX,
            forall|j: int| 0 <= j < k ==> d@[i + j] == w@[j],
        decreases w@.len() - k,
    {
        let at: usize = i + k;
        if d[at] != w[k] {
            proof {
                assert(d@.subrange(i as int, i + w@.len())[k as int] != w@[k as int]);
            }
            return false;
        }
        k = k + 1;
    }
    proof {
        assert(d@.subrange(i as int, i + w@.len()) =~= w@);
    }
    true
}

/// An escape in a member name, `i` just after the backslash.
fn escape_at(d: &[u8], i: usize) -> (r: Option<(usize, Vec<u8>)>)
    ensures
        match r {
            Some((e, b)) => escape_bytes(d@, i as int) == Some((e as int, b@)),
            None => escape_bytes(d@, i as int) is None,
        },
{
    if i >= d.len() {
        return None;
    }
    if d[i] == 0x75 {
        let n = match hex4_at(d, i + 1) {
            Some(n) => n,
            None => return None,
        };
        if 0xDC00 <= n && n <= 0xDFFF {
            return None;
        }
        if n < 0xD800 || n > 0xDBFF {
            let mut b: Vec<u8> = Vec::new();
            push_scalar(&mut b, n);
            proof {
                assert(b@ =~= vstd::utf8::encode_scalar(n));
            }
            return Some((i + 5, b));
        }
        if d.len() - i > 6 && d[i + 5] == BACKSLASH && d[i + 6] == 0x75 {
            match hex4_at(d, i + 7) {
                Some(m) => {
                    if 0xDC00 <= m && m <= 0xDFFF {
                        let v: u32 = (n - 0xD800) * 1024 + (m - 0xDC00) + 0x10000;
                        let mut b: Vec<u8> = Vec::new();
                        push_scalar(&mut b, v);
                        proof {
                            assert(b@ =~= vstd::utf8::encode_scalar(pair_scalar(n, m)));
                        }
                        Some((i + 11, b))
                    } else {
                        None
                    }
                },
                None => None,
            }
        } else {
            None
        }
    } else {
        match simple_escape_of(d[i]) {
            Some(b) => {
                let v: Vec<u8> = vec![b];
                proof {
                    assert(v@ =~= seq![b]);
                }
                Some((i + 1, v))
            },
            None => None,
        }
    }
}

/// A member name from `i` (after its opening quote): the position after
/// the closing quote and the unescaped bytes.
fn name_at(d: &[u8], i: usize) -> (r: Option<(usize, Vec<u8>)>)
    ensures
        match r {
            Some((e, b)) => name_chars(d@, i as int, Seq::empty()) == Some((e as int, b@)),
            None => name_chars(d@, i as int, Seq::empty()) is None,
        },
{
    let mut j: usize = i;
    let mut acc: Vec<u8> = Vec::new();
    proof {
        assert(acc@ =~= Seq::<u8>::empty());
    }
    loop
        invariant
            name_chars(d@, j as int, acc@) == name_chars(d@, i as int, Seq::empty()),
        decreases d@.len() - j,
    {
        if j >= d.len() {
            return None;
        }
        let c = d[j];
        if c == QUOTE {
            return Some((j + 1, acc));
        } else if c == BACKSLASH {
            match escape_at(d, j + 1) {
                Some((e, b)) => {
                    let mut b = b;
                    acc.append(&mut b);
                    j = e;
                },
                None => return None,
            }
        } else if c < 0x20 {
            return None;
        } else {
            acc.push(c);
            j = j + 1;
        }
    }
}

/// A skipped string from `i` (after its opening quote): the position after
/// the closing quote.
fn skip_string_at(d: &[u8], i: usize) -> (r: Option<usize>)
    ensures
        match r {
            Some(e) => skip_string(d@, i as int) == Some(e as int),
            None => skip_string(d@, i as int) is None,
        },
{
    let mut j: usize = i;
    loop
        invariant
            skip_string(d@, j as int) == skip_string(d@, i as int),
        decreases d@.len() - j,
    {
        if j >= d.len() {
            return None;
        }
        let c = d[j];
        if c == QUOTE {
            return Some(j + 1);
        } else if c == BACKSLASH {
            if j + 1 < d.len() && simple_escape_of(d[j + 1]).is_some() {
                j = j + 2;
            } else if j + 1 < d.len() && d[j + 1] == 0x75 && hex4_at(d, j + 2).is_some() {
                j = j + 6;
            } else {
                return None;
            }
        } else if c < 0x20 {
            return None;
        } else {
            j = j + 1;
        }
    }
}

fn skip_exponent_at(d: &[u8], i: usize) -> (r: Option<usize>)
    requires
        i <= d@.len(),
    ensures
        match r {
            Some(e) => skip_exponent(d@, i as int) == Some(e as int),
            None => skip_exponent(d@, i as int) is None,
        },
{
    if i < d.len() && (d[i] == 0x65 || d[i] == 0x45) {
        let s: usize = if i + 1 < d.len() && (d[i + 1] == PLUS || d[i + 1] == MINUS) {
            i + 2
        } else {
            i + 1
        };
        if s < d.len() && digit_byte(d[s]) {
            Some(digits_end_at(d, s))
        } else {
            None
        }
    } else {
        Some(i)
    }
}

fn skip_number_at(d: &[u8], i: usize) -> (r: Option<usize>)
    requires
        i <= d@.len(),
    ensures
        match r {
            Some(e) => skip_number(d@, i as int) == Some(e as int),
            None => skip_number(d@, i as int) is None,
        },
{
    let s: usize = if i < d.len() && d[i] == MINUS {
        i + 1
    } else {
        i
    };
    if !(s < d.len() && digit_byte(d[s])) {
        return None;
    }
    let e: usize = if d[s] == ZERO {
        s + 1
    } else {
        digits_end_at(d, s)
    };
    if e < d.len() && digit_byte(d[e]) {
        None
    } else if e < d.len() && d[e] == DOT {
        if e + 1 < d.len() && digit_byte(d[e + 1]) {
            let f = digits_end_at(d, e + 1);
            skip_exponent_at(d, f)
        } else {
            None
        }
    } else {
        skip_exponent_at(d, e)
    }
}

fn name_colon_at(d: &[u8], q: usize) -> (r: Option<usize>)
    requires
        q <= d@.len(),
    ensures
        match r {
            Some(c) => name_colon(d@, q as int) == Some(c as int),
            None => name_colon(d@, q as int) is None,
        },
{
    if q < d.len() && d[q] == QUOTE {
        match skip_string_at(d, q + 1) {
            Some(e) => {
                if e > d.len() {
                    return None;
                }
                let c = skip_ws_at(d, e);
                if c < d.len() && d[c] == COLON {
                    Some(c + 1)
                } else {
                    None
                }
            },
            None => None,
        }
    } else {
        None
    }
}

fn closer_of(open: u8) -> (r: u8)
    ensures
        r == closer(open),
{
    if open == OPEN_BRACKET {
        CLOSE_BRACKET
    } else {
        CLOSE_BRACE
    }
}

/// Skips one JSON value of any shape from `i`: the position after it.
fn skip_value_at(d: &[u8], i: usize) -> (r: Option<usize>)
    requires
        i <= d@.len(),
    ensures
        match r {
            Some(e) => skip_json(d@, i as int, Seq::empty(), SkipMode::Value) == Some(e as int),
            None => skip_json(d@, i as int, Seq::empty(), SkipMode::Value) is None,
        },
{
    let null_w: Vec<u8> = vec![0x6eu8, 0x75u8, 0x6cu8, 0x6cu8];
    let true_w: Vec<u8> = vec![0x74u8, 0x72u8, 0x75u8, 0x65u8];
    let false_w: Vec<u8> = vec![0x66u8, 0x61u8, 0x6cu8, 0x73u8, 0x65u8];
    proof {
        assert(null_w@ =~= null_word());
        assert(true_w@ =~= true_word());
        assert(false_w@ =~= false_word());
    }
    let mut j: usize = i;
    let mut stack: Vec<u8> = Vec::new();
    let mut mode = SkipMode::Value;
    proof {
        assert(stack@ =~= Seq::<u8>::empty());
    }
    loop
        invariant
            j <= d@.len(),
            null_w@ == null_word(),
            true_w@ == true_word(),
            false_w@ == false_word(),
            skip_json(d@, j as int, stack@, mode) == skip_json(
                d@,
                i as int,
                Seq::empty(),
                SkipMode::Value,
            ),
        decreases d@.len() - j, mode_rank(mode),
    {
        match mode {
            SkipMode::Value => {
                if j == d.len() {
                    return None;
                }
                let c = d[j];
                if ws_byte(c) {
                    j = j + 1;
                } else if c == 0x6e {
                    if word_is(d, j, null_w.as_slice()) {
                        j = j + 4;
                        mode = SkipMode::After;
                    } else {
                        return None;
                    }
                } else if c == 0x74 {
                    if word_is(d, j, true_w.as_slice()) {
                        j = j + 4;
                        mode = SkipMode::After;
                    } else {
                        return None;
                    }
                } else if c == 0x66 {
                    if word_is(d, j, false_w.as_slice()) {
                        j = j + 5;
                        mode = SkipMode::After;
                    } else {
                        return None;
                    }
                } else if c == MINUS || digit_byte(c) {
                    match skip_number_at(d, j) {
                        Some(e) => {
                            if j < e && e <= d.len() {
                                j = e;
                                mode = SkipMode::After;
                            } else {
                                return None;
                            }
                        },
                        None => return None,
                    }
                } else if c == QUOTE {
                    match skip_string_at(d, j + 1) {
                        Some(e) => {
                            if j < e && e <= d.len() {
                                j = e;
                                mode = SkipMode::After;
                            } else {
                                return None;
                            }
                        },
                        None => return None,
                    }
                } else if c == OPEN_BRACKET || c == OPEN_BRACE {
                    stack.push(c);
                    j = j + 1;
                    mode = SkipMode::Opened;
                } else {
                    return None;
                }
            },
            SkipMode::Opened => {
                if j == d.len() || stack.len() == 0 {
                    return None;
                }
                let c = d[j];
                let top = stack[stack.len() - 1];
                if ws_byte(c) {
                    j = j + 1;
                } else if c == closer_of(top) {
                    stack.pop();
                    j = j + 1;
                    mode = SkipMode::After;
                } else if top == OPEN_BRACE {
                    match name_colon_at(d, j) {
                        Some(e) => {
                            if j < e && e <= d.len() {
                                j = e;
                                mode = SkipMode::Value;
                            } else {
                                return None;
                            }
                        },
                        None => return None,
                    }
                } else {
                    mode = SkipMode::Value;
                }
            },
            SkipMode::After => {
                if stack.len() == 0 {
                    return Some(j);
                }
                if j == d.len() {
                    return None;
                }
                let c = d[j];
                let top = stack[stack.len() - 1];
                if ws_byte(c) {
                    j = j + 1;
                } else if c == COMMA {
                    if top == OPEN_BRACE {
                        let q = skip_ws_at(d, j + 1);
                        match name_colon_at(d, q) {
                            Some(e) => {
                                if j < e && e <= d.len() {
                                    j = e;
                                    mode = SkipMode::Value;
                                } else {
                                    return None;
                                }
                            },
                            None => return None,
                        }
                    } else {
                        j = j + 1;
                        mode = SkipMode::Value;
                    }
                } else if c == closer_of(top) {
                    stack.pop();
                    j = j + 1;
                } else {
                    return None;
                }
            },
        }
    }
}

/// Each byte below the end of a digit run is a digit.
proof fn lemma_digits_end_all_digits(d: Seq<u8>, i: int)
    requires
        0 <= i,
    ensures
        i <= digits_end(d, i),
        forall|j: int| i <= j < digits_end(d, i) ==> is_digit(d[j]),
        digits_end(d, i) <= d.len() || digits_end(d, i) == i,
    decreases d.len() - i,
{
    if 0 <= i < d.len() && is_digit(d[i]) {
        lemma_digits_end_all_digits(d, i + 1);
    }
}

/// More digits never make a smaller number.
proof fn lemma_digits_value_grows(d: Seq<u8>, s: int, k: int, e: int)
    requires
        s <= k <= e,
    ensures
        digits_value(d, s, k) <= digits_value(d, s, e),
    decreases e - k,
{
    if k < e {
        lemma_digits_value_grows(d, s, k, e - 1);
    }
}

/// An integer literal at `i`; `None` also when its magnitude exceeds `u64`.
fn int_token_at(d: &[u8], i: usize) -> (r: Option<(usize, bool, u64)>)
    requires
        i <= d@.len(),
    ensures
        match r {
            Some((e, neg, m)) => int_token(d@, i as int) == Some((e as int, neg, m as nat)),
            None => match int_token(d@, i as int) {
                Some((_, _, mag)) => mag > u64::MAX,
                None => true,
            },
        },
{
    let neg = i < d.len() && d[i] == MINUS;
    let s: usize = if neg {
        i + 1
    } else {
        i
    };
    if !(s < d.len() && digit_byte(d[s])) {
        return None;
    }
    let e: usize = if d[s] == ZERO {
        s + 1
    } else {
        digits_end_at(d, s)
    };
    proof {
        lemma_digits_end_all_digits(d@, s as int);
    }
    if e < d.len() && (digit_byte(d[e]) || d[e] == DOT || d[e] == 0x65 || d[e] == 0x45) {
        return None;
    }
    let mut v: u64 = 0;
    let mut k: usize = s;
    while k < e
        invariant
            s <= k <= e <= d@.len(),
            v == digits_value(d@, s as int, k as int),
            forall|j: int| s <= j < e ==> is_digit(#[trigger] d@[j]),
            int_token(d@, i as int) == Some((e as int, neg, digits_value(d@, s as int, e as int))),
        decreases e - k,
    {
        let dig: u64 = (d[k] - 0x30) as u64;
        if v > 1844674407370955161 || (v == 1844674407370955161 && dig > 5) {
            proof {
                assert(digits_value(d@, s as int, k as int + 1) == v * 10 + dig);
                lemma_digits_value_grows(d@, s as int, k as int + 1, e as int);
            }
            return None;
        }
        v = v * 10 + dig;
        k = k + 1;
    }
    Some((e, neg, v))
}

fn idem_field_at(d: &[u8], i: usize) -> (r: Option<(usize, u64)>)
    requires
        i <= d@.len(),
    ensures
        match r {
            Some((e, v)) => idem_field(d@, i as int) == Some((e as int, v)),
            None => idem_field(d@, i as int) is None,
        },
{
    let p = skip_ws_at(d, i);
    match int_token_at(d, p) {
        Some((e, neg, m)) => {
            if !neg {
                Some((e, m))
            } else {
                None
            }
        },
        None => None,
    }
}

fn delta_field_at(d: &[u8], i: usize) -> (r: Option<(usize, i64)>)
    requires
        i <= d@.len(),
    ensures
        match r {
            Some((e, v)) => delta_field(d@, i as int) == Some((e as int, v)),
            None => delta_field(d@, i as int) is None,
        },
{
    let p = skip_ws_at(d, i);
    match int_token_at(d, p) {
        Some((e, neg, m)) => {
            if !neg && m <= 0x7fff_ffff_ffff_ffff {
                Some((e, m as i64))
            } else if neg && 1 <= m && m < 0x8000_0000_0000_0000 {
                Some((e, -(m as i64)))
            } else if neg && m == 0x8000_0000_0000_0000 {
                Some((e, i64::MIN))
            } else {
                None
            }
        },
        None => None,
    }
}

fn malformed() -> (s: String)
    ensures
        s@ == malformed_text(),
{
    String::from_str("malformed JSON")
}

fn duplicate(idem: bool) -> (s: String)
    ensures
        s@ == duplicate_text(idem),
{
    if idem {
        String::from_str("duplicate field `idem`")
    } else {
        String::from_str("duplicate field `delta`")
    }
}

fn missing(idem: bool) -> (s: String)
    ensures
        s@ == missing_text(idem),
{
    if idem {
        String::from_str("missing field `idem`")
    } else {
        String::from_str("missing field `delta`")
    }
}

fn invalid(idem: bool) -> (s: String)
    ensures
        s@ == invalid_text(idem),
{
    if idem {
        String::from_str("invalid value for field `idem`")
    } else {
        String::from_str("invalid value for field `delta`")
    }
}

/// The object form from `i` (inside the braces).
fn members_at(d: &[u8], i: usize) -> (r: Result<(usize, u64, i64), String>)
    requires
        i <= d@.len(),
    ensures
        match r {
            Ok((e, a, b)) => members(d@, i as int, true, None, None) == Ok::<
                (int, u64, i64),
                Seq<char>,
            >((e as int, a, b)),
            Err(m) => members(d@, i as int, true, None, None) == Err::<(int, u64, i64), Seq<char>>(
                m@,
            ),
        },
{
    let idem_w: Vec<u8> = vec![0x69u8, 0x64u8, 0x65u8, 0x6du8];
    let delta_w: Vec<u8> = vec![0x64u8, 0x65u8, 0x6cu8, 0x74u8, 0x61u8];
    proof {
        assert(idem_w@ =~= idem_name());
        assert(delta_w@ =~= delta_name());
    }
    let mut j: usize = i;
    let mut first = true;
    let mut idem: Option<u64> = None;
    let mut delta: Option<i64> = None;
    loop
        invariant
            j <= d@.len(),
            idem_w@ == idem_name(),
            delta_w@ == delta_name(),
            members(d@, j as int, first, idem, delta) == members(d@, i as int, true, None, None),
        decreases d@.len() - j,
    {
        let p = skip_ws_at(d, j);
        if p >= d.len() {
            return Err(malformed());
        }
        if d[p] == CLOSE_BRACE {
            return match idem {
                None => Err(missing(true)),
                Some(iv) => match delta {
                    None => Err(missing(false)),
                    Some(dv) => Ok((p + 1, iv, dv)),
                },
            };
        }
        let q: usize = if first {
            p
        } else if d[p] == COMMA {
            skip_ws_at(d, p + 1)
        } else {
            return Err(malformed());
        };
        if !(q < d.len() && d[q] == QUOTE) {
            return Err(malformed());
        }
        let (k, name) = match name_at(d, q + 1) {
            None => return Err(malformed()),
            Some(kn) => kn,
        };
        let c: usize = if k <= d.len() {
            skip_ws_at(d, k)
        } else {
            k
        };
        let is_idem = bytes_equal(name.as_slice(), idem_w.as_slice());
        let is_delta = bytes_equal(name.as_slice(), delta_w.as_slice());
        if is_idem && idem.is_some() {
            return Err(duplicate(true));
        }
        if is_delta && delta.is_some() {
            return Err(duplicate(false));
        }
        if !is_idem && !is_delta && !utf8_valid(name.as_slice()) {
            return Err(malformed());
        }
        if !(q < c && c < d.len() && d[c] == COLON) {
            return Err(malformed());
        }
        if is_idem {
            match idem_field_at(d, c + 1) {
                Some((e, v)) => {
                    if c < e && e <= d.len() {
                        j = e;
                        first = false;
                        idem = Some(v);
                    } else {
                        return Err(malformed());
                    }
                },
                None => return Err(invalid(true)),
            }
        } else if is_delta {
            match delta_field_at(d, c + 1) {
                Some((e, v)) => {
                    if c < e && e <= d.len() {
                        j = e;
                        first = false;
                        delta = Some(v);
                    } else {
                        return Err(malformed());
                    }
                },
                None => return Err(invalid(false)),
            }
        } else {
            match skip_value_at(d, c + 1) {
                Some(e) => {
                    if c < e && e <= d.len() {
                        j = e;
                        first = false;
                    } else {
                        return Err(malformed());
                    }
                },
                None => return Err(malformed()),
            }
        }
    }
}

/// The array form from `i` (just inside the bracket).
fn elements_at(d: &[u8], i: usize) -> (r: Result<(usize, u64, i64), String>)
    requires
        i <= d@.len(),
    ensures
        match r {
            Ok((e, a, b)) => elements(d@, i as int) == Ok::<(int, u64, i64), Seq<char>>(
                (e as int, a, b),
            ),
            Err(m) => elements(d@, i as int) == Err::<(int, u64, i64), Seq<char>>(m@),
        },
{
    let p1 = skip_ws_at(d, i);
    if p1 >= d.len() {
        return Err(malformed());
    }
    if d[p1] == CLOSE_BRACKET {
        return Err(missing(true));
    }
    let (e1, iv) = match idem_field_at(d, p1) {
        None => return Err(invalid(true)),
        Some(x) => x,
    };
    if e1 > d.len() {
        return Err(malformed());
    }
    let p2 = skip_ws_at(d, e1);
    if p2 >= d.len() {
        return Err(malformed());
    }
    if d[p2] == CLOSE_BRACKET {
        return Err(missing(false));
    }
    if d[p2] != COMMA {
        return Err(malformed());
    }
    let p3 = skip_ws_at(d, p2 + 1);
    if p3 >= d.len() || d[p3] == CLOSE_BRACKET {
        return Err(malformed());
    }
    let (e2, dv) = match delta_field_at(d, p3) {
        None => return Err(invalid(false)),
        Some(x) => x,
    };
    if e2 > d.len() {
        return Err(malformed());
    }
    let p4 = skip_ws_at(d, e2);
    if p4 < d.len() && d[p4] == CLOSE_BRACKET {
        Ok((p4 + 1, iv, dv))
    } else {
        Err(malformed())
    }
}

/// Reads a counter command: `Ok((idem, delta))`, or the refusal's text.
pub fn read_counter_cmd(d: &[u8]) -> (r: Result<(u64, i64), String>)
    ensures
        match r {
            Ok(c) => read_cmd(d@) == Ok::<(u64, i64), Seq<char>>(c),
            Err(m) => read_cmd(d@) == Err::<(u64, i64), Seq<char>>(m@),
        },
{
    let p = skip_ws_at(d, 0);
    let body = if p < d.len() && d[p] == OPEN_BRACE {
        members_at(d, p + 1)
    } else if p < d.len() && d[p] == OPEN_BRACKET {
        elements_at(d, p + 1)
    } else {
        Err(malformed())
    };
    match body {
        Err(m) => Err(m),
        Ok((e, iv, dv)) => {
            if e <= d.len() && skip_ws_at(d, e) == d.len() {
                Ok((iv, dv))
            } else {
                Err(malformed())
            }
        },
    }
}

/// The decimal digits of `n` as ASCII bytes, most significant first.
pub open spec fn decimal_bytes(n: nat) -> Seq<u8>
    decreases n,
{
    if n < 10 {
        seq![(0x30 + n) as u8]
    } else {
        decimal_bytes(n / 10).push((0x30 + n % 10) as u8)
    }
}

/// The decimal bytes of a signed integer, with a leading minus sign when it
/// is negative.
pub open spec fn signed_decimal_bytes(n: int) -> Seq<u8> {
    if n < 0 {
        seq![MINUS] + decimal_bytes((-n) as nat)
    } else {
        decimal_bytes(n as nat)
    }
}

/// The compact text of a command: `{"idem":<idem>,"delta":<delta>}`.
pub open spec fn cmd_text(idem: u64, delta: i64) -> Seq<u8> {
    seq![0x7Bu8, 0x22u8, 0x69u8, 0x64u8, 0x65u8, 0x6du8, 0x22u8, 0x3Au8] + decimal_bytes(
        idem as nat,
    ) + seq![0x2Cu8, 0x22u8, 0x64u8, 0x65u8, 0x6cu8, 0x74u8, 0x61u8, 0x22u8, 0x3Au8]
        + signed_decimal_bytes(delta as int) + seq![0x7Du8]
}

/// Appends the decimal bytes of `n`.
fn push_decimal(v: &mut Vec<u8>, n: u64)
    ensures
        final(v)@ == old(v)@ + decimal_bytes(n as nat),
    decreases n,
{
    if n < 10 {
        v.push((0x30 + n) as u8);
    } else {
        push_decimal(v, n / 10);
        v.push((0x30 + n % 10) as u8);
    }
    proof {
        assert(v@ =~= old(v)@ + decimal_bytes(n as nat));
    }
}

/// Writes the compact text of a command.
pub fn write_cmd(idem: u64, delta: i64) -> (r: Vec<u8>)
    ensures
        r@ == cmd_text(idem, delta),
{
    let mut v: Vec<u8> = vec![0x7Bu8, 0x22u8, 0x69u8, 0x64u8, 0x65u8, 0x6du8, 0x22u8, 0x3Au8];
    let ghost head = v@;
    push_decimal(&mut v, idem);
    let mut mid: Vec<u8> = vec![0x2Cu8, 0x22u8, 0x64u8, 0x65u8, 0x6cu8, 0x74u8, 0x61u8, 0x22u8, 0x3Au8];
    let ghost mid_v = mid@;
    v.append(&mut mid);
    if delta < 0 {
        v.push(MINUS);
        let m: u64 = (0i128 - delta as i128) as u64;
        push_decimal(&mut v, m);
    } else {
        push_decimal(&mut v, delta as u64);
    }
    v.push(0x7Du8);
    proof {
        assert(head =~= seq![0x7Bu8, 0x22u8, 0x69u8, 0x64u8, 0x65u8, 0x6du8, 0x22u8, 0x3Au8]);
        assert(mid_v =~= seq![0x2Cu8, 0x22u8, 0x64u8, 0x65u8, 0x6cu8, 0x74u8, 0x61u8, 0x22u8, 0x3Au8]);
        assert(v@ =~= cmd_text(idem, delta));
    }
    v
}

proof fn lemma_decimal_bytes_digits(n: nat)
    ensures
        decimal_bytes(n).len() >= 1,
        forall|k: int| 0 <= k < decimal_bytes(n).len() ==> is_digit(#[trigger] decimal_bytes(n)[k]),
        n > 0 ==> decimal_bytes(n)[0] != ZERO,
        n == 0 ==> decimal_bytes(n).len() == 1,
    decreases n,
{
    if n >= 10 {
        lemma_decimal_bytes_digits(n / 10);
        assert(decimal_bytes(n)[0] == decimal_bytes(n / 10)[0]);
    }
}

proof fn lemma_decimal_value(d: Seq<u8>, s: int, n: nat)
    requires
        0 <= s,
        s + decimal_bytes(n).len() <= d.len(),
        d.subrange(s, s + decimal_bytes(n).len()) == decimal_bytes(n),
    ensures
        digits_value(d, s, s + decimal_bytes(n).len()) == n,
    decreases n,
{
    let len = decimal_bytes(n).len();
    if n < 10 {
        assert(d.subrange(s, s + len)[0] == d[s]);
        assert(digits_value(d, s, s) == 0);
    } else {
        let m = n / 10;
        assert(decimal_bytes(n).drop_last() =~= decimal_bytes(m));
        assert(d.subrange(s, s + len - 1) =~= d.subrange(s, s + len).drop_last());
        lemma_decimal_value(d, s, m);
        assert(d.subrange(s, s + len)[len - 1] == d[s + len - 1]);
        vstd::arithmetic::div_mod::lemma_fundamental_div_mod(n as int, 10);
    }
}

proof fn lemma_digits_end_run(d: Seq<u8>, j: int, e: int)
    requires
        0 <= j <= e <= d.len(),
        forall|k: int| j <= k < e ==> is_digit(#[trigger] d[k]),
        e == d.len() || !is_digit(d[e]),
    ensures
        digits_end(d, j) == e,
    decreases e - j,
{
    if j < e {
        lemma_digits_end_run(d, j + 1, e);
    }
}

/// The decimal bytes of `n` at `s`, ended by a byte that cannot continue a
/// number, read as an integer literal.
proof fn lemma_int_token_of(d: Seq<u8>, i: int, s: int, neg: bool, n: nat)
    requires
        0 <= i,
        s == if neg {
            i + 1
        } else {
            i
        },
        neg ==> i < d.len() && d[i] == MINUS,
        s + decimal_bytes(n).len() < d.len(),
        d.subrange(s, s + decimal_bytes(n).len()) == decimal_bytes(n),
        ({
            let b = d[s + decimal_bytes(n).len()];
            !is_digit(b) && b != DOT && b != 0x65 && b != 0x45
        }),
    ensures
        int_token(d, i) == Some((s + decimal_bytes(n).len(), neg, n)),
{
    let len = decimal_bytes(n).len();
    lemma_decimal_bytes_digits(n);
    assert forall|k: int| s <= k < s + len implies is_digit(#[trigger] d[k]) by {
        assert(d.subrange(s, s + len)[k - s] == d[k]);
    }
    assert(d.subrange(s, s + len)[0] == d[s]);
    if !neg {
        assert(d[i] != MINUS);
    }
    if d[s] != ZERO {
        lemma_digits_end_run(d, s, s + len);
    }
    lemma_decimal_value(d, s, n);
}

proof fn lemma_name_idem(d: Seq<u8>, at: int)
    requires
        0 <= at,
        at + 5 <= d.len(),
        d[at] == 0x69u8,
        d[at + 1] == 0x64u8,
        d[at + 2] == 0x65u8,
        d[at + 3] == 0x6du8,
        d[at + 4] == QUOTE,
    ensures
        name_chars(d, at, Seq::empty()) == Some((at + 5, idem_name())),
{
    reveal_with_fuel(name_chars, 6);
    assert(Seq::<u8>::empty().push(d[at]).push(d[at + 1]).push(d[at + 2]).push(d[at + 3])
        =~= idem_name());
}

proof fn lemma_name_delta(d: Seq<u8>, at: int)
    requires
        0 <= at,
        at + 6 <= d.len(),
        d[at] == 0x64u8,
        d[at + 1] == 0x65u8,
        d[at + 2] == 0x6cu8,
        d[at + 3] == 0x74u8,
        d[at + 4] == 0x61u8,
        d[at + 5] == QUOTE,
    ensures
        name_chars(d, at, Seq::empty()) == Some((at + 6, delta_name())),
{
    reveal_with_fuel(name_chars, 7);
    assert(Seq::<u8>::empty().push(d[at]).push(d[at + 1]).push(d[at + 2]).push(d[at + 3]).push(
        d[at + 4],
    ) =~= delta_name());
}

proof fn lemma_members_last(d: Seq<u8>, e2: int, idem: u64, delta: i64)
    requires
        0 <= e2 < d.len(),
        d[e2] == CLOSE_BRACE,
    ensures
        members(d, e2, false, Some(idem), Some(delta)) == Ok::<(int, u64, i64), Seq<char>>(
            (e2 + 1, idem, delta),
        ),
{
    assert(skip_ws(d, e2) == e2);
}

proof fn lemma_members_delta(d: Seq<u8>, e1: int, e2: int, idem: u64, delta: i64)
    requires
        0 <= e1,
        e1 + 9 <= e2 < d.len(),
        d[e1] == COMMA,
        d[e1 + 1] == QUOTE,
        name_chars(d, e1 + 2, Seq::empty()) == Some((e1 + 8, delta_name())),
        d[e1 + 8] == COLON,
        delta_field(d, e1 + 9) == Some((e2, delta)),
        d[e2] == CLOSE_BRACE,
    ensures
        members(d, e1, false, Some(idem), None) == Ok::<(int, u64, i64), Seq<char>>(
            (e2 + 1, idem, delta),
        ),
{
    assert(skip_ws(d, e1) == e1);
    assert(skip_ws(d, e1 + 1) == e1 + 1);
    assert(skip_ws(d, e1 + 8) == e1 + 8);
    assert(idem_name() != delta_name()) by {
        assert(idem_name().len() != delta_name().len());
    }
    lemma_members_last(d, e2, idem, delta);
}

proof fn lemma_members_idem(d: Seq<u8>, e1: int, e2: int, idem: u64, delta: i64)
    requires
        8 < e1 < d.len(),
        d[1] == QUOTE,
        name_chars(d, 2, Seq::empty()) == Some((7int, idem_name())),
        d[7] == COLON,
        idem_field(d, 8) == Some((e1, idem)),
        members(d, e1, false, Some(idem), None) == Ok::<(int, u64, i64), Seq<char>>(
            (e2, idem, delta),
        ),
    ensures
        members(d, 1, true, None, None) == Ok::<(int, u64, i64), Seq<char>>((e2, idem, delta)),
{
    assert(skip_ws(d, 1) == 1);
    assert(skip_ws(d, 7) == 7);
}

proof fn lemma_idem_literal(d: Seq<u8>, s: int, e: int, idem: u64)
    requires
        0 <= s <= e < d.len(),
        d.subrange(s, e) == decimal_bytes(idem as nat),
        d[e] == COMMA,
    ensures
        idem_field(d, s) == Some((e, idem)),
{
    lemma_decimal_bytes_digits(idem as nat);
    assert(d.subrange(s, e)[0] == d[s]);
    assert(skip_ws(d, s) == s);
    lemma_int_token_of(d, s, s, false, idem as nat);
}

proof fn lemma_delta_literal(d: Seq<u8>, s: int, e: int, delta: i64)
    requires
        0 <= s <= e < d.len(),
        d.subrange(s, e) == signed_decimal_bytes(delta as int),
        d[e] == CLOSE_BRACE,
    ensures
        delta_field(d, s) == Some((e, delta)),
{
    let mag: nat = if delta < 0 {
        (-delta) as nat
    } else {
        delta as nat
    };
    lemma_decimal_bytes_digits(mag);
    if delta < 0 {
        assert(signed_decimal_bytes(delta as int) == seq![MINUS] + decimal_bytes(mag));
    } else {
        assert(signed_decimal_bytes(delta as int) == decimal_bytes(mag));
    }
    assert(d.subrange(s, e)[0] == d[s]);
    if delta < 0 {
        assert(d.subrange(s + 1, e) =~= d.subrange(s, e).drop_first());
        assert(signed_decimal_bytes(delta as int).drop_first() =~= decimal_bytes(mag));
        assert(d[s] == MINUS);
        lemma_int_token_of(d, s, s + 1, true, mag);
    } else {
        lemma_int_token_of(d, s, s, false, mag);
    }
    assert(skip_ws(d, s) == s);
    assert(delta_of(delta < 0, mag) == Some(delta));
}

/// Reading the compact text of a command gives the command back.
pub proof fn law_written_cmd_reads_back(idem: u64, delta: i64)
    ensures
        read_cmd(cmd_text(idem, delta)) == Ok::<(u64, i64), Seq<char>>((idem, delta)),
{
    let d = cmd_text(idem, delta);
    let n1 = decimal_bytes(idem as nat);
    let n2 = signed_decimal_bytes(delta as int);
    let e1: int = 8 + n1.len() as int;
    let e2: int = e1 + 9 + n2.len() as int;
    let head = seq![0x7Bu8, 0x22u8, 0x69u8, 0x64u8, 0x65u8, 0x6du8, 0x22u8, 0x3Au8];
    let mid = seq![0x2Cu8, 0x22u8, 0x64u8, 0x65u8, 0x6cu8, 0x74u8, 0x61u8, 0x22u8, 0x3Au8];
    assert(d.len() == e2 + 1);
    assert(d.subrange(0, 8) =~= head);
    assert(d.subrange(8, e1) =~= n1);
    assert(d.subrange(e1, e1 + 9) =~= mid);
    assert(d.subrange(e1 + 9, e2) =~= n2);
    assert(d[e2] == CLOSE_BRACE);
    assert forall|k: int| 0 <= k < 8 implies d[k] == #[trigger] head[k] by {
        assert(d.subrange(0, 8)[k] == d[k]);
    }
    assert forall|k: int| 0 <= k < 9 implies d[e1 + k] == #[trigger] mid[k] by {
        assert(d.subrange(e1, e1 + 9)[k] == d[e1 + k]);
    }
    assert(d[0] == head[0] && d[1] == head[1] && d[2] == head[2] && d[3] == head[3]);
    assert(d[4] == head[4] && d[5] == head[5] && d[6] == head[6] && d[7] == head[7]);
    assert(d[e1] == mid[0] && d[e1 + 1] == mid[1] && d[e1 + 2] == mid[2] && d[e1 + 3] == mid[3]);
    assert(d[e1 + 4] == mid[4] && d[e1 + 5] == mid[5] && d[e1 + 6] == mid[6] && d[e1 + 7]
        == mid[7] && d[e1 + 8] == mid[8]);
    lemma_idem_literal(d, 8, e1, idem);
    lemma_delta_literal(d, e1 + 9, e2, delta);
    // the members, then nothing more
    lemma_name_idem(d, 2);
    lemma_name_delta(d, e1 + 2);
    lemma_members_delta(d, e1, e2, idem, delta);
    lemma_members_idem(d, e1, e2 + 1, idem, delta);
    assert(skip_ws(d, 0) == 0);
    assert(skip_ws(d, e2 + 1) == e2 + 1);
}

} // verus!
