//! The JSON calls the library makes, through `serde_json`.

use vstd::prelude::*;

use crate::cmd_json::decimal_bytes;
use crate::cmd_json::signed_decimal_bytes;
use crate::cmd_json::CLOSE_BRACKET;
use crate::cmd_json::COMMA;
use crate::cmd_json::OPEN_BRACKET;

verus! {

/// What `serde_json::from_slice::<(i64, Vec<u64>)>` gives for `bytes`: the
/// pair, or the error's text.
pub uninterp spec fn serde_json_counter_pair_decoded(bytes: Seq<u8>) -> Result<
    (i64, Seq<u64>),
    Seq<char>,
>;

/// The items of a list in decimal, joined by commas.
pub open spec fn comma_decimals(v: Seq<u64>) -> Seq<u8>
    decreases v.len(),
{
    if v.len() == 0 {
        Seq::empty()
    } else if v.len() == 1 {
        decimal_bytes(v[0] as nat)
    } else {
        comma_decimals(v.drop_last()) + seq![COMMA] + decimal_bytes(v.last() as nat)
    }
}

/// The compact JSON text of a counter snapshot `(value, seen)`:
/// `[value,[k1,k2,...]]`.
pub open spec fn counter_pair_text(value: i64, seen: Seq<u64>) -> Seq<u8> {
    seq![OPEN_BRACKET] + signed_decimal_bytes(value as int) + seq![COMMA, OPEN_BRACKET]
        + comma_decimals(seen) + seq![CLOSE_BRACKET, CLOSE_BRACKET]
}

/// Serialises a counter snapshot `(value, seen)` with `serde_json::to_vec`.
///
/// Claims of the outside call: the bytes are the compact text of the pair
/// (a tuple and a vector are JSON arrays, integers are written in decimal,
/// no whitespace), and `serde_json::from_slice::<(i64, Vec<u64>)>` reads the
/// same pair back.
#[verifier::external_body]
pub(crate) fn encode_counter_pair(value: i64, seen: &Vec<u64>) -> (r: Vec<u8>)
    ensures
        r@ == counter_pair_text(value, seen@),
        (serde_json_counter_pair_decoded(r@) == Ok::<(i64, Seq<u64>), Seq<char>>((value, seen@))),
{
    serde_json::to_vec(&(value, seen)).unwrap()
}

/// Parses a counter snapshot with `serde_json::from_slice::<(i64, Vec<u64>)>`.
///
/// Claim of the outside call: the result is the named parse result.
#[verifier::external_body]
pub(crate) fn decode_counter_pair(data: &[u8]) -> (r: Result<(i64, Vec<u64>), String>)
    ensures
        (match r {
            Ok((v, s)) => serde_json_counter_pair_decoded(data@) == Ok::<
                (i64, Seq<u64>),
                Seq<char>,
            >((v, s@)),
            Err(m) => serde_json_counter_pair_decoded(data@) == Err::<(i64, Seq<u64>), Seq<char>>(
                m@,
            ),
        }),
{
    match serde_json::from_slice::<(i64, Vec<u64>)>(data) {
        Ok(p) => Ok(p),
        Err(e) => Err(e.to_string()),
    }
}

} // verus!
