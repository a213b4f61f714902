//! The standby snapshot trigger (a magic log payload that asks standbys to
//! take a durable snapshot asynchronously), the advertisement a standby
//! publishes afterwards, and the identifiers snapshots are stored under.

use vstd::prelude::*;

use crate::text::decimal;

verus! {

/// The magic payload a leader proposes to trigger standby snapshots:
/// a NUL byte, `multiraft.standby_snapshot_trigger`, and a NUL byte.
pub open spec fn trigger_magic() -> Seq<u8> {
    seq![
        0u8, 109u8, 117u8, 108u8, 116u8, 105u8, 114u8, 97u8, 102u8, 116u8, 46u8, 115u8,
        116u8, 97u8, 110u8, 100u8, 98u8, 121u8, 95u8, 115u8, 110u8, 97u8, 112u8, 115u8,
        104u8, 111u8, 116u8, 95u8, 116u8, 114u8, 105u8, 103u8, 103u8, 101u8, 114u8, 0u8,
    ]
}

/// The trigger payload, as bytes to propose.
pub fn standby_snapshot_trigger() -> (r: Vec<u8>)
    ensures
        r@ == trigger_magic(),
{
    let r: Vec<u8> = vec![
        0u8, 109u8, 117u8, 108u8, 116u8, 105u8, 114u8, 97u8, 102u8, 116u8, 46u8, 115u8,
        116u8, 97u8, 110u8, 100u8, 98u8, 121u8, 95u8, 115u8, 110u8, 97u8, 112u8, 115u8,
        104u8, 111u8, 116u8, 95u8, 116u8, 114u8, 105u8, 103u8, 103u8, 101u8, 114u8, 0u8,
    ];
    assert(r@ =~= trigger_magic());
    r
}

/// Whether `data` is exactly the standby snapshot trigger.
pub fn is_standby_snapshot_trigger(data: &[u8]) -> (r: bool)
    ensures
        r == (data@ == trigger_magic()),
{
    let magic = standby_snapshot_trigger();
    if data.len() != magic.len() {
        return false;
    }
    let mut i: usize = 0;
    while i < data.len()
        invariant
            data@.len() == magic@.len(),
            magic@ == trigger_magic(),
            i <= data@.len(),
            forall|j: int| 0 <= j < i ==> data@[j] == magic@[j],
        decreases data@.len() - i,
    {
        if data[i] != magic[i] {
            return false;
        }
        i = i + 1;
    }
    assert(data@ =~= magic@);
    true
}

/// What a standby publishes once a durable snapshot of a group is written:
/// where it ends in the log, its id, size and SHA-256, and where to fetch it.
#[derive(Clone, Debug, PartialEq, Eq)]
pub struct SnapshotAdvertisement {
    pub group: u64,
    pub last_index: u64,
    pub last_term: u64,
    pub snapshot_id: String,
    pub size: u64,
    pub sha256_hex: String,
    /// For example `http://127.0.0.1:23103/snapshots/0/latest`.
    pub fetch_url: String,
}

/// The id of a durable snapshot: `<last index>-<last term>`.
pub open spec fn durable_snapshot_id(last_index: u64, last_term: u64) -> Seq<char> {
    decimal(last_index as nat) + "-"@ + decimal(last_term as nat)
}

/// The id of a durable snapshot ending at `last_index` in `last_term`.
pub fn snapshot_id(last_index: u64, last_term: u64) -> (r: String)
    ensures
        r@ == durable_snapshot_id(last_index, last_term),
{
    let mut r = crate::text::u64_to_decimal(last_index);
    r.append("-");
    crate::text::push_decimal(&mut r, last_term);
    r
}

} // verus!
