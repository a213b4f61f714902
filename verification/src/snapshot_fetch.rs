//! Resumable snapshot download by HTTP byte ranges.
//!
//! The transfer itself (HEAD/GET requests, the partial file on disk) is
//! driven from outside; this module decides what to request next, which
//! responses are acceptable, where a resumed download starts, and checks the
//! result against its advertised SHA-256.

use vstd::prelude::*;
use vstd::string::StringSliceAdditionalSpecFns;

use crate::digest::sha256_of;
use crate::text::decimal;
use crate::text::hex;
use crate::text::parse_u64_spec;

verus! {

/// Snapshot bytes plus the meta headers served with them.
#[derive(Debug)]
pub struct FetchedSnapshot {
    pub last_index: u64,
    pub last_term: u64,
    pub snapshot_id: Option<String>,
    pub sha256_hex: String,
    pub data: Vec<u8>,
}

/// The position of the first `/` in `b` at or after `from`.
pub open spec fn first_slash_from(b: Seq<u8>, from: int) -> Option<int>
    decreases b.len() - from,
{
    if from >= b.len() || from < 0 {
        None
    } else if b[from] == 47 {
        Some(from)
    } else {
        first_slash_from(b, from + 1)
    }
}

/// The second `/`-separated field of `b` (what `split('/').nth(1)` gives).
pub open spec fn second_field(b: Seq<u8>) -> Option<Seq<u8>> {
    match first_slash_from(b, 0) {
        None => None,
        Some(i) => match first_slash_from(b, i + 1) {
            None => Some(b.subrange(i + 1, b.len() as int)),
            Some(j) => Some(b.subrange(i + 1, j)),
        },
    }
}

/// The total length announced by a `Content-Range: bytes start-end/total`
/// header value: absent when the header is missing, has no `/`, or the total
/// is `*` or not a number.
pub open spec fn content_range_total_spec(value: Option<Seq<u8>>) -> Option<u64> {
    match value {
        None => None,
        Some(b) => match second_field(b) {
            None => None,
            Some(f) => if f == seq![42u8] {
                None
            } else {
                parse_u64_spec(f)
            },
        },
    }
}

/// A numeric header value, as `str::parse::<u64>` reads it.
pub open spec fn header_u64_spec(value: Option<Seq<u8>>) -> Option<u64> {
    match value {
        None => None,
        Some(b) => parse_u64_spec(b),
    }
}

/// The bytes of an optional header value.
pub open spec fn opt_bytes(v: Option<&str>) -> Option<Seq<u8>> {
    match v {
        None => None,
        Some(s) => Some(s.spec_bytes()),
    }
}

fn find_slash(b: &[u8], from: usize) -> (r: Option<usize>)
    requires
        from <= b@.len(),
    ensures
        match r {
            None => first_slash_from(b@, from as int) is None,
            Some(i) => first_slash_from(b@, from as int) == Some(i as int) && from <= i < b@.len(),
        },
    decreases b@.len() - from,
{
    if from >= b.len() {
        None
    } else if b[from] == 47 {
        Some(from)
    } else {
        find_slash(b, from + 1)
    }
}

/// Reads a numeric header value (`X-Snapshot-Index`, `Content-Length`, ...).
pub fn header_u64(value: Option<&str>) -> (r: Option<u64>)
    ensures
        r == header_u64_spec(opt_bytes(value)),
{
    match value {
        None => None,
        Some(s) => crate::text::parse_u64(s),
    }
}

/// Reads the total length from a `Content-Range` header value.
pub fn content_range_total(value: Option<&str>) -> (r: Option<u64>)
    ensures
        r == content_range_total_spec(opt_bytes(value)),
{
    let s = match value {
        None => return None,
        Some(s) => s,
    };
    let b = s.as_bytes();
    let i = match find_slash(b, 0) {
        None => return None,
        Some(i) => i,
    };
    assert(i < b.len());
    let end = match find_slash(b, i + 1) {
        None => b.len(),
        Some(j) => j,
    };
    let field = vstd::slice::slice_subrange(b, i + 1, end);
    if field.len() == 1 && field[0] == 42 {
        proof {
            assert(field@ =~= seq![42u8]);
        }
        return None;
    }
    proof {
        assert(field@ != seq![42u8]);
    }
    crate::text::parse_u64_bytes(field)
}

/// Whether a probe response may be used: a success status (2xx, which
/// includes 206 Partial Content).
pub open spec fn probe_status_ok(status: u16) -> bool {
    200 <= status <= 299 || status == 206
}

/// A probe is usable exactly when its status is a success (`2xx`); a
/// ranged answer (`206 Partial Content`) is one of them.
pub proof fn law_probe_accepts_every_success(status: u16)
    ensures
        probe_status_ok(status) <==> 200 <= status <= 299,
        probe_status_ok(206),
        probe_status_ok(200),
{
}

/// Whether a probe response may be used.
pub fn probe_accepted(status: u16) -> (r: bool)
    ensures
        r == probe_status_ok(status),
        r <==> 200 <= status <= 299,
{
    (200 <= status && status <= 299) || status == 206
}

/// The total size learnt from a successful `HEAD` probe: its
/// `Content-Length`, else the total of its `Content-Range`.
pub fn head_total(content_length: Option<u64>, content_range_total: Option<u64>) -> (r: Option<u64>)
    ensures
        r == match content_length {
            Some(t) => Some(t),
            None => content_range_total,
        },
{
    match content_length {
        Some(t) => Some(t),
        None => content_range_total,
    }
}

/// The total size learnt from the one-byte `GET` used when `HEAD` fails:
/// `Content-Length`, else the `Content-Range` total, else one byte.
pub fn probe_get_total(content_length: Option<u64>, content_range_total: Option<u64>) -> (r: u64)
    ensures
        r == match content_length {
            Some(t) => t,
            None => match content_range_total {
                Some(t) => t,
                None => 1,
            },
        },
{
    match content_length {
        Some(t) => t,
        None => match content_range_total {
            Some(t) => t,
            None => 1,
        },
    }
}

/// Snapshot metadata served in response headers.
pub struct SnapshotHeaders {
    pub last_index: u64,
    pub last_term: u64,
    pub sha256_hex: String,
    pub snapshot_id: Option<String>,
}

/// Collects the metadata headers; index, term and digest are required, in
/// that order.
pub fn snapshot_headers(
    index: Option<u64>,
    term: Option<u64>,
    sha256_hex: Option<String>,
    snapshot_id: Option<String>,
) -> (r: Result<SnapshotHeaders, String>)
    ensures
        index is None ==> (r matches Err(m) && m@ == "missing X-Snapshot-Index header"@),
        index is Some && term is None ==> (r matches Err(m) && m@
            == "missing X-Snapshot-Term header"@),
        index is Some && term is Some && sha256_hex is None ==> (r matches Err(m) && m@
            == "missing X-Snapshot-Sha256 header"@),
        r matches Ok(meta) ==> Some(meta.last_index) == index && Some(meta.last_term) == term
            && Some(meta.sha256_hex) == sha256_hex && meta.snapshot_id == snapshot_id,
        (index is Some && term is Some && sha256_hex is Some) ==> r is Ok,
{
    let last_index = match index {
        None => return Err(String::from_str("missing X-Snapshot-Index header")),
        Some(i) => i,
    };
    let last_term = match term {
        None => return Err(String::from_str("missing X-Snapshot-Term header")),
        Some(t) => t,
    };
    let sha = match sha256_hex {
        None => return Err(String::from_str("missing X-Snapshot-Sha256 header")),
        Some(s) => s,
    };
    Ok(SnapshotHeaders { last_index, last_term, sha256_hex: sha, snapshot_id })
}

/// `fetch <url>: HTTP <status>`.
pub fn http_status_error(url: &str, status: &str) -> (r: String)
    ensures
        r@ == "fetch "@ + url@ + ": HTTP "@ + status@,
{
    let mut r = String::from_str("fetch ");
    r.append(url);
    r.append(": HTTP ");
    r.append(status);
    r
}

/// `fetch <url> range <range>: HTTP <status>`.
pub fn range_status_error(url: &str, range: &str, status: u16) -> (r: String)
    ensures
        r@ == "fetch "@ + url@ + " range "@ + range@ + ": HTTP "@ + decimal(status as nat),
{
    let mut r = String::from_str("fetch ");
    r.append(url);
    r.append(" range ");
    r.append(range);
    r.append(": HTTP ");
    crate::text::push_decimal(&mut r, status as u64);
    r
}

/// `empty range body for <range>`.
pub fn empty_range_error(range: &str) -> (r: String)
    ensures
        r@ == "empty range body for "@ + range@,
{
    let mut r = String::from_str("empty range body for ");
    r.append(range);
    r
}

/// The `Range` header value `bytes=<start>-<end>`.
pub fn range_header(start: u64, end: u64) -> (r: String)
    ensures
        r@ == "bytes="@ + decimal(start as nat) + "-"@ + decimal(end as nat),
{
    let mut r = String::from_str("bytes=");
    crate::text::push_decimal(&mut r, start);
    r.append("-");
    crate::text::push_decimal(&mut r, end);
    r
}

/// Checks downloaded bytes against the advertised lower-case hex SHA-256.
pub fn verify_sha(data: &[u8], expected: &str) -> (r: Result<(), String>)
    ensures
        r is Ok <==> hex(sha256_of(data@)) == expected@,
        r matches Err(m) ==> m@ == "snapshot sha256 mismatch: expected "@ + expected@ + ", got "@
            + hex(sha256_of(data@)),
{
    let actual = crate::digest::hex_sha256(data);
    let want = String::from_str(expected);
    if actual == want {
        Ok(())
    } else {
        let mut m = String::from_str("snapshot sha256 mismatch: expected ");
        m.append(expected);
        m.append(", got ");
        m.append(actual.as_str());
        Err(m)
    }
}

/// Completes a download: the bytes are kept only when their SHA-256 matches
/// the advertised digest; the snapshot then carries the served metadata.
pub fn finish_fetch(headers: SnapshotHeaders, data: Vec<u8>) -> (r: Result<FetchedSnapshot, String>)
    ensures
        r is Ok <==> hex(sha256_of(data@)) == headers.sha256_hex@,
        r matches Ok(f) ==> f.last_index == headers.last_index && f.last_term == headers.last_term
            && f.snapshot_id == headers.snapshot_id && f.sha256_hex == headers.sha256_hex && f.data@
            == data@,
        r matches Err(m) ==> m@ == "snapshot sha256 mismatch: expected "@ + headers.sha256_hex@
            + ", got "@ + hex(sha256_of(data@)),
{
    match verify_sha(data.as_slice(), headers.sha256_hex.as_str()) {
        Err(m) => Err(m),
        Ok(()) => Ok(
            FetchedSnapshot {
                last_index: headers.last_index,
                last_term: headers.last_term,
                snapshot_id: headers.snapshot_id,
                sha256_hex: headers.sha256_hex,
                data,
            },
        ),
    }
}

/// The partial-download file for `url` and its digest under `temp_dir`.
pub fn temp_path_for_url(temp_dir: &str, url: &str, sha: &str) -> (r: String)
    ensures
        r@ == crate::config::path_join(temp_dir@, temp_file_name_spec(url@, sha@)),
{
    let name = temp_file_name(url, sha);
    crate::config::join_path(temp_dir, name.as_str())
}

/// The name of the partial-download file for a snapshot: the first 16 hex
/// characters of SHA-256 over the URL followed by the digest text.
pub open spec fn temp_file_name_spec(url: Seq<char>, sha: Seq<char>) -> Seq<char> {
    "multiraft-snap-"@ + hex(
        sha256_of(vstd::utf8::encode_utf8(url) + vstd::utf8::encode_utf8(sha)).subrange(0, 8),
    ) + ".partial"@
}

/// The partial-download file name for `url` and its advertised digest;
/// stable for the same pair, so an interrupted download resumes.
pub fn temp_file_name(url: &str, sha: &str) -> (r: String)
    ensures
        r@ == temp_file_name_spec(url@, sha@),
{
    let mut input = vstd::slice::slice_to_vec(url.as_bytes());
    let tail = sha.as_bytes();
    let ghost first = input@;
    let mut i: usize = 0;
    while i < tail.len()
        invariant
            i <= tail@.len(),
            input@ == first + tail@.subrange(0, i as int),
        decreases tail@.len() - i,
    {
        input.push(tail[i]);
        proof {
            assert(first + tail@.subrange(0, i as int + 1) =~= (first + tail@.subrange(0, i as int)).push(tail@[i as int]));
        }
        i = i + 1;
    }
    proof {
        assert(tail@.subrange(0, tail@.len() as int) =~= tail@);
    }
    let d = crate::digest::sha256(input.as_slice());
    let h = crate::text::hex_lower(vstd::slice::slice_subrange(d.as_slice(), 0, 8));
    let mut r = String::from_str("multiraft-snap-");
    r.append(h.as_str());
    r.append(".partial");
    r
}

/// What to do with the reply to a range request.
#[derive(PartialEq, Eq, Structural, Clone, Copy, Debug)]
pub enum RangeReply {
    /// 206: append the body to the partial file.
    Partial,
    /// 200 at offset zero: the server ignored the range and sent everything.
    Whole,
    /// Anything else: the download fails.
    Refused,
}

/// Progress of a ranged download.
pub struct RangeFetch {
    total: u64,
    chunk: u64,
    offset: u64,
}

/// Abstract progress: total size, chunk size, bytes held so far.
pub struct RangeFetchState {
    pub total: nat,
    pub chunk: nat,
    pub offset: nat,
}

impl View for RangeFetch {
    type V = RangeFetchState;

    closed spec fn view(&self) -> RangeFetchState {
        RangeFetchState { total: self.total as nat, chunk: self.chunk as nat, offset: self.offset as nat }
    }
}

/// The last byte of the next range: a whole chunk, cut at the end of the
/// snapshot.
pub open spec fn range_end(s: RangeFetchState) -> nat {
    if s.offset + s.chunk - 1 <= s.total - 1 {
        (s.offset + s.chunk - 1) as nat
    } else {
        (s.total - 1) as nat
    }
}

impl RangeFetch {
    #[verifier::type_invariant]
    closed spec fn chunk_positive(&self) -> bool {
        self.chunk >= 1
    }

    /// Starts (or resumes) a download of `total` bytes in chunks of
    /// `chunk_bytes` (at least one). A partial file of `existing` bytes is
    /// resumed; one longer than the snapshot is discarded (second result
    /// `true`) and the download starts over.
    pub fn start(chunk_bytes: usize, total: u64, existing: Option<u64>) -> (r: (RangeFetch, bool))
        ensures
            r.0@.total == total,
            r.0@.chunk >= 1,
            r.0@.chunk == if chunk_bytes == 0 {
                1
            } else {
                chunk_bytes as nat
            },
            r.0@.offset == match existing {
                Some(n) => if n > total {
                    0
                } else {
                    n as nat
                },
                None => 0,
            },
            r.1 == (existing matches Some(n) && n > total),
    {
        let chunk: u64 = if chunk_bytes == 0 {
            1
        } else {
            chunk_bytes as u64
        };
        let (offset, discard) = match existing {
            Some(n) => if n > total {
                (0, true)
            } else {
                (n, false)
            },
            None => (0, false),
        };
        (RangeFetch { total, chunk, offset }, discard)
    }

    /// Whether every byte is held.
    pub fn done(&self) -> (r: bool)
        ensures
            r == (self@.offset >= self@.total),
            self@.chunk >= 1,
    {
        proof {
            use_type_invariant(self);
        }
        self.offset >= self.total
    }

    /// Bytes held so far.
    pub fn offset(&self) -> (r: u64)
        ensures
            r == self@.offset,
    {
        self.offset
    }

    /// The chunk size.
    pub fn chunk(&self) -> (r: u64)
        ensures
            r == self@.chunk,
            r >= 1,
    {
        proof {
            use_type_invariant(self);
        }
        self.chunk
    }

    /// The next byte range to request, both ends inclusive: from the current
    /// offset, one chunk long, cut at the snapshot's last byte.
    pub fn next_range(&self) -> (r: (u64, u64))
        requires
            self@.offset < self@.total,
            self@.offset + self@.chunk - 1 <= u64::MAX,
        ensures
            r.0 == self@.offset,
            r.1 == range_end(self@),
            r.0 <= r.1 < self@.total,
            r.1 - r.0 + 1 <= self@.chunk,
    {
        proof {
            use_type_invariant(self);
        }
        let want = self.offset + (self.chunk - 1);
        let last = self.total - 1;
        let end = if want <= last {
            want
        } else {
            last
        };
        (self.offset, end)
    }

    /// Classifies the status of a range reply.
    pub fn reply_kind(&self, status: u16) -> (r: RangeReply)
        ensures
            r == if status == 206 {
                RangeReply::Partial
            } else if status == 200 && self@.offset == 0 {
                RangeReply::Whole
            } else {
                RangeReply::Refused
            },
    {
        if status == 206 {
            RangeReply::Partial
        } else if status == 200 && self.offset == 0 {
            RangeReply::Whole
        } else {
            RangeReply::Refused
        }
    }

    /// Accounts for a partial body of `len` bytes appended to the file; an
    /// empty body is refused (`false`) and changes nothing.
    pub fn accept_body(&mut self, len: u64) -> (r: bool)
        requires
            old(self)@.offset + len <= u64::MAX,
        ensures
            r == (len > 0),
            r ==> final(self)@ == (RangeFetchState { offset: (old(self)@.offset + len) as nat, ..old(self)@ }),
            !r ==> final(self)@ == old(self)@,
    {
        proof {
            use_type_invariant(&*self);
        }
        if len == 0 {
            return false;
        }
        self.offset = self.offset + len;
        true
    }
}

/// Consecutive ranges tile the snapshot: when a reply carries exactly the
/// requested bytes, the next range starts right after the previous one, and
/// the download ends once the last byte is held.
pub proof fn law_ranges_are_contiguous(s: RangeFetchState)
    requires
        s.offset < s.total,
        s.chunk >= 1,
    ensures
        ({
            let end = range_end(s);
            let next = RangeFetchState { offset: (s.offset + (end - s.offset + 1)) as nat, ..s };
            &&& next.offset == end + 1
            &&& next.offset <= s.total
            &&& next.offset > s.offset
            &&& (next.offset < s.total ==> range_end(s) + 1 == next.offset && next.offset
                + next.chunk - 1 >= next.offset)
        }),
{
}

} // verus!
