//! The on-disk framing of the Raft log: each serialized entry is stored as a
//! little-endian `u32` length followed by that many bytes, appended one after
//! another.

use vstd::prelude::*;

use crate::text::decimal;

verus! {

/// Why a byte buffer is not a valid sequence of frames, or a frame cannot be
/// written.
#[derive(Debug)]
pub enum FrameError {
    /// A payload longer than `u32::MAX` bytes cannot be framed.
    TooLarge,
    /// A frame's length runs past the end of the buffer; `at` is the offset
    /// just after its length prefix.
    Truncated { at: usize },
    /// Fewer than four bytes are left after the last whole frame.
    Trailing { count: usize },
}

/// Little-endian encoding of a 32-bit length.
pub open spec fn le_u32_bytes(x: nat) -> Seq<u8> {
    seq![(x % 256) as u8, ((x / 256) % 256) as u8, ((x / 65536) % 256) as u8, ((x / 16777216) % 256) as u8]
}

/// The value of four little-endian bytes.
pub open spec fn le_u32_value(b: Seq<u8>) -> nat {
    (b[0] + 256 * b[1] + 65536 * b[2] + 16777216 * b[3]) as nat
}

/// One frame: the payload's length prefix, then the payload.
pub open spec fn frame_bytes(payload: Seq<u8>) -> Seq<u8> {
    le_u32_bytes(payload.len()) + payload
}

/// Frames laid out one after another.
pub open spec fn frames_bytes(payloads: Seq<Seq<u8>>) -> Seq<u8>
    decreases payloads.len(),
{
    if payloads.len() == 0 {
        Seq::empty()
    } else {
        frame_bytes(payloads[0]) + frames_bytes(payloads.drop_first())
    }
}

/// Every payload fits a 32-bit length prefix.
pub open spec fn all_frameable(payloads: Seq<Seq<u8>>) -> bool {
    forall|i: int| 0 <= i < payloads.len() ==> #[trigger] payloads[i].len() <= u32::MAX
}

/// Reading frames from `off` to the end of `b`.
pub open spec fn decode_frames_from(b: Seq<u8>, off: nat) -> Result<Seq<Seq<u8>>, FrameError>
    decreases b.len() - off,
{
    if off + 4 > b.len() {
        if off == b.len() {
            Ok(Seq::empty())
        } else {
            Err(FrameError::Trailing { count: (b.len() - off) as usize })
        }
    } else {
        let len = le_u32_value(b.subrange(off as int, off + 4 as int));
        let start = off + 4;
        if start + len > b.len() {
            Err(FrameError::Truncated { at: start as usize })
        } else {
            match decode_frames_from(b, start + len) {
                Ok(rest) => Ok(seq![b.subrange(start as int, (start + len) as int)] + rest),
                Err(e) => Err(e),
            }
        }
    }
}

/// Reading a whole buffer of frames.
pub open spec fn decode_frames_spec(b: Seq<u8>) -> Result<Seq<Seq<u8>>, FrameError> {
    decode_frames_from(b, 0)
}

proof fn lemma_le_u32_roundtrip(x: nat)
    requires
        x <= u32::MAX,
    ensures
        le_u32_value(le_u32_bytes(x)) == x,
{
    let b0 = x % 256;
    let b1 = (x / 256) % 256;
    let b2 = (x / 65536) % 256;
    let b3 = (x / 16777216) % 256;
    assert(b0 + 256 * b1 + 65536 * b2 + 16777216 * b3 == x) by (nonlinear_arith)
        requires
            x <= 4294967295,
            b0 == x % 256,
            b1 == (x / 256) % 256,
            b2 == (x / 65536) % 256,
            b3 == (x / 16777216) % 256,
    ;
}

proof fn lemma_decode_frames_suffix(prefix: Seq<u8>, payloads: Seq<Seq<u8>>)
    requires
        all_frameable(payloads),
    ensures
        decode_frames_from(prefix + frames_bytes(payloads), prefix.len()) == Ok::<
            Seq<Seq<u8>>,
            FrameError,
        >(payloads),
    decreases payloads.len(),
{
    let b = prefix + frames_bytes(payloads);
    if payloads.len() == 0 {
        assert(b =~= prefix);
        assert(payloads =~= Seq::<Seq<u8>>::empty());
    } else {
        let p = payloads[0];
        let rest = payloads.drop_first();
        let off = prefix.len();
        assert(p.len() <= u32::MAX);
        lemma_le_u32_roundtrip(p.len());
        assert(b.subrange(off as int, off + 4 as int) =~= le_u32_bytes(p.len()));
        assert(b.subrange(off + 4 as int, (off + 4 + p.len()) as int) =~= p);
        let prefix2 = prefix + frame_bytes(p);
        assert(b =~= prefix2 + frames_bytes(rest));
        assert(all_frameable(rest)) by {
            assert forall|i: int| 0 <= i < rest.len() implies #[trigger] rest[i].len() <= u32::MAX by {
                assert(rest[i] == payloads[i + 1]);
            }
        }
        lemma_decode_frames_suffix(prefix2, rest);
        assert(seq![p] + rest =~= payloads);
    }
}

/// Round trip: reading back frames written for payloads that fit gives the
/// payloads, in order.
pub proof fn law_frames_roundtrip(payloads: Seq<Seq<u8>>)
    requires
        all_frameable(payloads),
    ensures
        decode_frames_spec(frames_bytes(payloads)) == Ok::<Seq<Seq<u8>>, FrameError>(payloads),
{
    lemma_decode_frames_suffix(Seq::empty(), payloads);
    assert(Seq::<u8>::empty() + frames_bytes(payloads) =~= frames_bytes(payloads));
}

/// Appending a frame to the frames of a list is the frames of the longer
/// list.
pub proof fn law_frames_append(payloads: Seq<Seq<u8>>, p: Seq<u8>)
    ensures
        frames_bytes(payloads.push(p)) == frames_bytes(payloads) + frame_bytes(p),
    decreases payloads.len(),
{
    if payloads.len() == 0 {
        assert(payloads.push(p).drop_first() =~= Seq::<Seq<u8>>::empty());
        assert(payloads.push(p)[0] == p);
        assert(frames_bytes(Seq::<Seq<u8>>::empty()) =~= Seq::<u8>::empty());
        assert(frames_bytes(payloads.push(p)) =~= frame_bytes(p) + Seq::<u8>::empty());
        assert(frames_bytes(payloads) + frame_bytes(p) =~= frame_bytes(p));
    } else {
        law_frames_append(payloads.drop_first(), p);
        assert(payloads.push(p).drop_first() =~= payloads.drop_first().push(p));
        assert(payloads.push(p)[0] == payloads[0]);
        assert(frames_bytes(payloads.push(p)) =~= frame_bytes(payloads[0]) + (frames_bytes(
            payloads.drop_first(),
        ) + frame_bytes(p)));
    }
}

/// Appends one frame for `payload` to `buf`; a payload too long for a
/// 32-bit length leaves `buf` unchanged and is refused.
pub fn push_frame(buf: &mut Vec<u8>, payload: &[u8]) -> (r: Result<(), FrameError>)
    ensures
        payload@.len() <= u32::MAX ==> r is Ok && final(buf)@ == old(buf)@ + frame_bytes(payload@),
        payload@.len() > u32::MAX ==> (r matches Err(FrameError::TooLarge)) && final(buf)@ == old(
            buf,
        )@,
{
    if payload.len() > 4294967295usize {
        return Err(FrameError::TooLarge);
    }
    let len: u32 = payload.len() as u32;
    let ghost pre = buf@;
    buf.push((len % 256) as u8);
    buf.push(((len / 256) % 256) as u8);
    buf.push(((len / 65536) % 256) as u8);
    buf.push(((len / 16777216) % 256) as u8);
    let mut i: usize = 0;
    while i < payload.len()
        invariant
            i <= payload@.len(),
            buf@ == pre + le_u32_bytes(payload@.len()) + payload@.subrange(0, i as int),
        decreases payload@.len() - i,
    {
        buf.push(payload[i]);
        proof {
            assert(payload@.subrange(0, i as int + 1) =~= payload@.subrange(0, i as int).push(
                payload@[i as int],
            ));
        }
        i = i + 1;
        proof {
            assert(buf@ =~= pre + le_u32_bytes(payload@.len()) + payload@.subrange(0, i as int));
        }
    }
    proof {
        assert(payload@.subrange(0, payload@.len() as int) =~= payload@);
        assert(buf@ =~= pre + frame_bytes(payload@));
    }
    Ok(())
}

/// Frames all payloads into one buffer, stopping at the first payload too
/// long for a 32-bit length.
pub fn encode_frames(payloads: &Vec<Vec<u8>>) -> (r: Result<Vec<u8>, FrameError>)
    ensures
        match r {
            Ok(b) => all_frameable(payloads@.map_values(|p: Vec<u8>| p@)) && b@ == frames_bytes(
                payloads@.map_values(|p: Vec<u8>| p@),
            ),
            Err(e) => !all_frameable(payloads@.map_values(|p: Vec<u8>| p@)) && (e
                matches FrameError::TooLarge),
        },
{
    let ghost all = payloads@.map_values(|p: Vec<u8>| p@);
    let mut buf: Vec<u8> = Vec::new();
    let mut i: usize = 0;
    while i < payloads.len()
        invariant
            i <= payloads@.len(),
            all == payloads@.map_values(|p: Vec<u8>| p@),
            all_frameable(all.subrange(0, i as int)),
            buf@ == frames_bytes(all.subrange(0, i as int)),
        decreases payloads@.len() - i,
    {
        let ghost pre = all.subrange(0, i as int);
        match push_frame(&mut buf, payloads[i].as_slice()) {
            Ok(()) => {},
            Err(e) => {
                assert(!(all[i as int].len() <= u32::MAX));
                return Err(e);
            },
        }
        proof {
            law_frames_append(pre, all[i as int]);
            assert(all.subrange(0, i as int + 1) =~= pre.push(all[i as int]));
        }
        i = i + 1;
    }
    proof {
        assert(all.subrange(0, payloads@.len() as int) =~= all);
    }
    Ok(buf)
}

/// Reads a buffer of frames back into payloads, front to back; fails on a
/// frame that runs past the end or on trailing bytes too short for a length.
pub fn decode_frames(bytes: &[u8]) -> (r: Result<Vec<Vec<u8>>, FrameError>)
    ensures
        match r {
            Ok(v) => decode_frames_spec(bytes@) == Ok::<Seq<Seq<u8>>, FrameError>(
                v@.map_values(|p: Vec<u8>| p@),
            ),
            Err(e) => decode_frames_spec(bytes@) == Err::<Seq<Seq<u8>>, FrameError>(e),
        },
{
    let n = bytes.len();
    let mut out: Vec<Vec<u8>> = Vec::new();
    let mut off: usize = 0;
    while n - off >= 4
        invariant
            n == bytes@.len(),
            off <= n,
            match decode_frames_from(bytes@, off as nat) {
                Ok(rest) => decode_frames_spec(bytes@) == Ok::<Seq<Seq<u8>>, FrameError>(
                    out@.map_values(|p: Vec<u8>| p@) + rest,
                ),
                Err(e) => decode_frames_spec(bytes@) == Err::<Seq<Seq<u8>>, FrameError>(e),
            },
        decreases n - off,
    {
        let len: usize = bytes[off] as usize + 256 * (bytes[off + 1] as usize) + 65536 * (bytes[off
            + 2] as usize) + 16777216 * (bytes[off + 3] as usize);
        proof {
            let w = bytes@.subrange(off as int, off + 4);
            assert(w[0] == bytes@[off as int] && w[1] == bytes@[off + 1] && w[2] == bytes@[off + 2]
                && w[3] == bytes@[off + 3]);
            assert(len as nat == le_u32_value(w));
        }
        let start = off + 4;
        if len > n - start {
            return Err(FrameError::Truncated { at: start });
        }
        let payload = vstd::slice::slice_to_vec(vstd::slice::slice_subrange(bytes, start, start + len));
        proof {
            let ghost pre_out = out@.map_values(|p: Vec<u8>| p@);
            match decode_frames_from(bytes@, (start + len) as nat) {
                Ok(rest) => {
                    assert(out@.push(payload).map_values(|p: Vec<u8>| p@) =~= pre_out.push(
                        payload@,
                    ));
                    assert(pre_out.push(payload@) + rest =~= pre_out + (seq![payload@] + rest));
                },
                Err(_) => {},
            }
        }
        out.push(payload);
        off = start + len;
    }
    if off != n {
        return Err(FrameError::Trailing { count: n - off });
    }
    proof {
        assert(out@.map_values(|p: Vec<u8>| p@) + Seq::<Seq<u8>>::empty() =~= out@.map_values(
            |p: Vec<u8>| p@,
        ));
    }
    Ok(out)
}

/// The text of a frame error met in the log file at `path`.
pub open spec fn frame_error_text(path: Seq<char>, e: FrameError) -> Seq<char> {
    match e {
        FrameError::TooLarge => "entry too large"@,
        FrameError::Truncated { at } => path + ": truncated frame at "@ + decimal(at as nat),
        FrameError::Trailing { count } => path + ": trailing "@ + decimal(count as nat) + " bytes"@,
    }
}

impl FrameError {
    /// The error's text for the log file at `path`.
    pub fn describe(&self, path: &str) -> (r: String)
        ensures
            r@ == frame_error_text(path@, *self),
    {
        match self {
            FrameError::TooLarge => String::from_str("entry too large"),
            FrameError::Truncated { at } => {
                let mut r = String::from_str(path);
                r.append(": truncated frame at ");
                crate::text::push_decimal(&mut r, *at as u64);
                r
            },
            FrameError::Trailing { count } => {
                let mut r = String::from_str(path);
                r.append(": trailing ");
                crate::text::push_decimal(&mut r, *count as u64);
                r.append(" bytes");
                r
            },
        }
    }
}

/// Where a group's log is loaded from when the store opens.
#[derive(PartialEq, Eq, Structural, Clone, Copy, Debug)]
pub enum LogSource {
    /// The framed binary log.
    Binary,
    /// An older log of one JSON entry per line, migrated once.
    Ndjson,
    /// The oldest log, one JSON array of entries, migrated once.
    LegacyJson,
    /// No log yet.
    Empty,
}

/// The binary log wins; otherwise the newest older format present.
pub fn log_source(bin_exists: bool, ndjson_exists: bool, legacy_exists: bool) -> (r: LogSource)
    ensures
        r == if bin_exists {
            LogSource::Binary
        } else if ndjson_exists {
            LogSource::Ndjson
        } else if legacy_exists {
            LogSource::LegacyJson
        } else {
            LogSource::Empty
        },
{
    if bin_exists {
        LogSource::Binary
    } else if ndjson_exists {
        LogSource::Ndjson
    } else if legacy_exists {
        LogSource::LegacyJson
    } else {
        LogSource::Empty
    }
}

/// Whether a loaded log is to be rewritten as the binary log: a non-empty
/// log read from an older format.
pub fn needs_migration(source: LogSource, entries: usize) -> (r: bool)
    ensures
        r == (source != LogSource::Binary && entries > 0),
{
    match source {
        LogSource::Binary => false,
        _ => entries > 0,
    }
}

/// `<path>:<line>: <detail>`: an unreadable line of an older log.
pub fn line_error(path: &str, line: u64, detail: &str) -> (r: String)
    ensures
        r@ == path@ + ":"@ + decimal(line as nat) + ": "@ + detail@,
{
    let mut r = String::from_str(path);
    r.append(":");
    crate::text::push_decimal(&mut r, line);
    r.append(": ");
    r.append(detail);
    r
}

} // verus!
