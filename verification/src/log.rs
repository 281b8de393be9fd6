//! The record framing of the append-only log.
//!
//! A log is a flat sequence of records. Each record is the length of its
//! payload as eight big-endian bytes, followed by the payload. Reading stops
//! at the first place where no whole record is left: a tail cut off in the
//! middle of a write is passed over, not reported.

use byteorder::{BigEndian, ByteOrder};
use vstd::prelude::*;
use crate::error::StoreError;
use vstd::slice::slice_to_vec;
use vstd::arithmetic::div_mod::lemma_div_denominator;

verus! {

/// The number that eight bytes spell, most significant byte first.
pub open spec fn be_value(b: Seq<u8>) -> int {
    b[0] * 0x100_0000_0000_0000 + b[1] * 0x1_0000_0000_0000 + b[2] * 0x100_0000_0000 + b[3]
        * 0x1_0000_0000 + b[4] * 0x100_0000 + b[5] * 0x1_0000 + b[6] * 0x100 + b[7]
}

/// The eight bytes that spell `n`, most significant byte first.
pub open spec fn be_bytes(n: u64) -> Seq<u8> {
    seq![
        ((n as int / 0x100_0000_0000_0000) % 256) as u8,
        ((n as int / 0x1_0000_0000_0000) % 256) as u8,
        ((n as int / 0x100_0000_0000) % 256) as u8,
        ((n as int / 0x1_0000_0000) % 256) as u8,
        ((n as int / 0x100_0000) % 256) as u8,
        ((n as int / 0x1_0000) % 256) as u8,
        ((n as int / 0x100) % 256) as u8,
        (n as int % 256) as u8,
    ]
}

/// A payload with its length prefix.
pub open spec fn frame(payload: Seq<u8>) -> Seq<u8> {
    be_bytes(payload.len() as u64) + payload
}

/// The log that holds the given payloads, in order.
pub open spec fn frames(payloads: Seq<Seq<u8>>) -> Seq<u8>
    decreases payloads.len(),
{
    if payloads.len() == 0 {
        Seq::empty()
    } else {
        frame(payloads[0]) + frames(payloads.drop_first())
    }
}

/// Whether `log` starts with a whole record.
pub open spec fn starts_with_record(log: Seq<u8>) -> bool {
    log.len() >= 8 && be_value(log.subrange(0, 8)) <= log.len() - 8
}

/// Length of the first record of `log`, prefix included.
pub open spec fn first_record_len(log: Seq<u8>) -> int {
    8 + be_value(log.subrange(0, 8))
}

/// The payloads of the whole records at the start of `log`.
pub open spec fn records(log: Seq<u8>) -> Seq<Seq<u8>>
    decreases log.len(),
{
    if starts_with_record(log) {
        seq![log.subrange(8, first_record_len(log))] + records(
            log.subrange(first_record_len(log), log.len() as int),
        )
    } else {
        Seq::empty()
    }
}

/// Number of bytes that the whole records at the start of `log` take.
pub open spec fn consumed(log: Seq<u8>) -> int
    decreases log.len(),
{
    if starts_with_record(log) {
        first_record_len(log) + consumed(log.subrange(first_record_len(log), log.len() as int))
    } else {
        0
    }
}

/// Reading the bytes of a number gives the number back.
pub proof fn lemma_be_round_trip(n: u64)
    ensures
        be_bytes(n).len() == 8,
        be_value(be_bytes(n)) == n,
{
    let x: int = n as int;
    let d1 = x / 0x100;
    let d2 = x / 0x1_0000;
    let d3 = x / 0x100_0000;
    let d4 = x / 0x1_0000_0000;
    let d5 = x / 0x100_0000_0000;
    let d6 = x / 0x1_0000_0000_0000;
    let d7 = x / 0x100_0000_0000_0000;
    lemma_div_denominator(x, 0x100, 0x100);
    lemma_div_denominator(x, 0x1_0000, 0x100);
    lemma_div_denominator(x, 0x100_0000, 0x100);
    lemma_div_denominator(x, 0x1_0000_0000, 0x100);
    lemma_div_denominator(x, 0x100_0000_0000, 0x100);
    lemma_div_denominator(x, 0x1_0000_0000_0000, 0x100);
    assert(d2 == d1 / 0x100);
    assert(d3 == d2 / 0x100);
    assert(d4 == d3 / 0x100);
    assert(d5 == d4 / 0x100);
    assert(d6 == d5 / 0x100);
    assert(d7 == d6 / 0x100);
    assert(x == d1 * 0x100 + x % 0x100);
    assert(d1 == d2 * 0x100 + d1 % 0x100);
    assert(d2 == d3 * 0x100 + d2 % 0x100);
    assert(d3 == d4 * 0x100 + d3 % 0x100);
    assert(d4 == d5 * 0x100 + d4 % 0x100);
    assert(d5 == d6 * 0x100 + d5 % 0x100);
    assert(d6 == d7 * 0x100 + d6 % 0x100);
    assert(0 <= d7 < 0x100);
    assert(d7 % 0x100 == d7);
    let b = be_bytes(n);
    assert(b[0] == d7 % 256);
    assert(b[1] == d6 % 256);
    assert(b[2] == d5 % 256);
    assert(b[3] == d4 % 256);
    assert(b[4] == d3 % 256);
    assert(b[5] == d2 % 256);
    assert(b[6] == d1 % 256);
    assert(b[7] == x % 256);
}

/// A log that starts with a frame yields its payload, then whatever the
/// rest yields.
pub proof fn lemma_records_of_frame(payload: Seq<u8>, rest: Seq<u8>)
    requires
        payload.len() <= u64::MAX,
    ensures
        records(frame(payload) + rest) == seq![payload] + records(rest),
        consumed(frame(payload) + rest) == frame(payload).len() + consumed(rest),
        frame(payload).len() == 8 + payload.len(),
{
    let log = frame(payload) + rest;
    lemma_be_round_trip(payload.len() as u64);
    assert(log.subrange(0, 8) =~= be_bytes(payload.len() as u64));
    assert(log.subrange(8, 8 + payload.len() as int) =~= payload);
    assert(log.subrange(8 + payload.len() as int, log.len() as int) =~= rest);
}

/// Reading a log of whole records gives every payload back, in order, and
/// leaves nothing over.
pub proof fn lemma_records_of_frames(payloads: Seq<Seq<u8>>)
    requires
        forall|i: int| 0 <= i < payloads.len() ==> (#[trigger] payloads[i]).len() <= u64::MAX,
    ensures
        records(frames(payloads)) == payloads,
        consumed(frames(payloads)) == frames(payloads).len(),
    decreases payloads.len(),
{
    if payloads.len() == 0 {
        assert(records(frames(payloads)) =~= payloads);
    } else {
        let rest = payloads.drop_first();
        assert forall|i: int| 0 <= i < rest.len() implies (#[trigger] rest[i]).len()
            <= u64::MAX by {
            assert(rest[i] == payloads[i + 1]);
        }
        lemma_records_of_frames(rest);
        lemma_records_of_frame(payloads[0], frames(rest));
        assert(seq![payloads[0]] + rest =~= payloads);
    }
}

/// A frame cut short holds no record: neither a part of the prefix nor a
/// prefix with a part of the payload.
pub proof fn lemma_cut_frame_is_empty(payload: Seq<u8>, cut: int)
    requires
        payload.len() <= u64::MAX,
        0 <= cut < frame(payload).len(),
    ensures
        records(frame(payload).subrange(0, cut)) == Seq::<Seq<u8>>::empty(),
        consumed(frame(payload).subrange(0, cut)) == 0,
{
    let part = frame(payload).subrange(0, cut);
    lemma_be_round_trip(payload.len() as u64);
    if cut >= 8 {
        assert(part.subrange(0, 8) =~= be_bytes(payload.len() as u64));
    }
}

/// Reading goes through the whole records whatever follows them, and past
/// them finds what the rest alone would give.
pub proof fn lemma_records_append(payloads: Seq<Seq<u8>>, tail: Seq<u8>)
    requires
        forall|i: int| 0 <= i < payloads.len() ==> (#[trigger] payloads[i]).len() <= u64::MAX,
    ensures
        records(frames(payloads) + tail) == payloads + records(tail),
        consumed(frames(payloads) + tail) == frames(payloads).len() + consumed(tail),
    decreases payloads.len(),
{
    if payloads.len() == 0 {
        assert(frames(payloads) + tail =~= tail);
        assert(payloads + records(tail) =~= records(tail));
    } else {
        let rest = payloads.drop_first();
        assert forall|i: int| 0 <= i < rest.len() implies (#[trigger] rest[i]).len()
            <= u64::MAX by {
            assert(rest[i] == payloads[i + 1]);
        }
        lemma_records_append(rest, tail);
        lemma_records_of_frame(payloads[0], frames(rest) + tail);
        assert(frames(payloads) + tail =~= frame(payloads[0]) + (frames(rest) + tail));
        assert(seq![payloads[0]] + (rest + records(tail)) =~= payloads + records(tail));
    }
}

/// The log after one more payload has been appended.
pub proof fn lemma_frames_push(payloads: Seq<Seq<u8>>, payload: Seq<u8>)
    ensures
        frames(payloads.push(payload)) == frames(payloads) + frame(payload),
    decreases payloads.len(),
{
    if payloads.len() == 0 {
        assert(payloads.push(payload).drop_first() =~= payloads);
        assert(frames(payloads.push(payload)) =~= frames(payloads) + frame(payload));
    } else {
        lemma_frames_push(payloads.drop_first(), payload);
        assert(payloads.push(payload).drop_first() =~= payloads.drop_first().push(payload));
        assert(frames(payloads.push(payload)) =~= frames(payloads) + frame(payload));
    }
}

/// Appending a record to a log of whole records adds its payload to what
/// reading the log gives, and nothing else changes.
pub proof fn lemma_append_then_replay(payloads: Seq<Seq<u8>>, payload: Seq<u8>)
    requires
        forall|i: int| 0 <= i < payloads.len() ==> (#[trigger] payloads[i]).len() <= u64::MAX,
        payload.len() <= u64::MAX,
    ensures
        records(frames(payloads) + frame(payload)) == payloads.push(payload),
        consumed(frames(payloads) + frame(payload)) == frames(payloads).len() + frame(
            payload,
        ).len(),
{
    lemma_frames_push(payloads, payload);
    let all = payloads.push(payload);
    assert forall|i: int| 0 <= i < all.len() implies (#[trigger] all[i]).len() <= u64::MAX by {
        if i < payloads.len() {
            assert(all[i] == payloads[i]);
        }
    }
    lemma_records_of_frames(all);
}

/// The big-endian bytes of `n`, as `byteorder::BigEndian::write_u64` puts
/// them into a buffer of eight bytes: the most significant byte comes first.
#[verifier::external_body]
fn length_prefix(n: u64) -> (out: [u8; 8])
    ensures
        out@ == be_bytes(n),
{
    let mut out = [0u8; 8];
    BigEndian::write_u64(&mut out, n);
    out
}

/// The number that `byteorder::BigEndian::read_u64` reads off the first
/// eight bytes of `buf`, most significant byte first. It panics on a shorter
/// buffer, which the precondition rules out.
#[verifier::external_body]
fn read_length(buf: &[u8]) -> (n: u64)
    requires
        buf@.len() >= 8,
    ensures
        n == be_value(buf@.subrange(0, 8)),
{
    BigEndian::read_u64(buf)
}

/// Frames one payload for the log.
pub fn frame_record(payload: &[u8]) -> (out: Vec<u8>)
    ensures
        out@ == frame(payload@),
{
    let prefix: [u8; 8] = length_prefix(payload.len() as u64);
    let mut out: Vec<u8> = Vec::with_capacity(payload.len());
    let mut i: usize = 0;
    while i < 8
        invariant
            0 <= i <= 8,
            prefix@.len() == 8,
            out@ == prefix@.subrange(0, i as int),
        decreases 8 - i,
    {
        out.push(prefix[i]);
        assert(out@ =~= prefix@.subrange(0, i + 1));
        i = i + 1;
    }
    assert(out@ =~= prefix@);
    let mut j: usize = 0;
    while j < payload.len()
        invariant
            0 <= j <= payload@.len(),
            out@ == prefix@ + payload@.subrange(0, j as int),
        decreases payload@.len() - j,
    {
        out.push(payload[j]);
        assert(out@ =~= prefix@ + payload@.subrange(0, j + 1));
        j = j + 1;
    }
    assert(payload@.subrange(0, payload@.len() as int) =~= payload@);
    out
}

/// The payload sequence that a vector of buffers stands for.
pub open spec fn payloads_of(v: Seq<Vec<u8>>) -> Seq<Seq<u8>> {
    Seq::new(v.len(), |i: int| v[i]@)
}

/// Reads the record that starts at `pos`. At the end of the log, or past
/// it, there is none; where bytes are left but no whole record, the log is
/// truncated.
pub fn read_record(log: &[u8], pos: usize) -> (r: Result<Option<(Vec<u8>, usize)>, StoreError>)
    ensures
        ({
            let rest = log@.subrange(pos as int, log@.len() as int);
            match r {
                Ok(Some((payload, next))) => {
                    &&& pos < log@.len()
                    &&& starts_with_record(rest)
                    &&& payload@ == rest.subrange(8, first_record_len(rest))
                    &&& next == pos + first_record_len(rest)
                    &&& next <= log@.len()
                },
                Ok(None) => pos >= log@.len(),
                Err(e) => e == StoreError::Truncated && pos < log@.len() && !starts_with_record(
                    rest,
                ),
            }
        }),
{
    let n: usize = log.len();
    if pos >= n {
        return Ok(None);
    }
    let ghost rest = log@.subrange(pos as int, n as int);
    if n - pos < 8 {
        return Err(StoreError::Truncated);
    }
    let len: u64 = read_length(&log[pos..n]);
    let left: usize = n - pos - 8;
    if len > left as u64 {
        return Err(StoreError::Truncated);
    }
    let size: usize = len as usize;
    let payload: Vec<u8> = slice_to_vec(&log[pos + 8..pos + 8 + size]);
    assert(payload@ =~= rest.subrange(8, first_record_len(rest)));
    Ok(Some((payload, pos + 8 + size)))
}

/// Reads the whole records at the start of `log`. Returns their payloads
/// and the number of bytes they take. A truncated tail ends the reading as
/// the end of the log does: what lies beyond the records read is passed
/// over.
pub fn replay_records(log: &[u8]) -> (r: (Vec<Vec<u8>>, usize))
    ensures
        payloads_of(r.0@) == records(log@),
        r.1 == consumed(log@),
        r.1 <= log@.len(),
{
    let n: usize = log.len();
    let mut out: Vec<Vec<u8>> = Vec::new();
    let mut pos: usize = 0;
    assert(log@.subrange(0, n as int) =~= log@);
    assert(payloads_of(out@) + records(log@) =~= records(log@));
    loop
        invariant
            n == log@.len(),
            0 <= pos <= n,
            payloads_of(out@) + records(log@.subrange(pos as int, n as int)) == records(log@),
            pos + consumed(log@.subrange(pos as int, n as int)) == consumed(log@),
        decreases n - pos,
    {
        let ghost rest = log@.subrange(pos as int, n as int);
        match read_record(log, pos) {
            Ok(Some((payload, next))) => {
                proof {
                    assert(rest.subrange(first_record_len(rest), rest.len() as int)
                        =~= log@.subrange(next as int, n as int));
                    assert(payloads_of(out@.push(payload)) =~= payloads_of(out@) + seq![payload@]);
                    assert((payloads_of(out@) + seq![payload@]) + records(
                        log@.subrange(next as int, n as int),
                    ) =~= payloads_of(out@) + records(rest));
                }
                out.push(payload);
                pos = next;
            },
            Ok(None) => {
                assert(records(rest) =~= Seq::<Seq<u8>>::empty());
                assert(payloads_of(out@) + records(rest) =~= payloads_of(out@));
                return (out, pos);
            },
            Err(_) => {
                assert(records(rest) =~= Seq::<Seq<u8>>::empty());
                assert(payloads_of(out@) + records(rest) =~= payloads_of(out@));
                return (out, pos);
            },
        }
    }
}

} // verus!
