//! The byte-to-wave transform.
//!
//! Each byte of a buffer becomes one wave point: an amplitude proportional
//! to the byte and to the base parameter, and a phase proportional to the
//! byte's position. Decoding reads the amplitude alone, so the bytes come
//! back exactly whatever the phase.

use vstd::prelude::*;
use vstd::arithmetic::div_mod::lemma_fundamental_div_mod_converse;
use crate::error::StoreError;
use crate::fixed::min;

verus! {

/// A full turn, in millionths of a radian.
pub const TAU: u64 = 6_283_185;

/// Amplitudes are counted in this many parts of a millionth, so that
/// `base * byte / 255` is held without rounding.
pub const AMPLITUDE_STEPS: u64 = 255;

/// One point of a wave, in polar form.
#[derive(Debug, Clone, Copy)]
pub struct WavePoint {
    /// Magnitude, in 255ths of a millionth.
    pub amplitude: u128,
    /// Angle, in millionths of a radian.
    pub phase: u32,
}

/// The point that stands for `byte` at position `i` of a buffer of `n`
/// bytes: amplitude `base * byte / 255`, phase `2 pi i / n`.
pub open spec fn encode_point(byte: u8, i: int, n: int, base: int) -> WavePoint {
    WavePoint { amplitude: (base * byte) as u128, phase: ((TAU * i) / n) as u32 }
}

/// The wave of a buffer.
pub open spec fn encoded(bytes: Seq<u8>, base: int) -> Seq<WavePoint> {
    Seq::new(bytes.len(), |i: int| encode_point(bytes[i], i, bytes.len() as int, base))
}

/// The byte that a point stands for: `amplitude / base * 255`, rounded to
/// the nearest whole number and held to 255.
pub open spec fn decode_point(p: WavePoint, base: int) -> u8 {
    min(255, (2 * p.amplitude + base) / (2 * base)) as u8
}

/// The buffer that a wave stands for.
pub open spec fn decoded(points: Seq<WavePoint>, base: int) -> Seq<u8> {
    Seq::new(points.len(), |i: int| decode_point(points[i], base))
}

/// The magnitude of a point in millionths, saturated to 64 bits.
pub open spec fn point_magnitude(p: WavePoint) -> i64 {
    min(p.amplitude as int / (AMPLITUDE_STEPS as int), i64::MAX as int) as i64
}

/// Decoding undoes encoding, for every buffer and every positive base.
pub proof fn lemma_round_trip(bytes: Seq<u8>, base: i64)
    requires
        base > 0,
    ensures
        decoded(encoded(bytes, base as int), base as int) == bytes,
{
    assert forall|i: int| 0 <= i < bytes.len() implies decode_point(
        encoded(bytes, base as int)[i],
        base as int,
    ) == bytes[i] by {
        lemma_point_round_trip(bytes[i], i, bytes.len() as int, base);
    }
    assert(decoded(encoded(bytes, base as int), base as int) =~= bytes);
}

/// Decoding one encoded point gives its byte back, whatever its position.
pub proof fn lemma_point_round_trip(byte: u8, i: int, n: int, base: i64)
    requires
        base > 0,
    ensures
        decode_point(encode_point(byte, i, n, base as int), base as int) == byte,
{
    let a: int = base * byte;
    assert(0 <= a <= 255 * base) by (nonlinear_arith)
        requires
            a == base * byte,
            0 <= byte <= 255,
            0 < base,
    ;
    assert(((base * byte) as u128) as int == a);
    assert(2 * a + base == (2 * base) * (byte as int) + base) by (nonlinear_arith)
        requires
            a == base * byte,
    ;
    lemma_fundamental_div_mod_converse(2 * a + base, 2 * base, byte as int, base as int);
}

/// Turns a buffer into its wave, for a base known to be positive.
pub fn encode_with(bytes: &[u8], base: i64) -> (points: Vec<WavePoint>)
    requires
        base > 0,
    ensures
        points@ == encoded(bytes@, base as int),
{
    let n: usize = bytes.len();
    let mut points: Vec<WavePoint> = Vec::with_capacity(n);
    let mut i: usize = 0;
    while i < n
        invariant
            n == bytes@.len(),
            0 <= i <= n,
            base > 0,
            points@.len() == i,
            forall|j: int|
                0 <= j < i ==> points@[j] == encode_point(bytes@[j], j, n as int, base as int),
        decreases n - i,
    {
        let byte: u8 = bytes[i];
        assert((base as u128) * (byte as u128) <= 0x7fff_ffff_ffff_ffff * 255) by (nonlinear_arith)
            requires
                0 < base <= 0x7fff_ffff_ffff_ffff,
                byte <= 255,
        ;
        let amplitude: u128 = (base as u128) * (byte as u128);
        let turn: u128 = (TAU as u128) * (i as u128);
        let angle: u128 = turn / (n as u128);
        assert(angle < 6_283_185) by (nonlinear_arith)
            requires
                angle == turn / (n as u128),
                turn == 6_283_185 * i,
                i < n,
        ;
        points.push(WavePoint { amplitude, phase: angle as u32 });
        i = i + 1;
    }
    assert(points@ =~= encoded(bytes@, base as int));
    points
}

/// Turns a buffer into its wave. A base that is not positive is refused.
pub fn encode(bytes: &[u8], base: i64) -> (r: Result<Vec<WavePoint>, StoreError>)
    ensures
        base <= 0 ==> r == Err::<Vec<WavePoint>, StoreError>(StoreError::InvalidParameter),
        base > 0 ==> r is Ok && r->Ok_0@ == encoded(bytes@, base as int),
{
    if base <= 0 {
        Err(StoreError::InvalidParameter)
    } else {
        Ok(encode_with(bytes, base))
    }
}

/// Reads one byte off a point.
fn decode_one(p: WavePoint, base: i64) -> (b: u8)
    requires
        base > 0,
    ensures
        b == decode_point(p, base as int),
{
    let d: u128 = base as u128;
    let q: u128 = p.amplitude / d;
    let r: u128 = p.amplitude % d;
    let up: bool = 2 * r >= d;
    proof {
        let a: int = p.amplitude as int;
        let bb: int = base as int;
        vstd::arithmetic::div_mod::lemma_fundamental_div_mod(a, bb);
        if up {
            assert(2 * a + bb == (2 * bb) * (q + 1) + (2 * r - bb)) by (nonlinear_arith)
                requires
                    a == bb * q + r,
            ;
            lemma_fundamental_div_mod_converse(2 * a + bb, 2 * bb, q + 1, 2 * r - bb);
        } else {
            assert(2 * a + bb == (2 * bb) * (q as int) + (2 * r + bb)) by (nonlinear_arith)
                requires
                    a == bb * q + r,
            ;
            lemma_fundamental_div_mod_converse(2 * a + bb, 2 * bb, q as int, 2 * r + bb);
        }
    }
    if q >= 255 {
        255
    } else if up {
        (q + 1) as u8
    } else {
        q as u8
    }
}

/// Turns a wave back into its buffer, for a base known to be positive.
pub fn decode_with(points: &[WavePoint], base: i64) -> (bytes: Vec<u8>)
    requires
        base > 0,
    ensures
        bytes@ == decoded(points@, base as int),
{
    let n: usize = points.len();
    let mut bytes: Vec<u8> = Vec::with_capacity(n);
    let mut i: usize = 0;
    while i < n
        invariant
            n == points@.len(),
            0 <= i <= n,
            base > 0,
            bytes@.len() == i,
            forall|j: int| 0 <= j < i ==> bytes@[j] == decode_point(points@[j], base as int),
        decreases n - i,
    {
        bytes.push(decode_one(points[i], base));
        i = i + 1;
    }
    assert(bytes@ =~= decoded(points@, base as int));
    bytes
}

/// Turns a wave back into its buffer. A base that is not positive is
/// refused.
pub fn decode(points: &[WavePoint], base: i64) -> (r: Result<Vec<u8>, StoreError>)
    ensures
        base <= 0 ==> r == Err::<Vec<u8>, StoreError>(StoreError::InvalidParameter),
        base > 0 ==> r is Ok && r->Ok_0@ == decoded(points@, base as int),
{
    if base <= 0 {
        Err(StoreError::InvalidParameter)
    } else {
        Ok(decode_with(points, base))
    }
}

impl WavePoint {
    /// The magnitude in millionths, as the detector reads it.
    pub fn magnitude(&self) -> (m: i64)
        ensures
            m == point_magnitude(*self),
    {
        let m: u128 = self.amplitude / (AMPLITUDE_STEPS as u128);
        if m > i64::MAX as u128 {
            i64::MAX
        } else {
            m as i64
        }
    }
}

} // verus!
