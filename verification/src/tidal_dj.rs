//! Settings and statistics of a streaming player, and the text of a
//! duration.

use vstd::prelude::*;
use vstd::utf8::{
    decode_utf8, encode_utf8, encode_utf8_decode_utf8, encode_utf8_valid_utf8, is_ascii_chars,
    is_ascii_chars_encode_utf8, valid_utf8,
};

verus! {

/// Audio quality levels of the streaming service.
#[derive(Debug, Clone, Copy)]
pub enum TidalQuality {
    /// Lossless.
    Lossless,
    /// High-quality lossy.
    High,
    /// Standard quality.
    Normal,
    /// Master quality.
    Master,
}

/// Settings of the streaming service.
#[derive(Debug, Clone)]
pub struct TidalConfig {
    /// Access token.
    pub api_token: String,
    /// User identifier, if known.
    pub user_id: Option<String>,
    /// Preferred audio quality.
    pub quality: TidalQuality,
    /// Region for which content is listed.
    pub region: String,
}

/// Playback statistics.
#[derive(Debug)]
pub struct DjStats {
    /// Number of tracks played.
    pub tracks_played: usize,
    /// Artist and title of the track that plays, if any.
    pub current_track: Option<String>,
    /// Number of tracks waiting.
    pub queue_length: usize,
    /// Seconds listened in all.
    pub total_listening_time: u32,
    /// The genre played most.
    pub favorite_genre: String,
}

/// The character of a decimal digit.
pub open spec fn digit(d: int) -> char {
    if d == 0 {
        '0'
    } else if d == 1 {
        '1'
    } else if d == 2 {
        '2'
    } else if d == 3 {
        '3'
    } else if d == 4 {
        '4'
    } else if d == 5 {
        '5'
    } else if d == 6 {
        '6'
    } else if d == 7 {
        '7'
    } else if d == 8 {
        '8'
    } else {
        '9'
    }
}

/// A number in decimal digits, without leading zeros.
pub open spec fn decimal(n: nat) -> Seq<char>
    decreases n,
{
    if n < 10 {
        seq![digit(n as int)]
    } else {
        decimal(n / 10).push(digit((n % 10) as int))
    }
}

/// A number under 100 in two decimal digits.
pub open spec fn two_digits(n: nat) -> Seq<char> {
    seq![digit((n / 10) as int), digit((n % 10) as int)]
}

/// The text of a duration: hours, minutes and seconds as `h:mm:ss`, or
/// `m:ss` under an hour.
pub open spec fn duration_text(seconds: u32) -> Seq<char> {
    let hours = (seconds / 3600) as nat;
    let minutes = ((seconds % 3600) / 60) as nat;
    let secs = (seconds % 60) as nat;
    if hours > 0 {
        decimal(hours) + seq![':'] + two_digits(minutes) + seq![':'] + two_digits(secs)
    } else {
        decimal(minutes) + seq![':'] + two_digits(secs)
    }
}

/// The bytes of characters that take one byte each.
pub open spec fn ascii_bytes(chars: Seq<char>) -> Seq<u8> {
    Seq::new(chars.len(), |i: int| chars[i] as u8)
}

/// The byte of a decimal digit.
fn digit_byte(d: u32) -> (b: u8)
    requires
        d < 10,
    ensures
        b == digit(d as int) as u8,
        '\0' <= digit(d as int) <= '\u{7f}',
{
    48 + d as u8
}

/// Appends the decimal digits of `n`.
fn push_decimal(out: &mut Vec<u8>, n: u32)
    ensures
        final(out)@ == old(out)@ + ascii_bytes(decimal(n as nat)),
        is_ascii_chars(decimal(n as nat)),
    decreases n,
{
    if n < 10 {
        let b = digit_byte(n);
        out.push(b);
        assert(out@ =~= old(out)@ + ascii_bytes(decimal(n as nat)));
    } else {
        push_decimal(out, n / 10);
        let b = digit_byte(n % 10);
        out.push(b);
        assert(out@ =~= old(out)@ + ascii_bytes(decimal(n as nat)));
    }
}

/// Appends the two decimal digits of `n`.
fn push_two_digits(out: &mut Vec<u8>, n: u32)
    requires
        n < 100,
    ensures
        final(out)@ == old(out)@ + ascii_bytes(two_digits(n as nat)),
        is_ascii_chars(two_digits(n as nat)),
{
    let high = digit_byte(n / 10);
    let low = digit_byte(n % 10);
    out.push(high);
    out.push(low);
    assert(out@ =~= old(out)@ + ascii_bytes(two_digits(n as nat)));
}

/// The text of a duration given in seconds.
pub fn format_duration(seconds: u32) -> (text: String)
    ensures
        text@ == duration_text(seconds),
{
    let hours: u32 = seconds / 3600;
    let minutes: u32 = (seconds % 3600) / 60;
    let secs: u32 = seconds % 60;
    let mut bytes: Vec<u8> = Vec::new();
    if hours > 0 {
        push_decimal(&mut bytes, hours);
        bytes.push(58);
        push_two_digits(&mut bytes, minutes);
    } else {
        push_decimal(&mut bytes, minutes);
    }
    bytes.push(58);
    push_two_digits(&mut bytes, secs);
    proof {
        let chars = duration_text(seconds);
        assert(':' as u8 == 58);
        assert(is_ascii_chars(chars));
        assert(bytes@ =~= ascii_bytes(chars));
        is_ascii_chars_encode_utf8(chars);
        assert(bytes@ =~= encode_utf8(chars));
        encode_utf8_valid_utf8(chars);
        encode_utf8_decode_utf8(chars);
    }
    // Digits and colons are valid UTF-8: the second arm is never taken.
    match String::from_utf8(bytes) {
        Ok(text) => text,
        Err(_) => String::new(),
    }
}

} // verus!
