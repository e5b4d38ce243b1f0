//! The texts that songs and folders are shown with. Durations are in nanoseconds.
use crate::text::{
    contains_part, decimal, digits, filled, filled_parts, glued, has_part, join, joined, lowercase,
    replace_part, replaced, same, signed_decimal, signed_digits, texts,
};
use vstd::prelude::*;

verus! {

/// What stands where there is nothing to show.
pub const DASH: &'static str = "\u{2014}";

/// What stands between the parts of a subtitle.
pub const PART_DASH: &'static str = " \u{2014} ";

/// What stands between the parts of a format label.
pub const BULLET: &'static str = " \u{2022} ";

/// The artist that can be hidden.
pub const HIDDEN_ARTIST: &'static str = "bad bunny";

/// From which sample rate on, in hertz, a song counts as of high resolution.
pub const HIRES_RATE: i32 = 48000;

/// The formats that keep all of the sound.
pub const LOSSLESS_FORMATS: [&'static str; 6] = ["FLAC", "WAV", "AIFF", "AIF", "APE", "WV"];

/// Whether an artist is the one that can be hidden.
pub open spec fn hidden_artist(artist: Seq<char>) -> bool {
    artist.len() > 0 && has_part(lowercase(artist), HIDDEN_ARTIST@)
}

/// Whether an artist is the one that can be hidden.
pub fn is_bad_bunny(artist: &str) -> (r: bool)
    ensures
        r == hidden_artist(artist@),
{
    !artist.is_empty() && contains_part(artist.to_lowercase().as_str(), HIDDEN_ARTIST)
}

/// A number below 100 with two digits.
pub open spec fn two_digits(n: nat) -> Seq<char> {
    if n < 10 {
        "0"@ + digits(n)
    } else {
        digits(n)
    }
}

/// A time in minutes and seconds.
pub open spec fn time_text(secs: nat) -> Seq<char> {
    digits(secs / 60) + ":"@ + two_digits(secs % 60)
}

/// A time in minutes and seconds.
pub fn format_time(secs: u64) -> (r: String)
    ensures
        r@ == time_text(secs as nat),
{
    let mut r = decimal(secs / 60);
    r.append(":");
    if secs % 60 < 10 {
        r.append("0");
    }
    r.append(decimal(secs % 60).as_str());
    assert(r@ == time_text(secs as nat));
    r
}

/// The whole seconds of a duration; a duration below zero has none.
pub open spec fn seconds_of(ns: int) -> nat {
    if ns <= 0 {
        0
    } else {
        (ns / 1_000_000_000) as nat
    }
}

/// The whole seconds of a duration.
pub fn whole_seconds(ns: i64) -> (r: u64)
    ensures
        r as nat == seconds_of(ns as int),
{
    if ns <= 0 {
        0
    } else {
        (ns / 1_000_000_000) as u64
    }
}

/// A duration, or a dash where it is not known.
pub open spec fn duration_text(ns: int) -> Seq<char> {
    if ns > 0 {
        time_text(seconds_of(ns))
    } else {
        DASH@
    }
}

/// A duration, or a dash where it is not known.
pub fn duration_label(ns: i64) -> (r: String)
    ensures
        r@ == duration_text(ns as int),
{
    if ns > 0 {
        format_time(whole_seconds(ns))
    } else {
        DASH.to_owned()
    }
}

/// Three digits behind a decimal point, without zeros at the end; nothing where
/// all are zeros.
pub open spec fn thousandths(n: nat) -> Seq<char> {
    if n == 0 {
        Seq::empty()
    } else if n % 100 == 0 {
        "."@ + digits(n / 100)
    } else if n % 10 == 0 {
        "."@ + two_digits(n / 10)
    } else if n < 100 {
        ".0"@ + two_digits(n)
    } else {
        "."@ + digits(n)
    }
}

/// A sample rate in kilohertz.
pub open spec fn kilohertz(rate: nat) -> Seq<char> {
    digits(rate / 1000) + thousandths(rate % 1000)
}

fn two_digit_text(n: u64) -> (r: String)
    ensures
        r@ == two_digits(n as nat),
{
    if n < 10 {
        glued("0", decimal(n).as_str())
    } else {
        decimal(n)
    }
}

/// A sample rate in kilohertz.
pub fn khz_label(rate: u64) -> (r: String)
    ensures
        r@ == kilohertz(rate as nat),
{
    let mut r = decimal(rate / 1000);
    let n: u64 = rate % 1000;
    if n == 0 {
        assert(r@ + Seq::<char>::empty() == r@);
        return r;
    }
    let tail = if n % 100 == 0 {
        glued(".", decimal(n / 100).as_str())
    } else if n % 10 == 0 {
        glued(".", two_digit_text(n / 10).as_str())
    } else if n < 100 {
        glued(".0", two_digit_text(n).as_str())
    } else {
        glued(".", decimal(n).as_str())
    };
    r.append(tail.as_str());
    r
}

/// Whether a format keeps single bits at a high rate.
pub open spec fn dsd_format(format: Seq<char>) -> bool {
    format == "DSF"@ || format == "DFF"@
}

/// Whether a format keeps all of the sound.
pub open spec fn lossless_format(format: Seq<char>) -> bool {
    exists|i: int|
        0 <= i < LOSSLESS_FORMATS@.len() && (#[trigger] LOSSLESS_FORMATS@[i])@ == format
}

/// How many times the rate of a compact disc the bits of a song come, rounded to
/// the next integer.
pub open spec fn dsd_level(sample_rate: nat) -> nat {
    (sample_rate * 16 + 44100) / 88200
}

/// How good a song sounds: the level of a format of single bits; depth and rate
/// of a format that keeps all of the sound, with 16 bits where the depth is not
/// known; else the bitrate, where it is known.
pub open spec fn quality_text(
    format: Seq<char>,
    bitrate: int,
    sample_rate: int,
    bits: int,
) -> Seq<char> {
    if dsd_format(format) && sample_rate > 0 {
        "DSD"@ + digits(dsd_level(sample_rate as nat))
    } else if lossless_format(format) && sample_rate > 0 {
        signed_digits(
            if bits > 0 {
                bits
            } else {
                16
            },
        ) + "-bit/"@ + kilohertz(sample_rate as nat) + "kHz"@
    } else if bitrate > 0 {
        signed_digits(bitrate) + " kbps"@
    } else {
        Seq::empty()
    }
}

/// Whether a format keeps all of the sound.
pub fn is_lossless(format: &str) -> (r: bool)
    ensures
        r == lossless_format(format@),
{
    for i in 0..LOSSLESS_FORMATS.len()
        invariant
            forall|j: int| 0 <= j < i ==> (#[trigger] LOSSLESS_FORMATS@[j])@ != format@,
    {
        if same(LOSSLESS_FORMATS[i], format) {
            return true;
        }
    }
    false
}

/// How good a song sounds.
pub fn quality_label(format: &str, bitrate: i32, sample_rate: i32, bits: i32) -> (r: String)
    ensures
        r@ == quality_text(format@, bitrate as int, sample_rate as int, bits as int),
{
    if (same(format, "DSF") || same(format, "DFF")) && sample_rate > 0 {
        let level: u64 = (sample_rate as u64 * 16 + 44100) / 88200;
        return glued("DSD", decimal(level).as_str());
    }
    if is_lossless(format) && sample_rate > 0 {
        let mut r = signed_decimal(
            if bits > 0 {
                bits
            } else {
                16
            },
        );
        r.append("-bit/");
        r.append(khz_label(sample_rate as u64).as_str());
        r.append("kHz");
        return r;
    }
    if bitrate > 0 {
        let mut r = signed_decimal(bitrate);
        r.append(" kbps");
        return r;
    }
    String::new()
}

/// The format of a song with how good it sounds.
pub open spec fn format_text(
    format: Seq<char>,
    bitrate: int,
    sample_rate: int,
    bits: int,
) -> Seq<char> {
    let quality = quality_text(format, bitrate, sample_rate, bits);
    if quality.len() == 0 {
        format
    } else {
        format + BULLET@ + quality
    }
}

/// The format of a song with how good it sounds.
pub fn format_label(format: &str, bitrate: i32, sample_rate: i32, bits: i32) -> (r: String)
    ensures
        r@ == format_text(format@, bitrate as int, sample_rate as int, bits as int),
{
    let quality = quality_label(format, bitrate, sample_rate, bits);
    if quality.as_str().is_empty() {
        return format.to_owned();
    }
    let mut r = glued(format, BULLET);
    r.append(quality.as_str());
    r
}

/// Whether a song is of high resolution.
pub fn is_hires(sample_rate: i32) -> (r: bool)
    ensures
        r == (sample_rate >= 48000),
{
    sample_rate >= HIRES_RATE
}

/// A name cut to its first 20 characters.
pub open spec fn short_name(name: Seq<char>) -> Seq<char> {
    if name.len() > 20 {
        name.take(20) + "\u{2026}"@
    } else {
        name
    }
}

/// A name as the grid shows it.
pub fn grid_label(name: &str) -> (r: String)
    ensures
        r@ == short_name(name@),
{
    if name.unicode_len() > 20 {
        let head = name.substring_char(0, 20);
        assert(head@ == name@.take(20));
        glued(head, "\u{2026}")
    } else {
        name.to_owned()
    }
}

/// Artist, album and year, as far as they are known.
pub open spec fn subtitle_text(artist: Seq<char>, album: Seq<char>, year: Seq<char>) -> Seq<char> {
    joined(filled(seq![artist, album, year]), PART_DASH@)
}

/// Artist, album and year, as far as they are known.
pub fn subtitle(artist: &str, album: &str, year: &str) -> (r: String)
    ensures
        r@ == subtitle_text(artist@, album@, year@),
{
    let mut parts: Vec<String> = Vec::new();
    parts.push(artist.to_owned());
    parts.push(album.to_owned());
    parts.push(year.to_owned());
    assert(texts(parts@) =~= seq![artist@, album@, year@]);
    join(&filled_parts(&parts), PART_DASH)
}

/// A quotient rounded to the next integer; halfway between two, to the even one.
pub open spec fn rounded(a: nat, b: nat) -> nat {
    let low = a / b;
    let rest = a % b;
    if 2 * rest < b || (2 * rest == b && low % 2 == 0) {
        low
    } else {
        low + 1
    }
}

/// The size of a file: in megabytes with one decimal from one megabyte on, else in
/// whole kilobytes.
pub open spec fn size_text(size: nat) -> Seq<char> {
    if size >= 0x10_0000 {
        let tenths = rounded(size * 10, 0x10_0000);
        digits(tenths / 10) + "."@ + digits(tenths % 10) + " MB"@
    } else {
        digits(size / 1024) + " KB"@
    }
}

/// The size of a file.
pub fn size_label(size: u64) -> (r: String)
    ensures
        r@ == size_text(size as nat),
{
    if size >= 0x10_0000 {
        let a: u128 = size as u128 * 10;
        let low: u64 = (a / 0x10_0000) as u64;
        let rest: u64 = (a % 0x10_0000) as u64;
        let tenths: u64 = if 2 * rest < 0x10_0000 || (2 * rest == 0x10_0000 && low % 2 == 0) {
            low
        } else {
            low + 1
        };
        let mut r = decimal(tenths / 10);
        r.append(".");
        r.append(decimal(tenths % 10).as_str());
        r.append(" MB");
        return r;
    }
    let mut r = decimal(size / 1024);
    r.append(" KB");
    r
}

/// A text with a number in the places marked `{n}`.
pub open spec fn numbered(template: Seq<char>, n: nat) -> Seq<char> {
    replaced(template, "{n}"@, digits(n))
}

/// A text with a number in the places marked `{n}`.
pub fn with_number(template: &str, n: u64) -> (r: String)
    ensures
        r@ == numbered(template@, n as nat),
{
    proof {
        reveal_strlit("{n}");
    }
    replace_part(template, "{n}", decimal(n).as_str())
}

/// A text with another one in the places marked `{}`.
pub fn with_text(template: &str, t: &str) -> (r: String)
    ensures
        r@ == replaced(template@, "{}"@, t@),
{
    proof {
        reveal_strlit("{}");
    }
    replace_part(template, "{}", t)
}

} // verus!
