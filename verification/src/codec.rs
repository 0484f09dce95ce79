//! The calls into outside code that the store's logic makes: gzip
//! compression and decompression (flate2), rendering a timestamp as a local
//! date (chrono), and turning characters back into a `String`.

use std::io::Read;
use std::io::Write;
use vstd::prelude::*;

verus! {

/// The bytes that flate2's gzip encoder, at its best compression level and
/// with its default header, produces for the UTF-8 encoding of `text`.
pub uninterp spec fn gzip_best(text: Seq<char>) -> Seq<u8>;

/// What flate2's gzip decoder reads from `data` as UTF-8 text: `None` where
/// the stream is not valid gzip or its contents are not valid UTF-8.
pub uninterp spec fn gunzip_text(data: Seq<u8>) -> Option<Seq<char>>;

/// Compresses `text` with `flate2::write::GzEncoder` into a fresh `Vec`, at
/// `Compression::best()`, through `write_all` and `finish`. Claimed: it
/// returns bytes (writing into a `Vec` cannot fail, and the deflate stream
/// errs only on bad parameters), they are `gzip_best(text)`, never empty
/// (the gzip header alone is ten bytes), and flate2's gzip decoder reads them
/// back as `text` (gzip is lossless).
#[verifier::external_body]
pub(crate) fn gzip_compress(text: &str) -> (r: Option<Vec<u8>>)
    ensures
        r is Some,
        r matches Some(v) ==> v@.len() > 0,
        r matches Some(v) ==> v@ == gzip_best(text@),
        r matches Some(v) ==> gunzip_text(v@) == Some(text@),
{
    let mut encoder = flate2::write::GzEncoder::new(Vec::new(), flate2::Compression::best());
    if encoder.write_all(text.as_bytes()).is_err() {
        return None;
    }
    encoder.finish().ok()
}

/// Decompresses `data` with `flate2::read::GzDecoder` and `read_to_string`.
/// Claimed: the result is `gunzip_text(data)`, as characters.
#[verifier::external_body]
pub(crate) fn gunzip_to_chars(data: &[u8]) -> (r: Option<Vec<char>>)
    ensures
        r is None <==> gunzip_text(data@) is None,
        r matches Some(v) ==> gunzip_text(data@) == Some(v@),
{
    let mut decoder = flate2::read::GzDecoder::new(data);
    let mut raw = String::new();
    match decoder.read_to_string(&mut raw) {
        Ok(_) => Some(raw.chars().collect()),
        Err(_) => None,
    }
}

/// Whether `c` is an ASCII decimal digit.
pub open spec fn is_ascii_digit(c: char) -> bool {
    '0' <= c && c <= '9'
}

/// Whether `s` has the shape `YYYY-MM-DD HH:MM:SS`: nineteen characters,
/// digits but for the separators.
pub open spec fn is_datetime_text(s: Seq<char>) -> bool {
    &&& s.len() == 19
    &&& forall|i: int|
        0 <= i < 19 ==> if i == 4 || i == 7 {
            #[trigger] s[i] == '-'
        } else if i == 10 {
            s[i] == ' '
        } else if i == 13 || i == 16 {
            s[i] == ':'
        } else {
            is_ascii_digit(s[i])
        }
}

/// Renders a UNIX timestamp as `%Y-%m-%d %H:%M:%S` in the machine's local
/// time zone, through `chrono::DateTime::from_timestamp`, `with_timezone`
/// and `format`. Claimed: a rendering is returned, since every `u32` count
/// of seconds lies within `from_timestamp`'s range, and it has the shape of
/// that format (chrono pads `%Y` to four digits, and a `u32` timestamp in any
/// zone falls in the years 1969 to 2106, and each other field to two). Which
/// date and time it shows is not claimed: that depends on the machine's time
/// zone.
#[verifier::external_body]
pub(crate) fn local_date_string(timestamp: u32) -> (r: Option<String>)
    ensures
        r is Some,
        r matches Some(s) ==> is_datetime_text(s@),
{
    match chrono::DateTime::from_timestamp(timestamp as i64, 0) {
        Some(dt) => Some(dt.with_timezone(&chrono::Local).format("%Y-%m-%d %H:%M:%S").to_string()),
        None => None,
    }
}

/// Collects characters into a `String` (std's `FromIterator<char>`).
/// Claimed: the string holds exactly those characters.
#[verifier::external_body]
pub(crate) fn string_from_chars(chars: &Vec<char>) -> (s: String)
    ensures
        s@ == chars@,
{
    chars.iter().collect()
}

} // verus!
