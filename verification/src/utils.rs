//! Utility functions for UMICP operations: field validation, identifier and
//! timestamp generation, content hashing, base64 transport encoding, and
//! human-readable formatting.

use vstd::prelude::*;
use vstd::string::StringSliceAdditionalSpecFns;

use base64::Engine;

use crate::error::UmicpError;
use crate::strutil::dec_digit;
use crate::strutil::dec_str;
use crate::strutil::push_char;
use crate::strutil::push_dec;

verus! {

/// Whether a character has the Unicode white-space property, the set that
/// `str::trim` strips.
pub open spec fn is_space(c: char) -> bool {
    let u = c as u32;
    (9 <= u && u <= 13) || u == 32 || u == 133 || u == 160 || u == 5760 || (8192 <= u && u
        <= 8202) || u == 8232 || u == 8233 || u == 8239 || u == 8287 || u == 12288
}

/// Whether a string holds nothing but white space (so trimming would empty it).
pub open spec fn blank(s: Seq<char>) -> bool {
    forall|i: int| 0 <= i < s.len() ==> is_space(#[trigger] s[i])
}

/// Executable check for `is_space`.
pub fn is_space_char(c: char) -> (r: bool)
    ensures
        r == is_space(c),
{
    let u = c as u32;
    (9 <= u && u <= 13) || u == 32 || u == 133 || u == 160 || u == 5760 || (8192 <= u && u
        <= 8202) || u == 8232 || u == 8233 || u == 8239 || u == 8287 || u == 12288
}

/// The message of an empty-field validation error: it names the field.
pub open spec fn empty_field_msg(field_name: Seq<char>) -> Seq<char> {
    "Field '"@ + field_name + "' cannot be empty"@
}

/// Validate that a string is not empty (nor white space alone); the error
/// names the offending field.
pub fn validate_non_empty(value: &str, field_name: &str) -> (r: Result<(), UmicpError>)
    ensures
        r is Ok <==> !blank(value@),
        r matches Err(e) ==> e is Validation && e.spec_message() == empty_field_msg(field_name@),
{
    let len = value.unicode_len();
    let mut i: usize = 0;
    while i < len
        invariant
            len == value@.len(),
            i <= len,
            forall|k: int| 0 <= k < i ==> is_space(#[trigger] value@[k]),
        decreases len - i,
    {
        if !is_space_char(value.get_char(i)) {
            return Ok(());
        }
        i = i + 1;
    }
    let msg = "Field '".to_owned().concat(field_name).concat("' cannot be empty");
    Err(UmicpError::validation(msg.as_str()))
}

/// The message of an out-of-bounds validation error: it names the field and
/// reports the index and the bound.
pub open spec fn index_bounds_msg(field_name: Seq<char>, index: nat, max_index: nat) -> Seq<char> {
    "Field '"@ + field_name + "' index "@ + dec_str(index) + " is out of bounds (max: "@ + dec_str(
        max_index,
    ) + ")"@
}

/// Validate that an index lies below its bound; the error names the field and
/// reports the index and the bound.
pub fn validate_index(index: usize, max_index: usize, field_name: &str) -> (r: Result<
    (),
    UmicpError,
>)
    ensures
        r is Ok <==> index < max_index,
        r matches Err(e) ==> e is Validation && e.spec_message() == index_bounds_msg(
            field_name@,
            index as nat,
            max_index as nat,
        ),
{
    if index >= max_index {
        let mut msg = "Field '".to_owned();
        msg.append(field_name);
        msg.append("' index ");
        push_dec(&mut msg, index as u64);
        msg.append(" is out of bounds (max: ");
        push_dec(&mut msg, max_index as u64);
        msg.append(")");
        proof {
            assert(msg@ =~= index_bounds_msg(field_name@, index as nat, max_index as nat));
        }
        return Err(UmicpError::validation(msg.as_str()));
    }
    Ok(())
}

/// Whether a string is an acceptable textual UUID, exactly as
/// `uuid::Uuid::parse_str` decides it.
pub uninterp spec fn uuid_ok(s: Seq<char>) -> bool;

/// Relies on uuid::Uuid::parse_str: accepts a string if and only if it is one
/// of the textual UUID forms; the decision depends on the characters alone.
#[verifier::external_body]
pub fn validate_uuid(uuid_str: &str) -> (r: bool)
    ensures
        r == uuid_ok(uuid_str@),
{
    uuid::Uuid::parse_str(uuid_str).is_ok()
}

/// Relies on uuid::Uuid::new_v4 and its Display form: the hyphenated text of
/// a fresh random UUID is 36 characters of hexadecimal digits and hyphens,
/// and uuid::Uuid::parse_str accepts it back.
#[verifier::external_body]
pub fn generate_uuid() -> (r: String)
    ensures
        uuid_ok(r@),
        r@.len() == 36,
        !crate::utils::blank(r@),
{
    uuid::Uuid::new_v4().to_string()
}

/// Relies on chrono::Utc::now().to_rfc3339(): the rendered text is RFC 3339
/// (chrono's own parser reads it back), never empty, and holds no white
/// space. Its value depends on the clock, so nothing more is claimed.
#[verifier::external_body]
pub fn get_current_timestamp() -> (r: String)
    ensures
        !blank(r@),
        r@.len() > 0,
        rfc3339_epoch_of(r@) is Some,
{
    chrono::Utc::now().to_rfc3339()
}

/// The Unix epoch seconds an RFC 3339 timestamp denotes, if the text parses;
/// the result depends on the characters alone.
pub uninterp spec fn rfc3339_epoch_of(s: Seq<char>) -> Option<i64>;

/// Relies on chrono::DateTime::parse_from_rfc3339 (and DateTime::timestamp
/// for the epoch seconds of the parsed instant).
#[verifier::external_body]
fn parse_rfc3339_raw(timestamp: &str) -> (r: Option<i64>)
    ensures
        r == rfc3339_epoch_of(timestamp@),
{
    match chrono::DateTime::parse_from_rfc3339(timestamp) {
        Ok(dt) => Some(dt.timestamp()),
        Err(_) => None,
    }
}

/// Parse an ISO-8601 / RFC 3339 timestamp into Unix epoch seconds.
pub fn parse_timestamp(timestamp: &str) -> (r: Result<i64, UmicpError>)
    ensures
        r is Ok <==> rfc3339_epoch_of(timestamp@) is Some,
        r matches Ok(v) ==> rfc3339_epoch_of(timestamp@) == Some(v),
        r matches Err(e) ==> e is Validation,
{
    match parse_rfc3339_raw(timestamp) {
        Some(v) => Ok(v),
        None => Err(UmicpError::validation("Invalid timestamp format")),
    }
}

/// The SHA-256 digest of a byte sequence; its value depends on the bytes
/// alone.
pub uninterp spec fn sha256_of(data: Seq<u8>) -> Seq<u8>;

/// Relies on sha2::Sha256::digest: a SHA-256 digest is exactly 32 bytes and
/// depends on the input bytes alone.
#[verifier::external_body]
fn sha256_digest(data: &[u8]) -> (r: Vec<u8>)
    ensures
        r@ == sha256_of(data@),
        r@.len() == 32,
{
    <sha2::Sha256 as sha2::Digest>::digest(data).to_vec()
}

/// The lowercase hexadecimal digit for a value below sixteen.
pub open spec fn hex_digit(d: nat) -> char {
    if d < 10 {
        dec_digit(d)
    } else if d == 10 {
        'a'
    } else if d == 11 {
        'b'
    } else if d == 12 {
        'c'
    } else if d == 13 {
        'd'
    } else if d == 14 {
        'e'
    } else {
        'f'
    }
}

/// The value a lowercase hexadecimal digit character stands for, if any.
pub open spec fn spec_hex_val(ch: char) -> Option<u8> {
    if ch == '0' {
        Some(0u8)
    } else if ch == '1' {
        Some(1u8)
    } else if ch == '2' {
        Some(2u8)
    } else if ch == '3' {
        Some(3u8)
    } else if ch == '4' {
        Some(4u8)
    } else if ch == '5' {
        Some(5u8)
    } else if ch == '6' {
        Some(6u8)
    } else if ch == '7' {
        Some(7u8)
    } else if ch == '8' {
        Some(8u8)
    } else if ch == '9' {
        Some(9u8)
    } else if ch == 'a' {
        Some(10u8)
    } else if ch == 'b' {
        Some(11u8)
    } else if ch == 'c' {
        Some(12u8)
    } else if ch == 'd' {
        Some(13u8)
    } else if ch == 'e' {
        Some(14u8)
    } else if ch == 'f' {
        Some(15u8)
    } else {
        None
    }
}

/// Reading a digit's character gives the digit back.
pub proof fn lemma_hex_val_digit(d: nat)
    requires
        d < 16,
    ensures
        spec_hex_val(hex_digit(d)) == Some(d as u8),
{
}

/// A digit read from a character renders back to that character.
pub proof fn lemma_hex_digit_val(ch: char, v: u8)
    requires
        spec_hex_val(ch) == Some(v),
    ensures
        v < 16,
        hex_digit(v as nat) == ch,
{
}

/// The lowercase hexadecimal digit character for a value below sixteen.
pub fn hex_digit_char(d: u8) -> (r: char)
    requires
        d < 16,
    ensures
        r == hex_digit(d as nat),
{
    match d {
        0 => '0',
        1 => '1',
        2 => '2',
        3 => '3',
        4 => '4',
        5 => '5',
        6 => '6',
        7 => '7',
        8 => '8',
        9 => '9',
        10 => 'a',
        11 => 'b',
        12 => 'c',
        13 => 'd',
        14 => 'e',
        _ => 'f',
    }
}

/// The value a lowercase hexadecimal digit character stands for, if any.
pub fn hex_val_char(ch: char) -> (r: Option<u8>)
    ensures
        r == spec_hex_val(ch),
{
    match ch {
        '0' => Some(0),
        '1' => Some(1),
        '2' => Some(2),
        '3' => Some(3),
        '4' => Some(4),
        '5' => Some(5),
        '6' => Some(6),
        '7' => Some(7),
        '8' => Some(8),
        '9' => Some(9),
        'a' => Some(10),
        'b' => Some(11),
        'c' => Some(12),
        'd' => Some(13),
        'e' => Some(14),
        'f' => Some(15),
        _ => None,
    }
}

/// The lowercase hexadecimal rendering of a byte sequence, two digits per
/// byte.
pub open spec fn hex_of(bytes: Seq<u8>) -> Seq<char>
    decreases bytes.len(),
{
    if bytes.len() == 0 {
        Seq::empty()
    } else {
        seq![hex_digit(bytes[0] as nat / 16), hex_digit(bytes[0] as nat % 16)] + hex_of(
            bytes.drop_first(),
        )
    }
}

/// The hexadecimal rendering is twice as long as its input.
pub proof fn lemma_hex_of_len(bytes: Seq<u8>)
    ensures
        hex_of(bytes).len() == 2 * bytes.len(),
    decreases bytes.len(),
{
    if bytes.len() > 0 {
        lemma_hex_of_len(bytes.drop_first());
    }
}

/// Relies on hex::encode: lowercase hexadecimal, two digits per input byte,
/// in input order.
#[verifier::external_body]
fn hex_encode(data: &[u8]) -> (r: String)
    ensures
        r@ == hex_of(data@),
{
    hex::encode(data)
}

/// Generate the lowercase hexadecimal SHA-256 hash of the given bytes.
pub fn generate_hash(data: &[u8]) -> (r: String)
    ensures
        r@ == hex_of(sha256_of(data@)),
        r@.len() == 64,
{
    let digest = sha256_digest(data);
    let r = hex_encode(digest.as_slice());
    proof {
        lemma_hex_of_len(sha256_of(data@));
    }
    r
}

/// The standard base64 rendering (with padding) of a byte sequence; it
/// depends on the bytes alone.
pub uninterp spec fn b64_of(data: Seq<u8>) -> Seq<char>;

/// What standard base64 decoding makes of a string, if it is valid base64;
/// the result depends on the characters alone.
pub uninterp spec fn b64_decode_of(s: Seq<char>) -> Option<Seq<u8>>;

/// Relies on the standard base64 engine's encode: four output characters per
/// three input bytes (padded), and decode accepts its output and returns the
/// original bytes.
#[verifier::external_body]
pub fn base64_encode(data: &[u8]) -> (r: String)
    ensures
        r@ == b64_of(data@),
        r@.len() == 4 * ((data@.len() + 2) / 3),
        b64_decode_of(r@) == Some(data@),
{
    base64::engine::general_purpose::STANDARD.encode(data)
}

/// Relies on the standard base64 engine's decode: it succeeds exactly on
/// valid standard base64 text, with a result that depends on the characters
/// alone.
#[verifier::external_body]
fn base64_decode_raw(data: &str) -> (r: Option<Vec<u8>>)
    ensures
        match r {
            Some(v) => b64_decode_of(data@) == Some(v@),
            None => b64_decode_of(data@) is None,
        },
{
    base64::engine::general_purpose::STANDARD.decode(data).ok()
}

/// Base64 decode data; invalid text is a validation error.
pub fn base64_decode(data: &str) -> (r: Result<Vec<u8>, UmicpError>)
    ensures
        r matches Ok(v) ==> b64_decode_of(data@) == Some(v@),
        r is Err <==> b64_decode_of(data@) is None,
        r matches Err(e) ==> e is Validation,
{
    match base64_decode_raw(data) {
        Some(v) => Ok(v),
        None => Err(UmicpError::validation("Invalid base64")),
    }
}

/// The scaled rendering used by `format_bytes` above one kilobyte: the value
/// divided by the unit, rounded to two decimal places with exact halves going
/// to the even hundredth, the way two-decimal float formatting rounds.
pub open spec fn spec_scaled(bytes: nat, div: nat) -> Seq<char>
    recommends
        div > 0,
{
    let whole = bytes / div;
    let num = (bytes % div) * 100;
    let q = num / div;
    let rest = num % div;
    let fr = if rest > div / 2 {
        q + 1
    } else if rest < div / 2 {
        q
    } else if q % 2 == 1 {
        q + 1
    } else {
        q
    };
    let w = if fr == 100 {
        whole + 1
    } else {
        whole
    };
    let f = if fr == 100 {
        0
    } else {
        fr
    };
    dec_str(w) + seq!['.', dec_digit(f / 10), dec_digit(f % 10)]
}

/// What `format_bytes` returns: a count below 1024 in bytes, otherwise the
/// value scaled to the largest unit it reaches, with two decimal places.
pub open spec fn spec_format_bytes(bytes: nat) -> Seq<char> {
    if bytes < 1024 {
        dec_str(bytes) + " B"@
    } else if bytes < 1048576 {
        spec_scaled(bytes, 1024) + " KB"@
    } else if bytes < 1073741824 {
        spec_scaled(bytes, 1048576) + " MB"@
    } else if bytes < 1099511627776 {
        spec_scaled(bytes, 1073741824) + " GB"@
    } else {
        spec_scaled(bytes, 1099511627776) + " TB"@
    }
}

/// Append the scaled two-decimal rendering of `bytes` over `div`.
fn push_scaled(out: &mut String, bytes: u64, div: u64)
    requires
        1024 <= div <= 1099511627776,
        div as nat == 1024 || div as nat == 1048576 || div as nat == 1073741824 || div as nat
            == 1099511627776,
    ensures
        final(out)@ == old(out)@ + spec_scaled(bytes as nat, div as nat),
{
    let whole = bytes / div;
    let rem = bytes % div;
    let num = rem * 100;
    let q = num / div;
    let rest = num % div;
    let fr = if rest > div / 2 {
        q + 1
    } else if rest < div / 2 {
        q
    } else if q % 2 == 1 {
        q + 1
    } else {
        q
    };
    let (w, f) = if fr == 100 {
        (whole + 1, 0u64)
    } else {
        (whole, fr)
    };
    push_dec(out, w);
    push_char(out, '.');
    let tens: u64 = f / 10;
    let ones: u64 = f % 10;
    let tc: char = match tens {
        0 => '0',
        1 => '1',
        2 => '2',
        3 => '3',
        4 => '4',
        5 => '5',
        6 => '6',
        7 => '7',
        8 => '8',
        _ => '9',
    };
    let oc: char = match ones {
        0 => '0',
        1 => '1',
        2 => '2',
        3 => '3',
        4 => '4',
        5 => '5',
        6 => '6',
        7 => '7',
        8 => '8',
        _ => '9',
    };
    proof {
        assert(rem < div);
        assert(rem as int * 100 < 100 * (div as int)) by (nonlinear_arith)
            requires
                rem < div,
        ;
        assert((rem as int * 100) / (div as int) < 100) by (nonlinear_arith)
            requires
                rem as int * 100 < 100 * (div as int),
                div as int > 0,
        ;
        assert(q < 100);
        assert(fr <= 100);
        assert(tc == dec_digit((f / 10) as nat));
        assert(oc == dec_digit((f % 10) as nat));
    }
    push_char(out, tc);
    push_char(out, oc);
    proof {
        assert(final(out)@ =~= old(out)@ + spec_scaled(bytes as nat, div as nat));
    }
}

/// Convert a byte count to a human readable form.
pub fn format_bytes(bytes: u64) -> (r: String)
    ensures
        r@ == spec_format_bytes(bytes as nat),
{
    let mut out = String::new();
    if bytes < 1024 {
        push_dec(&mut out, bytes);
        out.append(" B");
        proof {
            assert(out@ =~= spec_format_bytes(bytes as nat));
        }
    } else if bytes < 1048576 {
        push_scaled(&mut out, bytes, 1024);
        out.append(" KB");
        proof {
            assert(out@ =~= spec_format_bytes(bytes as nat));
        }
    } else if bytes < 1073741824 {
        push_scaled(&mut out, bytes, 1048576);
        out.append(" MB");
        proof {
            assert(out@ =~= spec_format_bytes(bytes as nat));
        }
    } else if bytes < 1099511627776 {
        push_scaled(&mut out, bytes, 1073741824);
        out.append(" GB");
        proof {
            assert(out@ =~= spec_format_bytes(bytes as nat));
        }
    } else {
        push_scaled(&mut out, bytes, 1099511627776);
        out.append(" TB");
        proof {
            assert(out@ =~= spec_format_bytes(bytes as nat));
        }
    }
    out
}

/// What `format_duration` returns: days, hours, minutes and seconds, leading
/// zero components dropped down to whole hours, minutes, or bare seconds.
pub open spec fn spec_format_duration(seconds: nat) -> Seq<char> {
    let days = seconds / 86400;
    let hours = (seconds % 86400) / 3600;
    let minutes = (seconds % 3600) / 60;
    let secs = seconds % 60;
    if days > 0 {
        dec_str(days) + "d "@ + dec_str(hours) + "h "@ + dec_str(minutes) + "m "@ + dec_str(secs)
            + "s"@
    } else if hours > 0 {
        dec_str(hours) + "h "@ + dec_str(minutes) + "m "@ + dec_str(secs) + "s"@
    } else if minutes > 0 {
        dec_str(minutes) + "m "@ + dec_str(secs) + "s"@
    } else {
        dec_str(secs) + "s"@
    }
}

/// Get elapsed time in human readable format.
pub fn format_duration(seconds: u64) -> (r: String)
    ensures
        r@ == spec_format_duration(seconds as nat),
{
    let days = seconds / 86400;
    let hours = (seconds % 86400) / 3600;
    let minutes = (seconds % 3600) / 60;
    let secs = seconds % 60;
    let mut out = String::new();
    if days > 0 {
        push_dec(&mut out, days);
        out.append("d ");
        push_dec(&mut out, hours);
        out.append("h ");
        push_dec(&mut out, minutes);
        out.append("m ");
        push_dec(&mut out, secs);
        out.append("s");
    } else if hours > 0 {
        push_dec(&mut out, hours);
        out.append("h ");
        push_dec(&mut out, minutes);
        out.append("m ");
        push_dec(&mut out, secs);
        out.append("s");
    } else if minutes > 0 {
        push_dec(&mut out, minutes);
        out.append("m ");
        push_dec(&mut out, secs);
        out.append("s");
    } else {
        push_dec(&mut out, secs);
        out.append("s");
    }
    proof {
        assert(out@ =~= spec_format_duration(seconds as nat));
    }
    out
}

/// Whether a character is alphanumeric in the Unicode sense, exactly as
/// `char::is_alphanumeric` decides it.
pub uninterp spec fn is_alnum(c: char) -> bool;

/// Relies on char::is_alphanumeric: the decision depends on the character
/// alone.
#[verifier::external_body]
fn char_is_alphanumeric(c: char) -> (r: bool)
    ensures
        r == is_alnum(c),
{
    c.is_alphanumeric()
}

/// Which characters `sanitize_string` keeps: alphanumerics plus underscore,
/// hyphen and dot.
pub open spec fn keep_char(c: char) -> bool {
    is_alnum(c) || c == '_' || c == '-' || c == '.'
}

/// What `sanitize_string` returns: the kept characters in order.
pub open spec fn spec_sanitize(s: Seq<char>) -> Seq<char> {
    s.filter(|c: char| keep_char(c))
}

proof fn lemma_sanitize_push(t: Seq<char>, c: char)
    ensures
        spec_sanitize(t.push(c)) == if keep_char(c) {
            spec_sanitize(t).push(c)
        } else {
            spec_sanitize(t)
        },
{
    reveal(Seq::filter);
    assert(t.push(c).drop_last() =~= t);
    assert(t.push(c).last() == c);
}

/// Sanitize a string for safe usage: keep alphanumerics, `_`, `-` and `.`.
pub fn sanitize_string(input: &str) -> (r: String)
    ensures
        r@ == spec_sanitize(input@),
{
    let len = input.unicode_len();
    let mut out = String::new();
    let mut i: usize = 0;
    proof {
        reveal(Seq::filter);
        assert(input@.take(0) =~= Seq::<char>::empty());
    }
    while i < len
        invariant
            len == input@.len(),
            i <= len,
            out@ == spec_sanitize(input@.take(i as int)),
        decreases len - i,
    {
        let c = input.get_char(i);
        if char_is_alphanumeric(c) || c == '_' || c == '-' || c == '.' {
            push_char(&mut out, c);
        }
        proof {
            assert(input@.take(i + 1 as int) =~= input@.take(i as int).push(input@[i as int]));
            lemma_sanitize_push(input@.take(i as int), input@[i as int]);
        }
        i = i + 1;
    }
    proof {
        assert(input@.take(len as int) =~= input@);
    }
    out
}

/// Check if a string contains only ASCII characters.
pub fn is_ascii_only(input: &str) -> (r: bool)
    ensures
        r == forall|i: int| 0 <= i < input@.len() ==> (input@[i] as u32) < 128,
{
    let len = input.unicode_len();
    let mut i: usize = 0;
    while i < len
        invariant
            len == input@.len(),
            i <= len,
            forall|k: int| 0 <= k < i ==> (input@[k] as u32) < 128,
        decreases len - i,
    {
        let c = input.get_char(i);
        if (c as u32) >= 128 {
            return false;
        }
        i = i + 1;
    }
    true
}

/// The largest character boundary of a UTF-8 byte sequence at or below `k`
/// (zero is always a boundary).
pub open spec fn boundary_at_most(bytes: Seq<u8>, k: int) -> int
    decreases
            if k > 0 {
                k
            } else {
                0
            },
{
    if k <= 0 {
        0
    } else if vstd::utf8::is_char_boundary(bytes, k) {
        k
    } else {
        boundary_at_most(bytes, k - 1)
    }
}

/// What `truncate_string` returns: the string itself when its byte length
/// fits, else the head up to the cut byte with a three-dot ellipsis. The cut
/// is `max_length` less the three ellipsis bytes, moved down to the previous
/// character boundary when it would fall inside a character.
pub open spec fn spec_truncate(s: Seq<char>, max_length: nat) -> Seq<char> {
    let bytes = vstd::utf8::encode_utf8(s);
    if bytes.len() <= max_length {
        s
    } else {
        let keep = if max_length >= 3 {
            (max_length - 3) as int
        } else {
            0
        };
        vstd::utf8::decode_utf8(bytes.take(boundary_at_most(bytes, keep))) + "..."@
    }
}

/// Truncate a string to a maximum length in bytes, marking the cut with an
/// ellipsis; a cut falling inside a multi-byte character moves back to the
/// character's start.
pub fn truncate_string(input: &str, max_length: usize) -> (r: String)
    ensures
        r@ == spec_truncate(input@, max_length as nat),
{
    proof {
        vstd::utf8::encode_utf8_valid_utf8(input@);
    }
    let input_bytes = input.as_bytes();
    let bl = input_bytes.len();
    proof {
        assert(input_bytes@ == vstd::utf8::encode_utf8(input@));
    }
    if bl <= max_length {
        return input.to_owned();
    }
    let keep = if max_length >= 3 {
        max_length - 3
    } else {
        0
    };
    let ghost bytes = vstd::utf8::encode_utf8(input@);
    let mut cut = keep;
    while cut > 0 && !input.is_char_boundary(cut)
        invariant
            bytes == vstd::utf8::encode_utf8(input@),
            vstd::utf8::valid_utf8(bytes),
            0 <= cut <= keep,
            boundary_at_most(bytes, keep as int) == boundary_at_most(bytes, cut as int),
        decreases cut,
    {
        cut = cut - 1;
    }
    proof {
        vstd::utf8::is_char_boundary_start_end_of_seq(bytes);
        assert(vstd::utf8::is_char_boundary(bytes, cut as int));
        assert(boundary_at_most(bytes, cut as int) == cut as int);
    }
    let parts = input.split_at(cut);
    let head = parts.0;
    proof {
        vstd::utf8::valid_utf8_split(bytes, cut as int);
        vstd::utf8::encode_utf8_decode_utf8(head@);
        assert(head.spec_bytes() =~= bytes.take(cut as int));
        assert(head@ == vstd::utf8::decode_utf8(bytes.take(cut as int)));
    }
    let r = head.to_owned().concat("...");
    proof {
        assert(r@ =~= spec_truncate(input@, max_length as nat));
    }
    r
}

/// The digit part of a version component: an optional leading plus sign is
/// dropped.
pub open spec fn comp_digits(s: Seq<char>) -> Seq<char> {
    if s.len() > 0 && s[0] == '+' {
        s.drop_first()
    } else {
        s
    }
}

/// Whether a text is a version component the way unsigned integer parsing
/// reads one: an optional plus sign, then at least one decimal digit (leading
/// zeros allowed).
pub open spec fn is_component(s: Seq<char>) -> bool {
    comp_digits(s).len() >= 1 && forall|k: int|
        0 <= k < comp_digits(s).len() ==> crate::strutil::is_dec_digit(#[trigger] comp_digits(s)[k])
}

/// The numeric value of a version component.
pub open spec fn comp_val(s: Seq<char>) -> nat {
    crate::strutil::digits_val(comp_digits(s))
}

/// A maximal digit run starting where a component's digits stand is exactly
/// those digits.
proof fn lemma_component_run(v: Seq<char>, pos: int, q: int, j: int, c: Seq<char>)
    requires
        is_component(c),
        crate::decode::lit_at(v, pos, c),
        pos + c.len() == v.len() || !crate::strutil::is_dec_digit(v[pos + c.len()]),
        q == pos + c.len() - comp_digits(c).len(),
        pos <= q <= j <= v.len(),
        forall|m: int| q <= m < j ==> crate::strutil::is_dec_digit(#[trigger] v[m]),
        j == v.len() || !crate::strutil::is_dec_digit(v[j]),
    ensures
        j == pos + c.len(),
        v.subrange(q, j) == comp_digits(c),
{
    let cd = comp_digits(c);
    assert(forall|k: int| 0 <= k < c.len() ==> v.subrange(pos, pos + c.len())[k] == c[k]);
    assert forall|k: int| q <= k < pos + c.len() implies crate::strutil::is_dec_digit(
        #[trigger] v[k],
    ) by {
        assert(v.subrange(pos, pos + c.len())[k - pos] == c[k - pos]);
        assert(c[k - pos] == cd[k - q]);
    }
    if j < pos + c.len() {
        assert(crate::strutil::is_dec_digit(v[j]));
        assert(false);
    }
    if j > pos + c.len() {
        assert(crate::strutil::is_dec_digit(v[pos + c.len()]));
        assert(false);
    }
    assert(v.subrange(q, j) =~= cd);
}

/// Read a version component at `pos`: an optional plus sign and a digit run,
/// valued at most `u32::MAX`. Whenever a component of value in range stands
/// at `pos` with no digit right after it, the call succeeds with its value.
#[verifier::rlimit(100)]
#[verifier::spinoff_prover]
fn parse_component(v: &Vec<char>, pos: usize) -> (r: Option<(u32, usize)>)
    requires
        pos <= v@.len(),
    ensures
        r matches Some(np) ==> pos < np.1 <= v@.len() && is_component(
            v@.subrange(pos as int, np.1 as int),
        ) && comp_val(v@.subrange(pos as int, np.1 as int)) == np.0 && (np.1 == v@.len()
            || !crate::strutil::is_dec_digit(v@[np.1 as int])),
        forall|c: Seq<char>|
            #![trigger comp_val(c)]
            (is_component(c) && comp_val(c) <= 0xffff_ffff && crate::decode::lit_at(
                v@,
                pos as int,
                c,
            ) && (pos + c.len() == v@.len() || !crate::strutil::is_dec_digit(v@[pos + c.len()])))
                ==> (r matches Some(np) && np.0 == comp_val(c) && np.1 == pos + c.len()),
{
    let n = v.len();
    let q: usize = if pos < n && v[pos] == '+' {
        pos + 1
    } else {
        pos
    };
    proof {
        assert forall|c: Seq<char>|
            #![trigger comp_val(c)]
            is_component(c) && crate::decode::lit_at(v@, pos as int, c) implies q == pos + c.len()
            - comp_digits(c).len() by {
            assert(v@.subrange(pos as int, pos + c.len())[0] == c[0]);
            if c[0] == '+' {
                assert(v@[pos as int] == '+');
            } else {
                assert(crate::strutil::is_dec_digit(c[0]));
                assert(v@[pos as int] != '+');
            }
        }
    }
    let mut j: usize = q;
    while j < n && v[j] >= '0' && v[j] <= '9'
        invariant
            pos <= q <= j <= n,
            n == v@.len(),
            forall|k: int| q <= k < j ==> crate::strutil::is_dec_digit(#[trigger] v@[k]),
        decreases n - j,
    {
        j = j + 1;
    }
    proof {
        assert(j == v@.len() || !crate::strutil::is_dec_digit(v@[j as int]));
    }
    if j == q {
        proof {
            assert forall|c: Seq<char>|
                #![trigger comp_val(c)]
                !(is_component(c) && comp_val(c) <= 0xffff_ffff && crate::decode::lit_at(
                    v@,
                    pos as int,
                    c,
                ) && (pos + c.len() == v@.len() || !crate::strutil::is_dec_digit(
                    v@[pos + c.len()],
                ))) by {
                if is_component(c) && crate::decode::lit_at(v@, pos as int, c) && (pos + c.len()
                    == v@.len() || !crate::strutil::is_dec_digit(v@[pos + c.len()])) {
                    lemma_component_run(v@, pos as int, q as int, j as int, c);
                    assert(comp_digits(c).len() == 0);
                    assert(false);
                }
            }
        }
        return None;
    }
    let ghost run = v@.subrange(q as int, j as int);
    let mut acc: u64 = 0;
    let mut k: usize = q;
    while k < j
        invariant
            pos <= q <= k <= j <= v@.len(),
            run == v@.subrange(q as int, j as int),
            run.len() == j - q,
            run.len() >= 1,
            forall|m: int| q <= m < j ==> crate::strutil::is_dec_digit(#[trigger] v@[m]),
            j == v@.len() || !crate::strutil::is_dec_digit(v@[j as int]),
            q == pos || (q == pos + 1 && v@[pos as int] == '+'),
            acc as nat == crate::strutil::digits_val(run.take(k - q)),
            acc <= 0xffff_ffff,
        decreases j - k,
    {
        let c = v[k];
        let d: u64 = (c as u32 - '0' as u32) as u64;
        proof {
            assert(crate::strutil::is_dec_digit(v@[k as int]));
            assert(run[k - q] == v@[k as int]);
            assert(d as nat == crate::strutil::digit_val(run[k - q]));
        }
        let next = acc * 10 + d;
        proof {
            assert(run.take(k + 1 - q).drop_last() =~= run.take(k - q));
            assert(run.take(k + 1 - q).last() == run[k - q]);
            assert(next as nat == crate::strutil::digits_val(run.take(k + 1 - q)));
        }
        if next > 0xffff_ffffu64 {
            proof {
                assert forall|c2: Seq<char>|
                    #![trigger comp_val(c2)]
                    !(is_component(c2) && comp_val(c2) <= 0xffff_ffff && crate::decode::lit_at(
                        v@,
                        pos as int,
                        c2,
                    ) && (pos + c2.len() == v@.len() || !crate::strutil::is_dec_digit(
                        v@[pos + c2.len()],
                    ))) by {
                    if is_component(c2) && comp_val(c2) <= 0xffff_ffff && crate::decode::lit_at(
                        v@,
                        pos as int,
                        c2,
                    ) && (pos + c2.len() == v@.len() || !crate::strutil::is_dec_digit(
                        v@[pos + c2.len()],
                    )) {
                        assert(v@.subrange(pos as int, pos + c2.len())[0] == c2[0]);
                        if c2[0] == '+' {
                            assert(v@[pos as int] == '+');
                        } else {
                            assert(crate::strutil::is_dec_digit(c2[0]));
                            assert(v@[pos as int] != '+');
                        }
                        lemma_component_run(v@, pos as int, q as int, j as int, c2);
                        assert(run == comp_digits(c2));
                        crate::strutil::lemma_digits_val_take(run, k + 1 - q);
                        assert(crate::strutil::digits_val(run) == comp_val(c2));
                        assert(next as nat <= comp_val(c2));
                        assert(false);
                    }
                }
            }
            return None;
        }
        acc = next;
        k = k + 1;
    }
    proof {
        assert(run.take(j - q) =~= run);
        assert(acc as nat == crate::strutil::digits_val(run));
        let ghost consumed = v@.subrange(pos as int, j as int);
        assert(comp_digits(consumed) =~= run) by {
            if q == pos + 1 {
                assert(consumed[0] == '+');
                assert(consumed.drop_first() =~= run);
            } else {
                assert(consumed =~= run);
                assert(crate::strutil::is_dec_digit(consumed[0]));
                assert(consumed[0] != '+');
            }
        }
        assert(is_component(consumed));
        assert(comp_val(consumed) == acc as nat);
        assert forall|c: Seq<char>|
            #![trigger comp_val(c)]
            (is_component(c) && comp_val(c) <= 0xffff_ffff && crate::decode::lit_at(
                v@,
                pos as int,
                c,
            ) && (pos + c.len() == v@.len() || !crate::strutil::is_dec_digit(
                v@[pos + c.len()],
            ))) implies acc == comp_val(c) && j == pos + c.len() by {
            assert(v@.subrange(pos as int, pos + c.len())[0] == c[0]);
            if c[0] == '+' {
                assert(v@[pos as int] == '+');
            } else {
                assert(crate::strutil::is_dec_digit(c[0]));
                assert(v@[pos as int] != '+');
            }
            lemma_component_run(v@, pos as int, q as int, j as int, c);
            assert(run == comp_digits(c));
        }
    }
    Some((acc as u32, j))
}

/// How two version triples compare: major first, then minor, then patch.
pub open spec fn spec_version_cmp(x: (u32, u32, u32), y: (u32, u32, u32)) -> core::cmp::Ordering {
    if x.0 < y.0 {
        core::cmp::Ordering::Less
    } else if x.0 > y.0 {
        core::cmp::Ordering::Greater
    } else if x.1 < y.1 {
        core::cmp::Ordering::Less
    } else if x.1 > y.1 {
        core::cmp::Ordering::Greater
    } else if x.2 < y.2 {
        core::cmp::Ordering::Less
    } else if x.2 > y.2 {
        core::cmp::Ordering::Greater
    } else {
        core::cmp::Ordering::Equal
    }
}

/// Whether a text splits on dots into exactly the three given version
/// components.
pub open spec fn version_split(
    s: Seq<char>,
    c1: Seq<char>,
    c2: Seq<char>,
    c3: Seq<char>,
) -> bool {
    &&& is_component(c1)
    &&& is_component(c2)
    &&& is_component(c3)
    &&& s == c1 + seq!['.'] + c2 + seq!['.'] + c3
}

/// Parse an `x.y.z` version string: three dot-separated unsigned components,
/// each as unsigned integer parsing reads them (optional plus sign, leading
/// zeros allowed), each fitting 32 bits.
#[verifier::rlimit(100)]
#[verifier::spinoff_prover]
pub fn parse_version(version: &str) -> (r: Result<(u32, u32, u32), UmicpError>)
    ensures
        r matches Ok(t) ==> exists|c1: Seq<char>, c2: Seq<char>, c3: Seq<char>|
            #![trigger version_split(version@, c1, c2, c3)]
            version_split(version@, c1, c2, c3) && t.0 == comp_val(c1) && t.1 == comp_val(c2)
                && t.2 == comp_val(c3),
        forall|c1: Seq<char>, c2: Seq<char>, c3: Seq<char>|
            #![trigger version_split(version@, c1, c2, c3)]
            version_split(version@, c1, c2, c3) && comp_val(c1) <= 0xffff_ffff && comp_val(c2)
                <= 0xffff_ffff && comp_val(c3) <= 0xffff_ffff ==> (r matches Ok(t) && t.0
                == comp_val(c1) && t.1 == comp_val(c2) && t.2 == comp_val(c3)),
        r matches Err(e) ==> e is Validation,
{
    let v = crate::strutil::to_chars(version);
    let n = v.len();
    proof {
        assert forall|c1: Seq<char>, c2: Seq<char>, c3: Seq<char>|
            #![trigger version_split(version@, c1, c2, c3)]
            version_split(version@, c1, c2, c3) implies crate::decode::lit_at(v@, 0, c1) && (0
            + c1.len() == v@.len() || !crate::strutil::is_dec_digit(v@[0 + c1.len() as int])) by {
            assert(v@ =~= c1 + (seq!['.'] + (c2 + (seq!['.'] + c3))));
            assert(crate::decode::lit_at(v@, 0, c1 + (seq!['.'] + (c2 + (seq!['.'] + c3)))))
                by {
                assert(v@.subrange(0, v@.len() as int) =~= v@);
            }
            crate::decode::lemma_lit_split(v@, 0, c1, seq!['.'] + (c2 + (seq!['.'] + c3)));
            assert(v@[c1.len() as int] == '.') by {
                assert(v@.subrange(c1.len() as int, v@.len() as int)[0] == '.');
            }
        }
    }
    let (ma, p1) = match parse_component(&v, 0) {
        Some(x) => x,
        None => {
            return Err(UmicpError::validation("Invalid version format"));
        },
    };
    if p1 >= n || v[p1] != '.' {
        proof {
            assert forall|c1: Seq<char>, c2: Seq<char>, c3: Seq<char>|
                #![trigger version_split(version@, c1, c2, c3)]
                !(version_split(version@, c1, c2, c3) && comp_val(c1) <= 0xffff_ffff && comp_val(
                    c2,
                ) <= 0xffff_ffff && comp_val(c3) <= 0xffff_ffff) by {
                if version_split(version@, c1, c2, c3) && comp_val(c1) <= 0xffff_ffff && comp_val(
                    c2,
                ) <= 0xffff_ffff && comp_val(c3) <= 0xffff_ffff {
                    assert(v@ =~= c1 + (seq!['.'] + (c2 + (seq!['.'] + c3))));
                    assert(v@[c1.len() as int] == '.') by {
                        assert(v@.subrange(0, v@.len() as int) =~= v@);
                        crate::decode::lemma_lit_split(
                            v@,
                            0,
                            c1,
                            seq!['.'] + (c2 + (seq!['.'] + c3)),
                        );
                        assert(v@.subrange(c1.len() as int, v@.len() as int)[0] == '.');
                    }
                    assert(false);
                }
            }
        }
        return Err(UmicpError::validation("Invalid version format"));
    }
    proof {
        assert forall|c1: Seq<char>, c2: Seq<char>, c3: Seq<char>|
            #![trigger version_split(version@, c1, c2, c3)]
            version_split(version@, c1, c2, c3) && comp_val(c1) <= 0xffff_ffff implies p1
            == c1.len() && crate::decode::lit_at(v@, p1 + 1, c2) && (p1 + 1 + c2.len() == v@.len()
            || !crate::strutil::is_dec_digit(v@[p1 + 1 + c2.len()])) by {
            assert(v@ =~= c1 + (seq!['.'] + (c2 + (seq!['.'] + c3))));
            assert(v@.subrange(0, v@.len() as int) =~= v@);
            crate::decode::lemma_lit_split(v@, 0, c1, seq!['.'] + (c2 + (seq!['.'] + c3)));
            crate::decode::lemma_lit_split(v@, c1.len() as int, seq!['.'], c2 + (seq!['.'] + c3));
            crate::decode::lemma_lit_split(v@, c1.len() as int + 1, c2, seq!['.'] + c3);
            assert(v@[c1.len() as int + 1 + c2.len()] == '.') by {
                assert(v@.subrange(c1.len() as int + 1 + c2.len(), v@.len() as int)[0] == '.');
            }
        }
    }
    let (mi, p2) = match parse_component(&v, p1 + 1) {
        Some(x) => x,
        None => {
            return Err(UmicpError::validation("Invalid version format"));
        },
    };
    if p2 >= n || v[p2] != '.' {
        proof {
            assert forall|c1: Seq<char>, c2: Seq<char>, c3: Seq<char>|
                #![trigger version_split(version@, c1, c2, c3)]
                !(version_split(version@, c1, c2, c3) && comp_val(c1) <= 0xffff_ffff && comp_val(
                    c2,
                ) <= 0xffff_ffff && comp_val(c3) <= 0xffff_ffff) by {
                if version_split(version@, c1, c2, c3) && comp_val(c1) <= 0xffff_ffff && comp_val(
                    c2,
                ) <= 0xffff_ffff && comp_val(c3) <= 0xffff_ffff {
                    assert(false);
                }
            }
        }
        return Err(UmicpError::validation("Invalid version format"));
    }
    proof {
        assert forall|c1: Seq<char>, c2: Seq<char>, c3: Seq<char>|
            #![trigger version_split(version@, c1, c2, c3)]
            version_split(version@, c1, c2, c3) && comp_val(c1) <= 0xffff_ffff && comp_val(c2)
                <= 0xffff_ffff implies p2 == p1 + 1 + c2.len() && crate::decode::lit_at(
            v@,
            p2 + 1,
            c3,
        ) && p2 + 1 + c3.len() == v@.len() by {
            assert(v@ =~= c1 + (seq!['.'] + (c2 + (seq!['.'] + c3))));
            assert(v@.subrange(0, v@.len() as int) =~= v@);
            crate::decode::lemma_lit_split(v@, 0, c1, seq!['.'] + (c2 + (seq!['.'] + c3)));
            crate::decode::lemma_lit_split(v@, c1.len() as int, seq!['.'], c2 + (seq!['.'] + c3));
            crate::decode::lemma_lit_split(v@, c1.len() as int + 1, c2, seq!['.'] + c3);
            crate::decode::lemma_lit_split(v@, c1.len() as int + 1 + c2.len(), seq!['.'], c3);
        }
    }
    let (pa, p3) = match parse_component(&v, p2 + 1) {
        Some(x) => x,
        None => {
            return Err(UmicpError::validation("Invalid version format"));
        },
    };
    if p3 != n {
        proof {
            assert forall|c1: Seq<char>, c2: Seq<char>, c3: Seq<char>|
                #![trigger version_split(version@, c1, c2, c3)]
                !(version_split(version@, c1, c2, c3) && comp_val(c1) <= 0xffff_ffff && comp_val(
                    c2,
                ) <= 0xffff_ffff && comp_val(c3) <= 0xffff_ffff) by {
                if version_split(version@, c1, c2, c3) && comp_val(c1) <= 0xffff_ffff && comp_val(
                    c2,
                ) <= 0xffff_ffff && comp_val(c3) <= 0xffff_ffff {
                    assert(false);
                }
            }
        }
        return Err(UmicpError::validation("Invalid version format"));
    }
    let t = (ma, mi, pa);
    proof {
        let ghost c1 = v@.subrange(0, p1 as int);
        let ghost c2 = v@.subrange(p1 + 1, p2 as int);
        let ghost c3 = v@.subrange(p2 + 1, p3 as int);
        assert(version@ =~= c1 + seq!['.'] + c2 + seq!['.'] + c3);
        assert(version_split(version@, c1, c2, c3));
    }
    Ok(t)
}

/// Compare two version strings, major then minor then patch; a string either
/// parser rejects is an error.
pub fn compare_versions(version1: &str, version2: &str) -> (r: Result<
    core::cmp::Ordering,
    UmicpError,
>)
    ensures
        r matches Ok(o) ==> exists|x: (u32, u32, u32), y: (u32, u32, u32)|
            #![trigger spec_version_cmp(x, y)]
            o == spec_version_cmp(x, y) && (exists|c1: Seq<char>, c2: Seq<char>, c3: Seq<char>|
                #![trigger version_split(version1@, c1, c2, c3)]
                version_split(version1@, c1, c2, c3) && x == (
                    comp_val(c1) as u32,
                    comp_val(c2) as u32,
                    comp_val(c3) as u32,
                )) && (exists|c1: Seq<char>, c2: Seq<char>, c3: Seq<char>|
                #![trigger version_split(version2@, c1, c2, c3)]
                version_split(version2@, c1, c2, c3) && y == (
                    comp_val(c1) as u32,
                    comp_val(c2) as u32,
                    comp_val(c3) as u32,
                )),
        forall|c1: Seq<char>, c2: Seq<char>, c3: Seq<char>, d1: Seq<char>, d2: Seq<char>, d3: Seq<
            char,
        >|
            #![trigger version_split(version1@, c1, c2, c3), version_split(version2@, d1, d2, d3)]
            (version_split(version1@, c1, c2, c3) && comp_val(c1) <= 0xffff_ffff && comp_val(c2)
                <= 0xffff_ffff && comp_val(c3) <= 0xffff_ffff && version_split(
                version2@,
                d1,
                d2,
                d3,
            ) && comp_val(d1) <= 0xffff_ffff && comp_val(d2) <= 0xffff_ffff && comp_val(d3)
                <= 0xffff_ffff) ==> (r matches Ok(o) && o == spec_version_cmp(
                (comp_val(c1) as u32, comp_val(c2) as u32, comp_val(c3) as u32),
                (comp_val(d1) as u32, comp_val(d2) as u32, comp_val(d3) as u32),
            )),
        r matches Err(e) ==> e is Validation,
{
    let t1 = match parse_version(version1) {
        Ok(t) => t,
        Err(e) => {
            return Err(e);
        },
    };
    let t2 = match parse_version(version2) {
        Ok(t) => t,
        Err(e) => {
            return Err(e);
        },
    };
    let o = if t1.0 < t2.0 {
        core::cmp::Ordering::Less
    } else if t1.0 > t2.0 {
        core::cmp::Ordering::Greater
    } else if t1.1 < t2.1 {
        core::cmp::Ordering::Less
    } else if t1.1 > t2.1 {
        core::cmp::Ordering::Greater
    } else if t1.2 < t2.2 {
        core::cmp::Ordering::Less
    } else if t1.2 > t2.2 {
        core::cmp::Ordering::Greater
    } else {
        core::cmp::Ordering::Equal
    };
    proof {
        assert(o == spec_version_cmp(t1, t2));
    }
    Ok(o)
}

} // verus!