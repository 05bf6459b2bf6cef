//! Open requests: a `file://` URL or a bare path, resolved to a file.

use crate::text::{chars_of, lemma_texts_push, strip_prefix, texts};
use vstd::prelude::*;
use vstd::utf8::{decode_utf8, encode_utf8, valid_utf8};

verus! {

/// Whether `c` is an ASCII letter.
pub open spec fn is_letter(c: char) -> bool {
    'a' <= c <= 'z' || 'A' <= c <= 'Z'
}

/// Whether `c` may stand in a URL scheme.
pub open spec fn is_scheme_char(c: char) -> bool {
    is_letter(c) || '0' <= c <= '9' || c == '+' || c == '-' || c == '.'
}

/// Whether `text` is a URL scheme: two or more of its characters, the first of
/// them a letter. A single letter is a Windows drive.
pub open spec fn is_scheme(text: Seq<char>) -> bool {
    &&& text.len() >= 2
    &&& is_letter(text[0])
    &&& forall|i: int| 0 <= i < text.len() ==> is_scheme_char(#[trigger] text[i])
}

/// Whether `input` begins with a URL scheme and a colon.
pub open spec fn begins_with_scheme(input: Seq<char>) -> bool {
    exists|colon: int|
        0 <= colon < input.len() && input[colon] == ':' && is_scheme(#[trigger] input.take(colon))
}

/// Tell whether `input` begins with a URL scheme, such as `http:`.
pub fn has_url_scheme(input: &str) -> (res: bool)
    ensures
        res == begins_with_scheme(input@),
{
    let chars: Vec<char> = chars_of(input);
    for i in 0..chars.len()
        invariant
            chars@ == input@,
            forall|j: int| 0 <= j < i ==> is_scheme_char(#[trigger] input@[j]),
            i > 0 ==> is_letter(input@[0]),
    {
        let c: char = chars[i];
        let letter: bool = ('a' <= c && c <= 'z') || ('A' <= c && c <= 'Z');
        if c == ':' {
            proof {
                assert(i >= 2 ==> is_scheme(input@.take(i as int)));
                assert forall|colon: int|
                    0 <= colon < input@.len() && input@[colon] == ':' && is_scheme(
                        #[trigger] input@.take(colon),
                    ) implies colon == i by {
                    if colon < i {
                        assert(is_scheme_char(input@[colon]));
                    } else if i < colon {
                        assert(input@.take(colon)[i as int] == ':');
                    }
                }
            }
            return i >= 2;
        }
        if !(letter || (i > 0 && (('0' <= c && c <= '9') || c == '+' || c == '-' || c == '.'))) {
            proof {
                assert forall|colon: int| 0 <= colon < input@.len() && input@[colon] == ':' implies !is_scheme(
                    #[trigger] input@.take(colon),
                ) by {
                    if colon < i {
                        assert(is_scheme_char(input@[colon]));
                    } else if i < colon {
                        assert(input@.take(colon)[i as int] == c);
                        assert(input@.take(colon)[0] == input@[0]);
                    }
                }
            }
            return false;
        }
    }
    proof {
        assert forall|colon: int| 0 <= colon < input@.len() implies input@[colon] != ':' by {
            assert(is_scheme_char(input@[colon]));
        }
    }
    false
}

/// The value of a hexadecimal digit, given in ASCII.
pub open spec fn hex_value(digit: u8) -> Option<int> {
    if 0x30 <= digit <= 0x39 {
        Some(digit - 0x30)
    } else if 0x41 <= digit <= 0x46 {
        Some(digit - 0x41 + 10)
    } else if 0x61 <= digit <= 0x66 {
        Some(digit - 0x61 + 10)
    } else {
        None
    }
}

/// Whether `bytes` begin with a percent sign and two hexadecimal digits.
pub open spec fn begins_with_escape(bytes: Seq<u8>) -> bool {
    bytes.len() >= 3 && bytes[0] == 0x25 && hex_value(bytes[1]) is Some && hex_value(
        bytes[2],
    ) is Some
}

/// `bytes` with each escape replaced by the byte that it stands for. A percent
/// sign that begins no escape stands for itself, as does every other byte.
pub open spec fn percent_decoded(bytes: Seq<u8>) -> Seq<u8>
    decreases bytes.len(),
{
    if bytes.len() == 0 {
        Seq::empty()
    } else if begins_with_escape(bytes) {
        seq![(16 * hex_value(bytes[1])->0 + hex_value(bytes[2])->0) as u8] + percent_decoded(
            bytes.skip(3),
        )
    } else {
        seq![bytes[0]] + percent_decoded(bytes.skip(1))
    }
}

/// The text that a percent-encoded text stands for, unless its bytes are not
/// valid UTF-8.
pub open spec fn url_decoded(encoded: Seq<char>) -> Option<Seq<char>> {
    let bytes = percent_decoded(encode_utf8(encoded));
    if valid_utf8(bytes) {
        Some(decode_utf8(bytes))
    } else {
        None
    }
}

/// The path that an open request names: what a `file://` URL encodes, or the
/// request itself if it has no scheme.
pub open spec fn named_path(input: Seq<char>) -> Option<Seq<char>> {
    if "file://"@.is_prefix_of(input) {
        url_decoded(input.skip("file://"@.len() as int))
    } else if begins_with_scheme(input) {
        None
    } else {
        Some(input)
    }
}

/// Whether `c` separates the components of a path on some platform.
pub open spec fn is_separator(c: char) -> bool {
    c == '/' || c == '\\'
}

/// Whether a path can be absolute: it begins with a slash, with two separators, or
/// with a drive and a separator.
pub open spec fn can_be_absolute(path: Seq<char>) -> bool {
    ||| path.len() >= 1 && path[0] == '/'
    ||| path.len() >= 2 && is_separator(path[0]) && is_separator(path[1])
    ||| path.len() >= 3 && is_letter(path[0]) && path[1] == ':' && is_separator(path[2])
}

/// `std::string::FromUtf8Error`, with which decoding fails; nothing is claimed of
/// what it holds.
#[verifier::external_type_specification]
#[verifier::external_body]
pub struct ExFromUtf8Error(std::string::FromUtf8Error);

/// `urlencoding::decode`: percent-decodes the bytes of the text and reads the
/// result as UTF-8. It fails exactly if they are not valid UTF-8; malformed
/// escapes are kept as they are, and so is `+`.
#[verifier::external_body]
fn url_decode(encoded: &str) -> (res: Result<String, std::string::FromUtf8Error>)
    ensures
        match res {
            Ok(text) => url_decoded(encoded@) == Some(text@),
            Err(_) => url_decoded(encoded@) is None,
        },
{
    match urlencoding::decode(encoded) {
        Ok(text) => Ok(text.into_owned()),
        Err(error) => Err(error),
    }
}

/// `std::path::Path::is_absolute`. What it says depends on the platform: on Unix
/// an absolute path begins with a slash; on Windows it begins with a prefix and has
/// a root, so that it begins with two separators, or with a drive and a separator.
/// The contract claims that one of these holds, and leaves unsaid which of the
/// remaining paths are absolute.
#[verifier::external_body]
fn path_is_absolute(path: &str) -> (res: bool)
    ensures
        res ==> can_be_absolute(path@),
{
    std::path::Path::new(path).is_absolute()
}

/// Whether `std::path::Path::is_absolute` may give `answer` for `path`; which answer
/// it gives depends on the platform.
pub closed spec fn absolute_answer(path: Seq<char>, answer: bool) -> bool {
    exists|text: &str|
        text@ == path && #[trigger] call_ensures(path_is_absolute, (text,), answer)
}

/// A path for which the answer may be that it is absolute begins with a slash, with
/// two separators, or with a drive and a separator.
pub proof fn law_absolute_answer(path: Seq<char>)
    requires
        absolute_answer(path, true),
    ensures
        can_be_absolute(path),
{
}

/// Ask whether a path is absolute.
fn ask_absolute(path: &str) -> (answer: bool)
    ensures
        absolute_answer(path@, answer),
{
    let ask = path_is_absolute;
    ask(path)
}

/// Why an open request was turned down.
#[derive(Clone, Copy, PartialEq, Eq, Debug, Structural)]
pub enum OpenRefusal {
    /// The path of the URL is not valid UTF-8 when decoded.
    Undecodable,
    /// The URL has a scheme other than `file`.
    ForeignScheme,
}

/// Tell which path an open request names.
pub fn requested_path(input: &str) -> (res: Result<String, OpenRefusal>)
    ensures
        match res {
            Ok(path) => named_path(input@) == Some(path@),
            Err(_) => named_path(input@) is None,
        },
        res == Err::<String, _>(OpenRefusal::Undecodable) <==> "file://"@.is_prefix_of(input@)
            && url_decoded(input@.skip("file://"@.len() as int)) is None,
        res == Err::<String, _>(OpenRefusal::ForeignScheme) <==> !"file://"@.is_prefix_of(input@)
            && begins_with_scheme(input@),
{
    match strip_prefix(input, "file://") {
        Some(encoded) => {
            assert(encoded@ =~= input@.skip("file://"@.len() as int));
            assert("file://"@.is_prefix_of(input@)) by {
                assert(input@.subrange(0, "file://"@.len() as int) =~= "file://"@);
            }
            match url_decode(encoded) {
                Ok(path) => Ok(path),
                Err(_) => Err(OpenRefusal::Undecodable),
            }
        },
        None => {
            if has_url_scheme(input) {
                Err(OpenRefusal::ForeignScheme)
            } else {
                Ok(input.to_owned())
            }
        },
    }
}

/// Take a path only if it is absolute and an existing file.
pub fn openable_path(path: String, is_absolute: bool, is_file: bool) -> (res: Option<String>)
    ensures
        res == (if is_absolute && is_file {
            Some(path)
        } else {
            None
        }),
{
    if is_absolute && is_file {
        Some(path)
    } else {
        None
    }
}

/// Resolve an open request to the path of a file. `is_file` says whether the path
/// that the request names is an existing file.
///
/// The result is the path that the request names, if `std::path::Path::is_absolute`
/// answers that it is absolute and it is a file. There is none if the request has a
/// scheme other than `file`, or if it cannot be decoded. Which paths are absolute
/// depends on the platform.
pub fn url_to_path(input: &str, is_file: bool) -> (res: Option<String>)
    ensures
        match res {
            Some(path) => is_file && named_path(input@) == Some(path@) && can_be_absolute(path@),
            None => true,
        },
        match named_path(input@) {
            Some(named) => exists|is_absolute: bool| #[trigger]
                absolute_answer(named, is_absolute) && (res is Some <==> is_absolute && is_file),
            None => res is None,
        },
{
    match requested_path(input) {
        Ok(path) => {
            let is_absolute: bool = ask_absolute(path.as_str());
            proof {
                assert(absolute_answer(named_path(input@)->0, is_absolute));
                if is_absolute {
                    law_absolute_answer(path@);
                }
            }
            openable_path(path, is_absolute, is_file)
        },
        Err(_) => None,
    }
}

/// The texts of a list that are there, in order.
pub open spec fn present(list: Seq<Option<String>>) -> Seq<Seq<char>>
    decreases list.len(),
{
    if list.len() == 0 {
        Seq::empty()
    } else {
        match list.last() {
            Some(text) => present(list.drop_last()).push(text@),
            None => present(list.drop_last()),
        }
    }
}

/// Queue the paths to which the open requests of one event were resolved, in
/// order; a request that was turned down adds nothing.
///
/// Returns whether something was queued.
pub fn queue_open_requests(pending: &mut Vec<String>, resolved: Vec<Option<String>>) -> (queued: bool)
    ensures
        texts(final(pending)@) == texts(old(pending)@) + present(resolved@),
        queued == (present(resolved@).len() > 0),
{
    let mut queued: bool = false;
    assert(texts(pending@) + present(resolved@.take(0)) =~= texts(pending@));
    for i in 0..resolved.len()
        invariant
            texts(pending@) == texts(old(pending)@) + present(resolved@.take(i as int)),
            queued == (present(resolved@.take(i as int)).len() > 0),
    {
        assert(resolved@.take(i + 1).drop_last() =~= resolved@.take(i as int));
        assert(resolved@.take(i + 1).last() == resolved@[i as int]);
        if let Some(path) = &resolved[i] {
            proof {
                lemma_texts_push(pending@, *path);
            }
            pending.push(path.clone());
            queued = true;
            assert(texts(pending@) =~= texts(old(pending)@) + present(resolved@.take(i + 1)));
        }
    }
    assert(resolved@.take(resolved.len() as int) =~= resolved@);
    queued
}

/// A bare path that can be absolute has no scheme, though it may hold colons, and
/// names itself.
pub proof fn law_bare_path_names_itself(path: Seq<char>)
    requires
        can_be_absolute(path),
    ensures
        !begins_with_scheme(path),
        named_path(path) == Some(path),
{
    reveal_strlit("file://");
    assert forall|colon: int| 0 <= colon < path.len() && path[colon] == ':' implies !is_scheme(
        #[trigger] path.take(colon),
    ) by {
        let scheme = path.take(colon);
        if is_scheme(scheme) {
            assert(scheme[0] == path[0]);
            assert(scheme[1] == path[1]);
            assert(is_scheme_char(scheme[1]));
        }
    }
    if "file://"@.is_prefix_of(path) {
        assert("file://"@[0] == path[0]);
        assert("file://"@[1] == path[1]);
    }
}

/// A request that begins with a dot, as relative paths do, names itself, and that
/// is absolute on no platform.
pub proof fn law_dot_path_is_never_absolute(input: Seq<char>)
    requires
        input.len() > 0,
        input[0] == '.',
    ensures
        named_path(input) == Some(input),
        !can_be_absolute(input),
{
    reveal_strlit("file://");
    assert forall|colon: int| 0 <= colon < input.len() && input[colon] == ':' implies !is_scheme(
        #[trigger] input.take(colon),
    ) by {
        if is_scheme(input.take(colon)) {
            assert(input.take(colon)[0] == input[0]);
        }
    }
    if "file://"@.is_prefix_of(input) {
        assert("file://"@[0] == input[0]);
    }
}

/// A URL with a scheme other than `file` names no path, whatever follows it.
pub proof fn law_foreign_scheme_names_nothing(scheme: Seq<char>, rest: Seq<char>)
    requires
        is_scheme(scheme),
        scheme != "file"@,
    ensures
        named_path(scheme.push(':') + rest) is None,
{
    reveal_strlit("file://");
    reveal_strlit("file");
    let input = scheme.push(':') + rest;
    let colon = scheme.len() as int;
    assert(input.take(colon) =~= scheme);
    assert(input[colon] == ':');
    if "file://"@.is_prefix_of(input) {
        assert(forall|i: int| 0 <= i < 7 ==> "file://"@[i] == #[trigger] input[i]);
        if colon < 4 {
            assert(input[colon] != ':');
        } else if colon > 4 {
            assert(is_scheme_char(scheme[4]));
            assert(scheme[4] == input[4]);
        } else {
            assert(scheme =~= "file"@);
        }
    }
}

/// Whether a byte stands for itself in a percent-encoded text: letters, digits,
/// `-`, `_`, `.` and `~` do.
pub open spec fn is_unreserved(byte: u8) -> bool {
    ||| 0x30 <= byte <= 0x39
    ||| 0x41 <= byte <= 0x5a
    ||| 0x61 <= byte <= 0x7a
    ||| byte == 0x2d
    ||| byte == 0x5f
    ||| byte == 0x2e
    ||| byte == 0x7e
}

/// The hexadecimal digit of a value below sixteen, in ASCII.
pub open spec fn hex_digit(value: int) -> u8 {
    if value < 10 {
        (0x30 + value) as u8
    } else {
        (0x41 + value - 10) as u8
    }
}

/// `bytes` percent-encoded: each byte that is not unreserved becomes an escape.
pub open spec fn percent_encoded(bytes: Seq<u8>) -> Seq<u8>
    decreases bytes.len(),
{
    if bytes.len() == 0 {
        Seq::empty()
    } else if is_unreserved(bytes[0]) {
        seq![bytes[0]] + percent_encoded(bytes.skip(1))
    } else {
        seq![0x25u8, hex_digit(bytes[0] as int / 16), hex_digit(bytes[0] as int % 16)]
            + percent_encoded(bytes.skip(1))
    }
}

/// ASCII bytes as characters.
pub open spec fn ascii_text(bytes: Seq<u8>) -> Seq<char> {
    bytes.map_values(|byte: u8| byte as char)
}

proof fn lemma_percent_round_trip(bytes: Seq<u8>)
    ensures
        percent_decoded(percent_encoded(bytes)) == bytes,
        forall|i: int|
            0 <= i < percent_encoded(bytes).len() ==> (#[trigger] percent_encoded(bytes)[i]) < 0x80,
    decreases bytes.len(),
{
    if bytes.len() > 0 {
        let rest = bytes.skip(1);
        let tail = percent_encoded(rest);
        let all = percent_encoded(bytes);
        lemma_percent_round_trip(rest);
        if is_unreserved(bytes[0]) {
            assert(all.skip(1) =~= tail);
            assert(percent_decoded(all) =~= bytes);
        } else {
            let high = bytes[0] as int / 16;
            let low = bytes[0] as int % 16;
            assert(hex_value(hex_digit(high)) == Some(high));
            assert(hex_value(hex_digit(low)) == Some(low));
            assert(all.skip(3) =~= tail);
            assert(begins_with_escape(all));
            assert(percent_decoded(all) =~= bytes);
        }
    }
}

/// The `file://` URL that percent-encodes a path names that path.
pub proof fn law_encoded_url_names_the_path(path: Seq<char>)
    ensures
        named_path("file://"@ + ascii_text(percent_encoded(encode_utf8(path)))) == Some(path),
{
    let bytes = encode_utf8(path);
    let encoded = percent_encoded(bytes);
    let text = ascii_text(encoded);
    let input = "file://"@ + text;
    lemma_percent_round_trip(bytes);
    assert(vstd::utf8::is_ascii_chars(text));
    vstd::utf8::is_ascii_chars_encode_utf8(text);
    assert(encode_utf8(text) =~= encoded) by {
        assert forall|i: int| 0 <= i < encoded.len() implies encode_utf8(text)[i] == encoded[i] by {
            assert(text[i] as u8 == encode_utf8(text)[i]);
        }
    }
    vstd::utf8::encode_utf8_valid_utf8(path);
    vstd::utf8::encode_utf8_decode_utf8(path);
    assert("file://"@.is_prefix_of(input)) by {
        assert(input.subrange(0, "file://"@.len() as int) =~= "file://"@);
    }
    assert(input.skip("file://"@.len() as int) =~= text);
}

proof fn lemma_no_percent_byte(chars: Seq<char>)
    requires
        !chars.contains('%'),
    ensures
        !encode_utf8(chars).contains(0x25u8),
    decreases chars.len(),
{
    let all = encode_utf8(chars);
    if chars.len() > 0 {
        let rest = chars.drop_first();
        let first = vstd::utf8::encode_scalar(chars[0] as u32);
        assert(!rest.contains('%')) by {
            if rest.contains('%') {
                let i = choose|i: int| 0 <= i < rest.len() && rest[i] == '%';
                assert(chars[i + 1] == '%');
            }
        }
        lemma_no_percent_byte(rest);
        assert(chars[0] != '%');
        let scalar = chars[0] as u32;
        vstd::utf8::char_u32_cast(chars[0], scalar);
        vstd::utf8::char_u32_cast('%', 0x25u32);
        assert(scalar != 0x25);
        assert(scalar <= 0x7f && scalar != 0x25 ==> (scalar & 0x7F) as u8 != 0x25u8) by (bit_vector);
        assert(forall|x: u8| #[trigger] (0xC0u8 | x) >= 0x80) by (bit_vector);
        assert(forall|x: u8| #[trigger] (0xE0u8 | x) >= 0x80) by (bit_vector);
        assert(forall|x: u8| #[trigger] (0xF0u8 | x) >= 0x80) by (bit_vector);
        assert(forall|x: u8| #[trigger] (0x80u8 | x) >= 0x80) by (bit_vector);
        assert(forall|i: int| 0 <= i < first.len() ==> #[trigger] first[i] != 0x25);
        if all.contains(0x25u8) {
            let i = choose|i: int| 0 <= i < all.len() && all[i] == 0x25u8;
            if i < first.len() {
                assert(first[i] == 0x25);
            } else {
                assert(encode_utf8(rest)[i - first.len()] == 0x25);
            }
        }
    }
}

proof fn lemma_nothing_to_decode(bytes: Seq<u8>)
    requires
        !bytes.contains(0x25u8),
    ensures
        percent_decoded(bytes) == bytes,
    decreases bytes.len(),
{
    if bytes.len() > 0 {
        let rest = bytes.skip(1);
        assert(bytes[0] != 0x25);
        assert(!rest.contains(0x25u8)) by {
            if rest.contains(0x25u8) {
                let i = choose|i: int| 0 <= i < rest.len() && rest[i] == 0x25u8;
                assert(bytes[i + 1] == 0x25);
            }
        }
        lemma_nothing_to_decode(rest);
        assert(percent_decoded(bytes) =~= bytes);
    }
}

/// A `file://` URL without a percent sign names what follows the scheme.
pub proof fn law_plain_url_names_the_path(path: Seq<char>)
    requires
        !path.contains('%'),
    ensures
        named_path("file://"@ + path) == Some(path),
{
    let input = "file://"@ + path;
    lemma_no_percent_byte(path);
    lemma_nothing_to_decode(encode_utf8(path));
    vstd::utf8::encode_utf8_valid_utf8(path);
    vstd::utf8::encode_utf8_decode_utf8(path);
    assert("file://"@.is_prefix_of(input)) by {
        assert(input.subrange(0, "file://"@.len() as int) =~= "file://"@);
    }
    assert(input.skip("file://"@.len() as int) =~= path);
}

/// A request begins with a scheme exactly if a colon follows two or more letters,
/// digits, plus signs, minus signs and dots, of which the first is a letter.
pub proof fn law_scheme_shape(input: Seq<char>)
    ensures
        begins_with_scheme(input) <==> exists|colon: int|
            2 <= colon < input.len() && #[trigger] input[colon] == ':' && ('a' <= input[0] <= 'z'
                || 'A' <= input[0] <= 'Z') && forall|i: int|
                0 <= i < colon ==> {
                    let c = #[trigger] input[i];
                    'a' <= c <= 'z' || 'A' <= c <= 'Z' || '0' <= c <= '9' || c == '+' || c == '-'
                        || c == '.'
                },
{
    if begins_with_scheme(input) {
        let colon = choose|colon: int|
            0 <= colon < input.len() && input[colon] == ':' && is_scheme(
                #[trigger] input.take(colon),
            );
        let scheme = input.take(colon);
        assert(scheme[0] == input[0]);
        assert forall|i: int| 0 <= i < colon implies is_scheme_char(#[trigger] input[i]) by {
            assert(scheme[i] == input[i]);
        }
        assert(input[colon] == ':');
    }
    assert forall|colon: int|
        2 <= colon < input.len() && #[trigger] input[colon] == ':' && ('a' <= input[0] <= 'z'
            || 'A' <= input[0] <= 'Z') && (forall|i: int|
            0 <= i < colon ==> {
                let c = #[trigger] input[i];
                'a' <= c <= 'z' || 'A' <= c <= 'Z' || '0' <= c <= '9' || c == '+' || c == '-' || c
                    == '.'
            }) implies begins_with_scheme(input) by {
        let scheme = input.take(colon);
        assert forall|i: int| 0 <= i < scheme.len() implies is_scheme_char(
            #[trigger] scheme[i],
        ) by {
            assert(scheme[i] == input[i]);
        }
        assert(is_scheme(scheme));
    }
}

/// Whatever follows `file://` is decoded, and names what it decodes to; where it
/// cannot be decoded it names nothing.
pub proof fn law_file_url_is_decoded(encoded: Seq<char>)
    ensures
        named_path("file://"@ + encoded) == url_decoded(encoded),
{
    let input = "file://"@ + encoded;
    assert("file://"@.is_prefix_of(input)) by {
        assert(input.subrange(0, "file://"@.len() as int) =~= "file://"@);
    }
    assert(input.skip("file://"@.len() as int) =~= encoded);
}

/// Every request without a scheme names itself, and every request with a scheme
/// that is no `file://` URL names nothing.
pub proof fn law_bare_and_foreign_requests(input: Seq<char>)
    requires
        !"file://"@.is_prefix_of(input),
    ensures
        named_path(input) == (if begins_with_scheme(input) {
            None
        } else {
            Some(input)
        }),
{
}

/// A text decodes to exactly the text whose UTF-8 bytes are its own bytes with the
/// escapes replaced; if no text has those bytes, it does not decode.
pub proof fn law_url_decoded(encoded: Seq<char>, text: Seq<char>)
    ensures
        url_decoded(encoded) == Some(text) <==> encode_utf8(text) == percent_decoded(
            encode_utf8(encoded),
        ),
        url_decoded(encoded) is None <==> !valid_utf8(percent_decoded(encode_utf8(encoded))),
{
    let bytes = percent_decoded(encode_utf8(encoded));
    if valid_utf8(bytes) {
        vstd::utf8::decode_utf8_encode_utf8(bytes);
    }
    vstd::utf8::encode_utf8_valid_utf8(text);
    vstd::utf8::encode_utf8_decode_utf8(text);
}

/// The value below sixteen that an ASCII byte writes as a hexadecimal digit, or
/// sixteen if it writes none.
pub open spec fn nibble(byte: u8) -> int {
    if '0' as u8 <= byte <= '9' as u8 {
        byte - '0' as u8
    } else if 'A' as u8 <= byte <= 'F' as u8 {
        byte - 'A' as u8 + 10
    } else if 'a' as u8 <= byte <= 'f' as u8 {
        byte - 'a' as u8 + 10
    } else {
        16
    }
}

/// Decoding goes from front to back: a percent sign and two hexadecimal digits, in
/// either case, give one byte, and every other byte gives itself.
pub proof fn law_percent_decoding(first: u8, second: u8, third: u8, rest: Seq<u8>)
    ensures
        percent_decoded(Seq::empty()) == Seq::<u8>::empty(),
        first != '%' as u8 ==> percent_decoded(seq![first] + rest) == seq![first]
            + percent_decoded(rest),
        nibble(second) < 16 && nibble(third) < 16 ==> percent_decoded(
            seq!['%' as u8, second, third] + rest,
        ) == seq![(16 * nibble(second) + nibble(third)) as u8] + percent_decoded(rest),
        !(nibble(second) < 16 && nibble(third) < 16) ==> percent_decoded(
            seq!['%' as u8, second, third] + rest,
        ) == seq!['%' as u8] + percent_decoded(seq![second, third] + rest),
        percent_decoded(seq!['%' as u8, second]) == seq!['%' as u8] + percent_decoded(
            seq![second],
        ),
        percent_decoded(seq!['%' as u8]) == seq!['%' as u8],
{
    let plain = seq![first] + rest;
    assert(plain.skip(1) =~= rest);
    let escape = seq!['%' as u8, second, third] + rest;
    assert(escape.skip(3) =~= rest);
    assert(escape.skip(1) =~= seq![second, third] + rest);
    assert(hex_value(second) is Some <==> nibble(second) < 16);
    assert(hex_value(third) is Some <==> nibble(third) < 16);
    assert(seq!['%' as u8, second].skip(1) =~= seq![second]);
    assert(seq!['%' as u8].skip(1) =~= Seq::empty());
    assert(percent_decoded(Seq::empty()) =~= Seq::<u8>::empty());
    assert(percent_decoded(seq!['%' as u8]) =~= seq!['%' as u8]);
}

/// `bytes` percent-encoded, except for the bytes that `keep` leaves as they are.
pub open spec fn percent_encoded_except(bytes: Seq<u8>, keep: spec_fn(u8) -> bool) -> Seq<u8>
    decreases bytes.len(),
{
    if bytes.len() == 0 {
        Seq::empty()
    } else if keep(bytes[0]) {
        seq![bytes[0]] + percent_encoded_except(bytes.skip(1), keep)
    } else {
        seq!['%' as u8, hex_digit(bytes[0] as int / 16), hex_digit(bytes[0] as int % 16)]
            + percent_encoded_except(bytes.skip(1), keep)
    }
}

proof fn lemma_percent_round_trip_except(bytes: Seq<u8>, keep: spec_fn(u8) -> bool)
    requires
        forall|byte: u8| #[trigger] keep(byte) ==> byte < 0x80 && byte != '%' as u8,
    ensures
        percent_decoded(percent_encoded_except(bytes, keep)) == bytes,
        forall|i: int|
            0 <= i < percent_encoded_except(bytes, keep).len() ==> (
            #[trigger] percent_encoded_except(bytes, keep)[i]) < 0x80,
    decreases bytes.len(),
{
    if bytes.len() > 0 {
        let rest = bytes.skip(1);
        let tail = percent_encoded_except(rest, keep);
        let all = percent_encoded_except(bytes, keep);
        lemma_percent_round_trip_except(rest, keep);
        if keep(bytes[0]) {
            assert(all.skip(1) =~= tail);
            assert(percent_decoded(all) =~= bytes);
        } else {
            let high = bytes[0] as int / 16;
            let low = bytes[0] as int % 16;
            assert(hex_value(hex_digit(high)) == Some(high));
            assert(hex_value(hex_digit(low)) == Some(low));
            assert(all.skip(3) =~= tail);
            assert(begins_with_escape(all));
            assert(percent_decoded(all) =~= bytes);
        }
    }
}

/// A `file://` URL that percent-encodes a path names that path, whichever ASCII
/// bytes other than the percent sign were left as they are. The system leaves
/// slashes, among others, as they are.
pub proof fn law_partly_encoded_url_names_the_path(path: Seq<char>, keep: spec_fn(u8) -> bool)
    requires
        forall|byte: u8| #[trigger] keep(byte) ==> byte < 0x80 && byte != '%' as u8,
    ensures
        named_path("file://"@ + ascii_text(percent_encoded_except(encode_utf8(path), keep)))
            == Some(path),
{
    let bytes = encode_utf8(path);
    let encoded = percent_encoded_except(bytes, keep);
    let text = ascii_text(encoded);
    lemma_percent_round_trip_except(bytes, keep);
    assert(vstd::utf8::is_ascii_chars(text));
    vstd::utf8::is_ascii_chars_encode_utf8(text);
    assert(encode_utf8(text) =~= encoded) by {
        assert forall|i: int| 0 <= i < encoded.len() implies encode_utf8(text)[i] == encoded[i] by {
            assert(text[i] as u8 == encode_utf8(text)[i]);
        }
    }
    law_url_decoded(text, path);
    law_file_url_is_decoded(text);
}

/// A path that begins with neither a slash, nor two separators, nor a drive and a
/// separator is absolute nowhere; one that begins with any of these can be.
pub proof fn law_absolute_path_shape(path: Seq<char>, rest: Seq<char>, drive: char)
    ensures
        can_be_absolute(path) ==> path.len() > 0 && (path[0] == '/' || (path.len() > 1 && path[0]
            == '\\' && (path[1] == '/' || path[1] == '\\')) || (path.len() > 2 && path[1] == ':'
            && (path[2] == '/' || path[2] == '\\') && ('a' <= path[0] <= 'z' || 'A' <= path[0]
            <= 'Z'))),
        can_be_absolute(seq!['/'] + rest),
        can_be_absolute(seq!['\\', '\\'] + rest),
        can_be_absolute(seq!['\\', '/'] + rest),
        'a' <= drive <= 'z' || 'A' <= drive <= 'Z' ==> can_be_absolute(
            seq![drive, ':', '\\'] + rest,
        ) && can_be_absolute(seq![drive, ':', '/'] + rest),
{
}

/// What is queued of two rows of requests is what is queued of the first and then
/// of the second; a request that was resolved adds its path, and one that was
/// turned down adds nothing.
pub proof fn law_resolved_requests(a: Seq<Option<String>>, b: Seq<Option<String>>, path: String)
    ensures
        present(a + b) == present(a) + present(b),
        present(seq![Some(path)]) == seq![path@],
        present(seq![None]) == Seq::<Seq<char>>::empty(),
        present(Seq::empty()) == Seq::<Seq<char>>::empty(),
    decreases b.len(),
{
    if b.len() == 0 {
        assert(a + b =~= a);
        assert(present(a + b) =~= present(a) + present(b));
    } else {
        law_resolved_requests(a, b.drop_last(), path);
        assert((a + b).drop_last() =~= a + b.drop_last());
        assert((a + b).last() == b.last());
        assert(present(a + b) =~= present(a) + present(b));
    }
    assert(present(Seq::empty()) =~= Seq::<Seq<char>>::empty());
    assert(seq![Some(path)].drop_last() =~= Seq::<Option<String>>::empty());
    assert(seq![Some(path)].last() == Some(path));
    assert(present(seq![Some(path)]) =~= seq![path@]);
    assert(seq![None::<String>].drop_last() =~= Seq::<Option<String>>::empty());
    assert(present(seq![None]) =~= Seq::<Seq<char>>::empty());
}

} // verus!
