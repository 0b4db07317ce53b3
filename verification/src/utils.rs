//! Path encoding for the C API and reading libssh2's error messages.

use std::borrow::Cow;
use vstd::prelude::*;
use vstd::utf8::{
    decode_utf8, encode_scalar, encode_utf8, encode_utf8_valid_utf8, valid_utf8,
};

use crate::{Error, ErrorCode};

verus! {

/// `libssh2_sys::LIBSSH2_ERROR_INVAL`: the code libssh2 gives to an invalid argument.
#[verifier::external_body]
fn invalid_argument_code() -> (c: i32)
    ensures
        c == -34,
{
    libssh2_sys::LIBSSH2_ERROR_INVAL
}

/// `std::str::from_utf8`: the text that the bytes encode, when they are valid UTF-8.
#[verifier::external_body]
pub(crate) fn utf8_text(b: &[u8]) -> (r: Option<&str>)
    ensures
        r is Some <==> valid_utf8(b@),
        r matches Some(s) ==> s@ == decode_utf8(b@),
{
    std::str::from_utf8(b).ok()
}

/// The bytes of a byte string, whether borrowed or owned.
pub open spec fn bytes_of(b: Cow<'_, [u8]>) -> Seq<u8> {
    match b {
        Cow::Borrowed(s) => s@,
        Cow::Owned(v) => v@,
    }
}

/// Whether a byte sequence holds a zero byte.
pub open spec fn has_zero_byte(b: Seq<u8>) -> bool {
    exists|i: int| 0 <= i < b.len() && b[i] == 0
}

/// The code of the errors this module reports.
pub open spec fn invalid_argument() -> ErrorCode {
    ErrorCode::Session(-34i32)
}

/// Accepts a path's bytes unless they hold a zero byte, which no C string can carry.
pub fn check(b: Cow<'_, [u8]>) -> (r: Result<Cow<'_, [u8]>, Error>)
    ensures
        r is Ok <==> !has_zero_byte(bytes_of(b)),
        r matches Ok(v) ==> v == b,
        r matches Err(e) ==> e.error_code() == invalid_argument() && e.error_msg()
            == "path provided contains a 0 byte"@,
{
    let s: &[u8] = match &b {
        Cow::Borrowed(s) => s,
        Cow::Owned(v) => v.as_slice(),
    };
    let mut i: usize = 0;
    while i < s.len()
        invariant
            i <= s@.len(),
            s@ == bytes_of(b),
            forall|j: int| 0 <= j < i ==> s@[j] != 0,
        decreases s@.len() - i,
    {
        if s[i] == 0 {
            let code: i32 = invalid_argument_code();
            return Err(Error::new(ErrorCode::Session(code), "path provided contains a 0 byte"));
        }
        i = i + 1;
    }
    Ok(b)
}

/// A byte with every backslash turned into a slash.
pub open spec fn unix_separator(x: u8) -> u8 {
    if x == 0x5c {
        0x2f
    } else {
        x
    }
}

/// The bytes with Windows path separators normalized to Unix ones.
pub open spec fn normalize_separators(b: Seq<u8>) -> Seq<u8> {
    b.map_values(|x: u8| unix_separator(x))
}

/// Whether a byte sequence holds a backslash.
pub open spec fn has_backslash(b: Seq<u8>) -> bool {
    exists|i: int| 0 <= i < b.len() && b[i] == 0x5c
}

/// The bytes handed to libssh2 for a path given by its text (`None` when the
/// path is not valid Unicode): the UTF-8 encoding, with backslashes turned into
/// slashes, refused when it holds a zero byte. The bytes are borrowed when
/// nothing had to be turned.
pub fn path2bytes(path: Option<&str>) -> (r: Result<Cow<'_, [u8]>, Error>)
    ensures
        path is None ==> (r matches Err(e) && e.error_code() == invalid_argument()
            && e.error_msg() == "only unicode paths on windows may be used"@),
        path matches Some(p) ==> {
            &&& r is Ok <==> !has_zero_byte(encode_utf8(p@))
            &&& r matches Ok(v) ==> (bytes_of(v) == normalize_separators(encode_utf8(p@))
                && (v is Borrowed <==> !has_backslash(encode_utf8(p@))))
            &&& r matches Err(e) ==> e.error_code() == invalid_argument() && e.error_msg()
                == "path provided contains a 0 byte"@
        },
{
    match path {
        None => {
            let code: i32 = invalid_argument_code();
            Err(Error::new(ErrorCode::Session(code), "only unicode paths on windows may be used"))
        },
        Some(p) => {
            let bytes = p.as_bytes();
            let mut found = false;
            let mut i: usize = 0;
            while i < bytes.len()
                invariant
                    i <= bytes@.len(),
                    found <==> exists|j: int| 0 <= j < i && bytes@[j] == 0x5c,
                decreases bytes@.len() - i,
            {
                if bytes[i] == 0x5c {
                    found = true;
                }
                i = i + 1;
            }
            let cow: Cow<'_, [u8]> = if found {
                let mut owned: Vec<u8> = Vec::new();
                let mut k: usize = 0;
                while k < bytes.len()
                    invariant
                        k <= bytes@.len(),
                        owned@ == normalize_separators(bytes@.subrange(0, k as int)),
                    decreases bytes@.len() - k,
                {
                    let x: u8 = bytes[k];
                    owned.push(if x == 0x5c {
                        0x2f
                    } else {
                        x
                    });
                    k = k + 1;
                    assert(owned@ =~= normalize_separators(bytes@.subrange(0, k as int)));
                }
                assert(bytes@.subrange(0, bytes@.len() as int) =~= bytes@);
                Cow::Owned(owned)
            } else {
                assert(normalize_separators(bytes@) =~= bytes@);
                Cow::Borrowed(bytes)
            };
            proof {
                law_normalize_separators(bytes@);
            }
            check(cow)
        },
    }
}

/// Normalizing separators keeps the length and every byte but backslashes,
/// leaves no backslash, changes nothing when done again, and neither adds nor
/// removes a zero byte.
pub proof fn law_normalize_separators(b: Seq<u8>)
    ensures
        normalize_separators(b).len() == b.len(),
        forall|i: int| 0 <= i < b.len() && b[i] != 0x5c ==> #[trigger] normalize_separators(b)[i] == b[i],
        !has_backslash(normalize_separators(b)),
        normalize_separators(normalize_separators(b)) == normalize_separators(b),
        has_zero_byte(normalize_separators(b)) == has_zero_byte(b),
{
    let n = normalize_separators(b);
    assert(normalize_separators(n) =~= n);
    if has_zero_byte(b) {
        let j = choose|j: int| 0 <= j < b.len() && b[j] == 0;
        assert(n[j] == 0);
    }
}

/// A character with a backslash turned into a slash.
pub open spec fn unix_separator_char(c: char) -> char {
    if c == '\\' {
        '/'
    } else {
        c
    }
}

/// The text with Windows path separators normalized to Unix ones.
pub open spec fn normalize_separator_chars(p: Seq<char>) -> Seq<char> {
    p.map_values(|c: char| unix_separator_char(c))
}

/// Normalizing the encoding of one character is encoding the normalized character.
proof fn lemma_normalize_scalar(c: char)
    ensures
        normalize_separators(encode_scalar(c as u32)) == encode_scalar(unix_separator_char(c) as u32),
{
    let s = c as u32;
    let e = encode_scalar(s);
    if c == '\\' {
        assert(s == 0x5c);
        assert((0x5cu32 & 0x7f) as u8 == 0x5cu8) by (bit_vector);
        assert(('/' as u32) == 0x2f);
        assert((0x2fu32 & 0x7f) as u8 == 0x2fu8) by (bit_vector);
        assert(normalize_separators(e) =~= encode_scalar(unix_separator_char(c) as u32));
    } else {
        assert(s <= 0x7f && s != 0x5c ==> (s & 0x7f) as u8 != 0x5cu8) by (bit_vector);
        assert(0x80u8 | ((s >> 6) & 0x3F) as u8 != 0x5cu8) by (bit_vector);
        assert(0x80u8 | ((s >> 12) & 0x3F) as u8 != 0x5cu8) by (bit_vector);
        assert(0x80u8 | (s & 0x3F) as u8 != 0x5cu8) by (bit_vector);
        assert(0xC0u8 | ((s >> 6) & 0x1F) as u8 != 0x5cu8) by (bit_vector);
        assert(0xE0u8 | ((s >> 12) & 0x0F) as u8 != 0x5cu8) by (bit_vector);
        assert(0xF0u8 | ((s >> 18) & 0x7) as u8 != 0x5cu8) by (bit_vector);
        assert(normalize_separators(e) =~= e);
    }
}

/// Normalizing the UTF-8 encoding of a text is encoding the normalized text:
/// the normalized bytes are valid UTF-8, hold no backslash, and are given back
/// unchanged (and borrowed, by the contract of [`path2bytes`]) by normalizing
/// their text again.
pub proof fn law_normalized_bytes_are_text(p: Seq<char>)
    ensures
        normalize_separators(encode_utf8(p)) == encode_utf8(normalize_separator_chars(p)),
        valid_utf8(normalize_separators(encode_utf8(p))),
        !has_backslash(encode_utf8(normalize_separator_chars(p))),
        normalize_separators(encode_utf8(normalize_separator_chars(p))) == encode_utf8(
            normalize_separator_chars(p),
        ),
    decreases p.len(),
{
    if p.len() > 0 {
        let rest = p.drop_first();
        law_normalized_bytes_are_text(rest);
        lemma_normalize_scalar(p[0]);
        let n = normalize_separator_chars(p);
        assert(n.drop_first() =~= normalize_separator_chars(rest));
        let a = encode_scalar(p[0] as u32);
        let b = encode_utf8(rest);
        assert(encode_utf8(p) == a + b);
        assert(normalize_separators(a + b) =~= normalize_separators(a) + normalize_separators(b));
        assert(encode_utf8(n) == encode_scalar(n[0] as u32) + encode_utf8(n.drop_first()));
    } else {
        assert(normalize_separators(encode_utf8(p)) =~= encode_utf8(normalize_separator_chars(p)));
    }
    encode_utf8_valid_utf8(normalize_separator_chars(p));
    law_normalize_separators(encode_utf8(p));
    law_normalize_separators(normalize_separators(encode_utf8(p)));
}

/// The text that libssh2 gave as an error message, or a fallback when there is
/// none or it is not valid UTF-8.
pub fn make_error_message(msg: Option<&[u8]>) -> (r: Cow<'static, str>)
    ensures
        match msg {
            Some(b) if valid_utf8(b@) => r is Owned && r@ == decode_utf8(b@),
            _ => r is Borrowed && r@ == "<failed to fetch the error message>"@,
        },
{
    match msg {
        Some(b) => match utf8_text(b) {
            Some(s) => Cow::Owned(s.to_owned()),
            None => Cow::Borrowed("<failed to fetch the error message>"),
        },
        None => Cow::Borrowed("<failed to fetch the error message>"),
    }
}

/// The last session error as libssh2 reported it: its code, unless it is zero
/// (no error), with its message.
pub fn last_session_error(rc: i32, msg: Option<&[u8]>) -> (r: Option<(i32, String)>)
    ensures
        rc == 0 <==> r is None,
        r matches Some((code, text)) ==> code == rc && text@ == make_error_message_spec(msg),
{
    if rc == 0 {
        return None;
    }
    let m = make_error_message(msg);
    let text = match m {
        Cow::Borrowed(s) => s.to_owned(),
        Cow::Owned(s) => s,
    };
    Some((rc, text))
}

/// The text [`make_error_message`] gives.
pub open spec fn make_error_message_spec(msg: Option<&[u8]>) -> Seq<char> {
    match msg {
        Some(b) if valid_utf8(b@) => decode_utf8(b@),
        _ => "<failed to fetch the error message>"@,
    }
}

/// A byte sequence is refused exactly when one of its bytes is zero.
pub proof fn law_zero_byte(b: Seq<u8>)
    ensures
        has_zero_byte(b) <==> b.contains(0u8),
{
}

/// The message of a libssh2 error is the text of its bytes when they are valid
/// UTF-8, and the fallback text when they are not or there are none.
pub proof fn law_error_message(msg: Option<&[u8]>)
    ensures
        msg is None ==> make_error_message_spec(msg) == "<failed to fetch the error message>"@,
        msg matches Some(b) ==> (valid_utf8(b@) ==> make_error_message_spec(msg) == decode_utf8(b@))
            && (!valid_utf8(b@) ==> make_error_message_spec(msg)
            == "<failed to fetch the error message>"@),
{
}

} // verus!
