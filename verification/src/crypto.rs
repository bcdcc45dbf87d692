//! Credential protection and the hex text form in which protected bytes are stored.
//!
//! Secrets are bound to the current user and machine by the operating system's data
//! protection service; the protected bytes are stored as lower-case hex. `encrypt` and
//! `decrypt` here are what a system without that service answers: they refuse instead
//! of falling back to plain text.

use vstd::prelude::*;
use vstd::string::*;
use crate::text::push_char;

verus! {

/// Lower-case hex digit of a value below 16.
pub open spec fn hex_digit(n: u8) -> char {
    if n < 10 {
        (48 + n) as char
    } else {
        (87 + n) as char
    }
}

/// Two lower-case hex digits per byte, high nibble first (`{:02x}` per byte).
pub open spec fn hex_text(bytes: Seq<u8>) -> Seq<char> {
    Seq::new(
        2 * bytes.len(),
        |i: int| if i % 2 == 0 { hex_digit(bytes[i / 2] / 16) } else { hex_digit(bytes[i / 2] % 16) },
    )
}

/// Value of one hex digit byte, either case; `None` for any other byte.
pub open spec fn nibble_value(b: u8) -> Option<u8> {
    if 48 <= b <= 57 {
        Some((b - 48) as u8)
    } else if 97 <= b <= 102 {
        Some((b - 97 + 10) as u8)
    } else if 65 <= b <= 70 {
        Some((b - 65 + 10) as u8)
    } else {
        None
    }
}

pub open spec fn odd_length_message() -> Seq<char> {
    "无效的 hex 字符串"@
}

pub open spec fn bad_digit_message() -> Seq<char> {
    "hex 解码失败: 包含非法字符"@
}

pub open spec fn unsupported_message() -> Seq<char> {
    "当前平台不支持 DPAPI 安全存储"@
}

/// Every byte of `bytes` is a hex digit.
pub open spec fn all_hex_digits(bytes: Seq<u8>) -> bool {
    forall|i: int| 0 <= i < bytes.len() ==> (#[trigger] nibble_value(bytes[i])) is Some
}

/// The bytes whose hex text is `bytes` (pairs of digits, high nibble first).
pub open spec fn hex_value(bytes: Seq<u8>) -> Seq<u8> {
    Seq::new(
        bytes.len() / 2,
        |k: int| (nibble_value(bytes[2 * k])->0 * 16 + nibble_value(bytes[2 * k + 1])->0) as u8,
    )
}

/// Decoding of hex text given as its UTF-8 bytes: an odd length is rejected first,
/// then any byte that is not a hex digit.
pub open spec fn hex_decoded(bytes: Seq<u8>) -> Result<Seq<u8>, Seq<char>> {
    if bytes.len() % 2 != 0 {
        Err(odd_length_message())
    } else if !all_hex_digits(bytes) {
        Err(bad_digit_message())
    } else {
        Ok(hex_value(bytes))
    }
}

fn hex_digit_char(n: u8) -> (c: char)
    requires
        n < 16,
    ensures
        c == hex_digit(n),
{
    if n < 10 {
        (48u8 + n) as char
    } else {
        (87u8 + n) as char
    }
}

/// Lower-case hex text of `bytes`.
pub fn hex_encode(bytes: &[u8]) -> (res: String)
    ensures
        res@ == hex_text(bytes@),
{
    let mut encoded = String::new();
    let mut i: usize = 0;
    while i < bytes.len()
        invariant
            i <= bytes@.len(),
            encoded@ == hex_text(bytes@.subrange(0, i as int)),
        decreases bytes@.len() - i,
    {
        let b = bytes[i];
        push_char(&mut encoded, hex_digit_char(b / 16));
        push_char(&mut encoded, hex_digit_char(b % 16));
        i = i + 1;
        assert(encoded@ =~= hex_text(bytes@.subrange(0, i as int)));
    }
    assert(bytes@.subrange(0, bytes@.len() as int) =~= bytes@);
    encoded
}

/// Value of one hex digit byte.
pub fn decode_nibble(byte: u8) -> (res: Result<u8, String>)
    ensures
        match nibble_value(byte) {
            Some(v) => res == Ok::<u8, String>(v),
            None => res matches Err(e) && e@ == bad_digit_message(),
        },
{
    if 48 <= byte && byte <= 57 {
        Ok(byte - 48)
    } else if 97 <= byte && byte <= 102 {
        Ok(byte - 97 + 10)
    } else if 65 <= byte && byte <= 70 {
        Ok(byte - 65 + 10)
    } else {
        Err(String::from_str("hex 解码失败: 包含非法字符"))
    }
}

/// Decodes hex text of either case into bytes.
pub fn hex_decode(value: &str) -> (res: Result<Vec<u8>, String>)
    ensures
        match hex_decoded(value.spec_bytes()) {
            Ok(v) => res matches Ok(r) && r@ == v,
            Err(m) => res matches Err(e) && e@ == m,
        },
{
    let bytes = value.as_bytes();
    let n = bytes.len();
    if n % 2 != 0 {
        return Err(String::from_str("无效的 hex 字符串"));
    }
    let mut out: Vec<u8> = Vec::new();
    let mut k: usize = 0;
    while k < n / 2
        invariant
            n == bytes@.len(),
            bytes@ == value.spec_bytes(),
            n % 2 == 0,
            k <= n / 2,
            forall|i: int| 0 <= i < 2 * k ==> (#[trigger] nibble_value(bytes@[i])) is Some,
            out@ == hex_value(bytes@).subrange(0, k as int),
        decreases n / 2 - k,
    {
        let high = match decode_nibble(bytes[2 * k]) {
            Ok(v) => v,
            Err(e) => {
                assert(!all_hex_digits(bytes@)) by {
                    assert(nibble_value(bytes@[2 * k as int]) is None);
                }
                return Err(e);
            }
        };
        let low = match decode_nibble(bytes[2 * k + 1]) {
            Ok(v) => v,
            Err(e) => {
                assert(!all_hex_digits(bytes@)) by {
                    assert(nibble_value(bytes@[2 * k + 1]) is None);
                }
                return Err(e);
            }
        };
        assert(high < 16 && low < 16);
        out.push(high * 16 + low);
        k = k + 1;
        assert(out@ =~= hex_value(bytes@).subrange(0, k as int));
    }
    assert(out@ =~= hex_value(bytes@));
    Ok(out)
}

/// Protection of `plaintext` where no protection service exists: always refused.
pub fn encrypt(plaintext: &[u8]) -> (res: Result<String, String>)
    ensures
        res matches Err(e) && e@ == unsupported_message(),
{
    Err(String::from_str("当前平台不支持 DPAPI 安全存储"))
}

/// Opening of protected hex where no protection service exists: always refused.
pub fn decrypt(hex: &str) -> (res: Result<Vec<u8>, String>)
    ensures
        res matches Err(e) && e@ == unsupported_message(),
{
    Err(String::from_str("当前平台不支持 DPAPI 安全存储"))
}

/// Decoding the hex text of any bytes gives the bytes back.
pub proof fn lemma_hex_round_trip(bytes: Seq<u8>)
    ensures
        hex_decoded(vstd::utf8::encode_utf8(hex_text(bytes))) == Ok::<Seq<u8>, Seq<char>>(bytes),
{
    let text = hex_text(bytes);
    assert forall|i: int| 0 <= i < text.len() implies '\0' <= #[trigger] text[i] <= '\u{7f}' by {
        let b = bytes[i / 2];
        assert(b / 16 < 16 && b % 16 < 16);
    }
    assert(vstd::utf8::is_ascii_chars(text));
    vstd::utf8::is_ascii_chars_encode_utf8(text);
    let enc = vstd::utf8::encode_utf8(text);
    assert forall|i: int| 0 <= i < enc.len() implies (#[trigger] nibble_value(enc[i])) is Some by {
        assert(enc[i] == text[i] as u8);
        let b = bytes[i / 2];
        assert(b / 16 < 16 && b % 16 < 16);
    }
    assert forall|k: int| 0 <= k < bytes.len() implies #[trigger] hex_value(enc)[k] == bytes[k] by {
        assert(enc[2 * k] == text[2 * k] as u8);
        assert(enc[2 * k + 1] == text[2 * k + 1] as u8);
        assert((2 * k) / 2 == k);
        assert((2 * k + 1) / 2 == k);
        assert((2 * k) % 2 == 0);
        assert((2 * k + 1) % 2 == 1);
        let b = bytes[k];
        assert(b / 16 * 16 + b % 16 == b);
    }
    assert(hex_value(enc) =~= bytes);
}

/// A hex text of odd length is always refused.
pub proof fn lemma_hex_odd_length_refused(bytes: Seq<u8>)
    requires
        bytes.len() % 2 == 1,
    ensures
        hex_decoded(bytes) == Err::<Seq<u8>, Seq<char>>(odd_length_message()),
{
}

} // verus!
