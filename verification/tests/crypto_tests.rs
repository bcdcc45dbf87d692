use amax_lib::crypto::{decode_nibble, decrypt, encrypt, hex_decode, hex_encode};

#[test]
fn hex_round_trip() {
    let value = b"session=abc123";
    assert_eq!(hex_decode(&hex_encode(value)).unwrap(), value);
}

#[test]
fn invalid_hex_returns_error_without_panicking() {
    assert!(hex_decode("abc").is_err());
    assert!(hex_decode("你好").is_err());
    assert!(hex_decode("zz").is_err());
}

#[test]
fn hex_is_lower_case_two_digits_per_byte() {
    assert_eq!(hex_encode(&[0x00, 0x0f, 0xa5, 0xff]), "000fa5ff");
    assert_eq!(hex_encode(&[]), "");
    assert_eq!(hex_decode("00FfA5").unwrap(), vec![0x00, 0xff, 0xa5]);
    assert_eq!(hex_decode("").unwrap(), Vec::<u8>::new());
}

#[test]
fn hex_errors_name_the_problem() {
    assert_eq!(hex_decode("abc").unwrap_err(), "无效的 hex 字符串");
    assert_eq!(hex_decode("zz").unwrap_err(), "hex 解码失败: 包含非法字符");
    assert_eq!(decode_nibble(b'7'), Ok(7));
    assert_eq!(decode_nibble(b'e'), Ok(14));
    assert_eq!(decode_nibble(b'E'), Ok(14));
    assert!(decode_nibble(b'g').is_err());
}

#[test]
fn protection_is_refused_without_a_protection_service() {
    assert_eq!(encrypt(b"secret").unwrap_err(), "当前平台不支持 DPAPI 安全存储");
    assert_eq!(decrypt("00ff").unwrap_err(), "当前平台不支持 DPAPI 安全存储");
}
