use sso::jwt::{decode_token, decode_unsafe, encode_token, JwtClaimsType};
use sso::error::CoreError;

#[test]
fn token_round_trip() {
    let secret = String::from("secret-value");
    let (token, exp) =
        encode_token(7, 9, JwtClaimsType::AccessToken, None, &secret, 1000, 60).unwrap();
    assert_eq!(exp, 1060);
    assert_eq!(token.len(), 145);
    assert_eq!(decode_unsafe(&token, 7), Ok((9, JwtClaimsType::AccessToken)));
    assert_eq!(
        decode_token(7, 9, JwtClaimsType::AccessToken, &secret, &token, 1000),
        Ok((1060, None))
    );
}

#[test]
fn token_wrong_type_is_bad_request() {
    let secret = String::from("secret-value");
    let (token, _) =
        encode_token(7, 9, JwtClaimsType::RefreshToken, Some(5), &secret, 1000, 60).unwrap();
    assert_eq!(
        decode_token(7, 9, JwtClaimsType::AccessToken, &secret, &token, 1000),
        Err(CoreError::BadRequest)
    );
    assert_eq!(
        decode_token(7, 9, JwtClaimsType::RefreshToken, &secret, &token, 1000),
        Ok((1060, Some(5)))
    );
}

#[test]
fn token_signed_with_other_secret_is_bad_request() {
    let (token, _) = encode_token(
        7,
        9,
        JwtClaimsType::AccessToken,
        None,
        &String::from("one"),
        1000,
        60,
    )
    .unwrap();
    assert_eq!(
        decode_token(7, 9, JwtClaimsType::AccessToken, &String::from("two"), &token, 1000),
        Err(CoreError::BadRequest)
    );
}

#[test]
fn token_layout_is_hex_after_type_digit() {
    let (token, _) = encode_token(
        0xab,
        0x1,
        JwtClaimsType::ResetPasswordToken,
        Some(0x10),
        &String::from("k"),
        0,
        16,
    )
    .unwrap();
    assert_eq!(token.len(), 177);
    assert_eq!(&token[0..1], "2");
    assert_eq!(&token[1..33], "000000000000000000000000000000ab");
    assert_eq!(&token[33..65], "00000000000000000000000000000001");
    assert_eq!(&token[65..81], "0000000000000010");
    assert_eq!(&token[81..113], "00000000000000000000000000000010");
    assert!(token[113..].chars().all(|c| c.is_ascii_hexdigit()));
    assert_ne!(&token[113..], &"0".repeat(64));
}

#[test]
fn expired_or_foreign_token_is_bad_request() {
    let secret = String::from("s");
    let (token, _) = encode_token(7, 9, JwtClaimsType::AccessToken, None, &secret, 1000, 60).unwrap();
    assert_eq!(
        decode_token(7, 9, JwtClaimsType::AccessToken, &secret, &token, 1060),
        Err(CoreError::BadRequest)
    );
    assert_eq!(decode_unsafe(&token, 8), Err(CoreError::BadRequest));
    assert_eq!(
        decode_token(7, 10, JwtClaimsType::AccessToken, &secret, &token, 1000),
        Err(CoreError::BadRequest)
    );
}

#[test]
fn negative_expiry_is_refused() {
    let r = encode_token(7, 9, JwtClaimsType::AccessToken, None, &String::from("s"), 0, -1);
    assert_eq!(r.err(), Some(CoreError::BadRequest));
    let r = encode_token(7, 9, JwtClaimsType::AccessToken, None, &String::from("s"), i64::MAX, 1);
    assert_eq!(r.err(), Some(CoreError::BadRequest));
}
