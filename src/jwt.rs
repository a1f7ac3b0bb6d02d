//! Signed token codec.
//!
//! A token is ASCII text: one type digit, the issuer (service id), the
//! subject (user id) and the expiry as fixed-width hex, then optionally a CSRF
//! key, then the hex of an HMAC-SHA256 tag over everything before it, keyed
//! with the user's token key value.
use crate::error::{CoreError, CoreResult};
use crate::hex::{
    hex_digits, lemma_hex_digits_injective, lemma_hex_digits_len, lemma_hex_round_trip,
    lemma_pow16_32, parse_hex, push_hex,
};
use hmac::Mac;
use vstd::prelude::*;
use vstd::utf8::encode_utf8;

verus! {

/// The class of a token; each endpoint accepts exactly one.
#[derive(Clone, Copy, Debug, PartialEq, Eq, Structural)]
pub enum JwtClaimsType {
    AccessToken,
    RefreshToken,
    ResetPasswordToken,
    UpdateEmailRevokeToken,
    UpdatePasswordRevokeToken,
}

/// The claims a token carries.
#[derive(Clone, Copy, Debug, PartialEq, Eq, Structural)]
pub struct Claims {
    pub iss: u128,
    pub sub: u128,
    pub type_: JwtClaimsType,
    pub exp: i64,
    pub csrf: Option<u128>,
}

/// Length of the hex signature that ends every token.
pub const SIGNATURE_LEN: usize = 64;

pub open spec fn type_code(t: JwtClaimsType) -> u8 {
    match t {
        JwtClaimsType::AccessToken => 48,
        JwtClaimsType::RefreshToken => 49,
        JwtClaimsType::ResetPasswordToken => 50,
        JwtClaimsType::UpdateEmailRevokeToken => 51,
        JwtClaimsType::UpdatePasswordRevokeToken => 52,
    }
}

pub open spec fn claims_valid(c: Claims) -> bool {
    0 <= c.exp
}

/// The signed part of a token.
pub open spec fn claims_bytes(c: Claims) -> Seq<u8> {
    seq![type_code(c.type_)] + hex_digits(c.iss as nat, 32) + hex_digits(c.sub as nat, 32)
        + hex_digits(c.exp as nat, 16) + match c.csrf {
        Some(k) => hex_digits(k as nat, 32),
        None => Seq::empty(),
    }
}

/// The HMAC-SHA256 tag of a message under a key.
pub uninterp spec fn hmac_sha256_of(key: Seq<u8>, msg: Seq<u8>) -> Seq<u8>;

/// Two hex digits per byte.
pub open spec fn hex_bytes(s: Seq<u8>) -> Seq<u8>
    decreases s.len(),
{
    if s.len() == 0 {
        Seq::empty()
    } else {
        hex_bytes(s.drop_last()) + hex_digits(s.last() as nat, 2)
    }
}

pub open spec fn signature(secret: Seq<u8>, payload: Seq<u8>) -> Seq<u8> {
    hex_bytes(hmac_sha256_of(secret, payload))
}

/// The bytes of the token for `c` signed with `secret`.
pub open spec fn token_bytes(c: Claims, secret: Seq<u8>) -> Seq<u8> {
    claims_bytes(c) + signature(secret, claims_bytes(c))
}

/// `b` is a token whose signed part encodes `c`.
pub open spec fn payload_is(b: Seq<u8>, c: Claims) -> bool {
    &&& claims_valid(c)
    &&& b.len() >= SIGNATURE_LEN
    &&& claims_bytes(c) == b.subrange(0, b.len() - SIGNATURE_LEN)
}

/// The claims that a token's bytes carry, read without checking the signature.
pub open spec fn parse_claims(b: Seq<u8>) -> Option<Claims> {
    if exists|c: Claims| payload_is(b, c) {
        Some(choose|c: Claims| payload_is(b, c))
    } else {
        None
    }
}

/// What a checked decode yields: the expiry and CSRF key of a token of the
/// expected type, issuer and subject, signed with `secret`, unexpired at `now`.
pub open spec fn decode_result(
    b: Seq<u8>,
    secret: Seq<u8>,
    service_id: u128,
    user_id: u128,
    type_: JwtClaimsType,
    now: i64,
) -> CoreResult<(i64, Option<u128>)> {
    match parse_claims(b) {
        Some(c) => if c.iss == service_id && c.sub == user_id && c.type_ == type_ && now < c.exp
            && b.subrange(b.len() - SIGNATURE_LEN, b.len() as int) == signature(
            secret,
            claims_bytes(c),
        ) {
            Ok((c.exp, c.csrf))
        } else {
            Err(CoreError::BadRequest)
        },
        None => Err(CoreError::BadRequest),
    }
}

/// The bytes of a string.
pub open spec fn str_bytes(s: &String) -> Seq<u8> {
    encode_utf8(s@)
}

/// Relies on hmac::Hmac<sha2::Sha256>: `new_from_slice` takes a key of any
/// length, and the 32-byte tag depends on the key and the message alone.
#[verifier::external_body]
fn hmac_sha256(key: &[u8], msg: &[u8]) -> (r: Vec<u8>)
    ensures
        r@ == hmac_sha256_of(key@, msg@),
        r@.len() == 32,
{
    let mut mac = <hmac::Hmac<sha2::Sha256> as Mac>::new_from_slice(key).unwrap();
    mac.update(msg);
    mac.finalize().into_bytes().to_vec()
}

/// Relies on String::from_utf8: ASCII bytes are valid UTF-8 and the string
/// holds exactly those bytes.
#[verifier::external_body]
fn ascii_string(b: Vec<u8>) -> (r: String)
    requires
        forall|i: int| 0 <= i < b@.len() ==> b@[i] < 128,
    ensures
        encode_utf8(r@) == b@,
{
    String::from_utf8(b).unwrap_or_default()
}

proof fn lemma_hex_digits_ascii(x: nat, n: nat)
    ensures
        forall|i: int| 0 <= i < hex_digits(x, n).len() ==> #[trigger] hex_digits(x, n)[i] < 128,
    decreases n,
{
    if n > 0 {
        lemma_hex_digits_ascii(x / 16, (n - 1) as nat);
        let s = hex_digits(x, n);
        assert forall|i: int| 0 <= i < s.len() implies #[trigger] s[i] < 128 by {
            if i < s.len() - 1 {
                assert(s[i] == hex_digits(x / 16, (n - 1) as nat)[i]);
            }
        }
    }
}

proof fn lemma_hex_bytes_len(s: Seq<u8>)
    ensures
        hex_bytes(s).len() == 2 * s.len(),
    decreases s.len(),
{
    if s.len() > 0 {
        lemma_hex_bytes_len(s.drop_last());
        lemma_hex_digits_len(s.last() as nat, 2);
    }
}

proof fn lemma_hex_bytes_ascii(s: Seq<u8>)
    ensures
        forall|i: int| 0 <= i < hex_bytes(s).len() ==> #[trigger] hex_bytes(s)[i] < 128,
    decreases s.len(),
{
    if s.len() > 0 {
        lemma_hex_bytes_ascii(s.drop_last());
        lemma_hex_digits_ascii(s.last() as nat, 2);
        let a = hex_bytes(s.drop_last());
        let d = hex_digits(s.last() as nat, 2);
        assert forall|i: int| 0 <= i < hex_bytes(s).len() implies #[trigger] hex_bytes(s)[i]
            < 128 by {
            if i < a.len() {
                assert(hex_bytes(s)[i] == a[i]);
            } else {
                assert(hex_bytes(s)[i] == d[i - a.len()]);
            }
        }
    }
}

proof fn lemma_claims_len(c: Claims)
    ensures
        claims_bytes(c).len() == if c.csrf is Some {
            113int
        } else {
            81int
        },
{
    lemma_hex_digits_len(c.iss as nat, 32);
    lemma_hex_digits_len(c.sub as nat, 32);
    lemma_hex_digits_len(c.exp as nat, 16);
    if let Some(k) = c.csrf {
        lemma_hex_digits_len(k as nat, 32);
    }
}

proof fn lemma_claims_ascii(c: Claims)
    ensures
        forall|i: int|
            0 <= i < claims_bytes(c).len() ==> #[trigger] claims_bytes(c)[i] < 128,
{
    lemma_hex_digits_ascii(c.iss as nat, 32);
    lemma_hex_digits_ascii(c.sub as nat, 32);
    lemma_hex_digits_ascii(c.exp as nat, 16);
    let tail: Seq<u8> = match c.csrf {
        Some(k) => hex_digits(k as nat, 32),
        None => Seq::empty(),
    };
    if let Some(k) = c.csrf {
        lemma_hex_digits_ascii(k as nat, 32);
    }
    let a = seq![type_code(c.type_)];
    let b = hex_digits(c.iss as nat, 32);
    let d = hex_digits(c.sub as nat, 32);
    let e = hex_digits(c.exp as nat, 16);
    assert(claims_bytes(c) == a + b + d + e + tail);
    lemma_hex_digits_len(c.iss as nat, 32);
    lemma_hex_digits_len(c.sub as nat, 32);
    lemma_hex_digits_len(c.exp as nat, 16);
    if let Some(k) = c.csrf {
        lemma_hex_digits_len(k as nat, 32);
    }
    assert forall|i: int| 0 <= i < claims_bytes(c).len() implies #[trigger] claims_bytes(c)[i]
        < 128 by {
        let all = a + b + d + e + tail;
        if i < 1 {
            assert(all[i] == a[i]);
        } else if i < 33 {
            assert(all[i] == b[i - 1]);
        } else if i < 65 {
            assert(all[i] == d[i - 33]);
        } else if i < 81 {
            assert(all[i] == e[i - 65]);
        } else {
            assert(all[i] == tail[i - 81]);
        }
    }
}

/// Distinct valid claims have distinct bytes.
pub proof fn lemma_claims_injective(c1: Claims, c2: Claims)
    requires
        claims_valid(c1),
        claims_valid(c2),
        claims_bytes(c1) == claims_bytes(c2),
    ensures
        c1 == c2,
{
    lemma_claims_len(c1);
    lemma_claims_len(c2);
    lemma_pow16_32();
    let b1 = claims_bytes(c1);
    let b2 = claims_bytes(c2);
    lemma_hex_digits_len(c1.iss as nat, 32);
    lemma_hex_digits_len(c1.sub as nat, 32);
    lemma_hex_digits_len(c1.exp as nat, 16);
    lemma_hex_digits_len(c2.iss as nat, 32);
    lemma_hex_digits_len(c2.sub as nat, 32);
    lemma_hex_digits_len(c2.exp as nat, 16);
    assert(b1[0] == type_code(c1.type_));
    assert(b2[0] == type_code(c2.type_));
    assert(b1.subrange(1, 33) =~= hex_digits(c1.iss as nat, 32));
    assert(b2.subrange(1, 33) =~= hex_digits(c2.iss as nat, 32));
    assert(b1.subrange(33, 65) =~= hex_digits(c1.sub as nat, 32));
    assert(b2.subrange(33, 65) =~= hex_digits(c2.sub as nat, 32));
    assert(b1.subrange(65, 81) =~= hex_digits(c1.exp as nat, 16));
    assert(b2.subrange(65, 81) =~= hex_digits(c2.exp as nat, 16));
    lemma_hex_digits_injective(c1.iss as nat, c2.iss as nat, 32);
    lemma_hex_digits_injective(c1.sub as nat, c2.sub as nat, 32);
    lemma_hex_digits_injective(c1.exp as nat, c2.exp as nat, 16);
    if let Some(k1) = c1.csrf {
        let k2 = c2.csrf->0;
        lemma_hex_digits_len(k1 as nat, 32);
        lemma_hex_digits_len(k2 as nat, 32);
        assert(b1.subrange(81, 113) =~= hex_digits(k1 as nat, 32));
        assert(b2.subrange(81, 113) =~= hex_digits(k2 as nat, 32));
        lemma_hex_digits_injective(k1 as nat, k2 as nat, 32);
    }
}

/// A token's signed part determines the claims it was made from.
pub proof fn lemma_parse_token_bytes(c: Claims, secret: Seq<u8>)
    requires
        claims_valid(c),
        hmac_sha256_of(secret, claims_bytes(c)).len() == 32,
    ensures
        parse_claims(token_bytes(c, secret)) == Some(c),
{
    let b = token_bytes(c, secret);
    lemma_hex_bytes_len(hmac_sha256_of(secret, claims_bytes(c)));
    assert(b.subrange(0, b.len() - SIGNATURE_LEN) =~= claims_bytes(c));
    assert(payload_is(b, c));
    let d = choose|d: Claims| payload_is(b, d);
    lemma_claims_injective(c, d);
}

/// The expiry of a token made at `now` that lives `expires` seconds, if it
/// is a non-negative `i64`.
pub open spec fn expiry_of(now: i64, expires: i64) -> Option<i64> {
    if 0 <= now + expires <= i64::MAX {
        Some((now + expires) as i64)
    } else {
        None
    }
}

/// What an unchecked decode yields: subject and type of a token of this issuer.
pub open spec fn unsafe_result(b: Seq<u8>, service_id: u128) -> CoreResult<(u128, JwtClaimsType)> {
    match parse_claims(b) {
        Some(c) => if c.iss == service_id {
            Ok((c.sub, c.type_))
        } else {
            Err(CoreError::BadRequest)
        },
        None => Err(CoreError::BadRequest),
    }
}

fn type_byte(t: JwtClaimsType) -> (r: u8)
    ensures
        r == type_code(t),
{
    match t {
        JwtClaimsType::AccessToken => 48,
        JwtClaimsType::RefreshToken => 49,
        JwtClaimsType::ResetPasswordToken => 50,
        JwtClaimsType::UpdateEmailRevokeToken => 51,
        JwtClaimsType::UpdatePasswordRevokeToken => 52,
    }
}

fn claims_encode(c: &Claims) -> (r: Vec<u8>)
    requires
        claims_valid(*c),
    ensures
        r@ == claims_bytes(*c),
{
    let mut out: Vec<u8> = Vec::new();
    out.push(type_byte(c.type_));
    push_hex(&mut out, c.iss, 32);
    push_hex(&mut out, c.sub, 32);
    push_hex(&mut out, c.exp as u128, 16);
    match c.csrf {
        Some(k) => push_hex(&mut out, k, 32),
        None => {},
    }
    assert(out@ =~= claims_bytes(*c));
    out
}

fn push_hex_bytes(out: &mut Vec<u8>, s: &[u8])
    ensures
        final(out)@ == old(out)@ + hex_bytes(s@),
{
    let len = s.len();
    let mut i: usize = 0;
    assert(s@.subrange(0, 0) =~= Seq::<u8>::empty());
    assert(out@ =~= old(out)@ + hex_bytes(s@.subrange(0, 0)));
    while i < len
        invariant
            i <= len,
            len == s@.len(),
            out@ == old(out)@ + hex_bytes(s@.subrange(0, i as int)),
        decreases len - i,
    {
        push_hex(out, s[i] as u128, 2);
        proof {
            let next = s@.subrange(0, i + 1);
            assert(next.drop_last() =~= s@.subrange(0, i as int));
            assert(out@ =~= old(out)@ + hex_bytes(next));
        }
        i = i + 1;
    }
    assert(s@.subrange(0, len as int) =~= s@);
}

fn sign(secret: &[u8], payload: &[u8]) -> (r: Vec<u8>)
    ensures
        r@ == signature(secret@, payload@),
        r@.len() == SIGNATURE_LEN,
        hmac_sha256_of(secret@, payload@).len() == 32,
{
    let tag = hmac_sha256(secret, payload);
    let mut out: Vec<u8> = Vec::new();
    push_hex_bytes(&mut out, tag.as_slice());
    proof {
        lemma_hex_bytes_len(tag@);
    }
    assert(out@ =~= signature(secret@, payload@));
    out
}

/// `a[start..start + b.len()] == b`.
fn slice_eq(a: &[u8], start: usize, b: &[u8]) -> (r: bool)
    requires
        start + b@.len() <= a@.len(),
    ensures
        r == (a@.subrange(start as int, start + b@.len()) == b@),
{
    let n = b.len();
    let alen = a.len();
    let mut i: usize = 0;
    while i < n
        invariant
            i <= n,
            n == b@.len(),
            alen == a@.len(),
            start + n <= a@.len(),
            forall|j: int| 0 <= j < i ==> a@[start + j] == b@[j],
        decreases n - i,
    {
        if a[start + i] != b[i] {
            assert(a@.subrange(start as int, start + n)[i as int] != b@[i as int]);
            return false;
        }
        i = i + 1;
    }
    assert(a@.subrange(start as int, start + n) =~= b@);
    true
}

/// Encodes and signs a token.
fn encode_claims(c: &Claims, secret: &String) -> (r: String)
    requires
        claims_valid(*c),
    ensures
        str_bytes(&r) == token_bytes(*c, str_bytes(secret)),
        hmac_sha256_of(str_bytes(secret), claims_bytes(*c)).len() == 32,
{
    let payload = claims_encode(c);
    let key = secret.as_str().as_bytes();
    let sig = sign(key, payload.as_slice());
    let mut out = payload;
    let mut tail = sig;
    out.append(&mut tail);
    proof {
        lemma_claims_ascii(*c);
        lemma_hex_bytes_ascii(hmac_sha256_of(key@, claims_bytes(*c)));
        assert(out@ =~= token_bytes(*c, str_bytes(secret)));
        assert forall|i: int| 0 <= i < out@.len() implies out@[i] < 128 by {
            if i < claims_bytes(*c).len() {
                assert(out@[i] == claims_bytes(*c)[i]);
            } else {
                assert(out@[i] == signature(key@, claims_bytes(*c))[i - claims_bytes(*c).len()]);
            }
        }
    }
    ascii_string(out)
}

/// Makes a token for `user_id` under `service_id`, valid for `expires`
/// seconds from `now`, optionally bound to a CSRF key. Returns the token and
/// its expiry.
pub fn encode_token(
    service_id: u128,
    user_id: u128,
    type_: JwtClaimsType,
    csrf: Option<u128>,
    secret: &String,
    now: i64,
    expires: i64,
) -> (r: CoreResult<(String, i64)>)
    ensures
        match expiry_of(now, expires) {
            Some(exp) => r matches Ok((token, e)) && e == exp && {
                let c = Claims { iss: service_id, sub: user_id, type_, exp, csrf };
                &&& str_bytes(&token) == token_bytes(c, str_bytes(secret))
                &&& hmac_sha256_of(str_bytes(secret), claims_bytes(c)).len() == 32
            },
            None => r == Err::<(String, i64), CoreError>(CoreError::BadRequest),
        },
{
    let exp = match now.checked_add(expires) {
        Some(e) => e,
        None => return Err(CoreError::BadRequest),
    };
    if exp < 0 {
        return Err(CoreError::BadRequest);
    }
    let c = Claims { iss: service_id, sub: user_id, type_, exp, csrf };
    let token = encode_claims(&c, secret);
    Ok((token, exp))
}

proof fn lemma_payload_fields(b: Seq<u8>, c: Claims)
    requires
        payload_is(b, c),
    ensures
        b.len() == if c.csrf is Some {
            177int
        } else {
            145int
        },
        b[0] == type_code(c.type_),
        crate::hex::hex_value(b.subrange(1, 33)) == Some(c.iss as nat),
        crate::hex::hex_value(b.subrange(33, 65)) == Some(c.sub as nat),
        crate::hex::hex_value(b.subrange(65, 81)) == Some(c.exp as nat),
        c.csrf matches Some(k) ==> crate::hex::hex_value(b.subrange(81, 113)) == Some(k as nat),
{
    lemma_claims_len(c);
    lemma_pow16_32();
    lemma_hex_digits_len(c.iss as nat, 32);
    lemma_hex_digits_len(c.sub as nat, 32);
    lemma_hex_digits_len(c.exp as nat, 16);
    let p = claims_bytes(c);
    let q = b.subrange(0, b.len() - SIGNATURE_LEN);
    assert(p[0] == type_code(c.type_));
    assert(b[0] == q[0]);
    assert(b.subrange(1, 33) =~= p.subrange(1, 33));
    assert(p.subrange(1, 33) =~= hex_digits(c.iss as nat, 32));
    assert(b.subrange(33, 65) =~= p.subrange(33, 65));
    assert(p.subrange(33, 65) =~= hex_digits(c.sub as nat, 32));
    assert(b.subrange(65, 81) =~= p.subrange(65, 81));
    assert(p.subrange(65, 81) =~= hex_digits(c.exp as nat, 16));
    lemma_hex_round_trip(c.iss as nat, 32);
    lemma_hex_round_trip(c.sub as nat, 32);
    lemma_hex_round_trip(c.exp as nat, 16);
    if let Some(k) = c.csrf {
        lemma_hex_digits_len(k as nat, 32);
        assert(b.subrange(81, 113) =~= p.subrange(81, 113));
        assert(p.subrange(81, 113) =~= hex_digits(k as nat, 32));
        lemma_hex_round_trip(k as nat, 32);
    }
}

/// Reads the claims of a token without checking its signature.
fn parse_payload(b: &[u8]) -> (r: Option<Claims>)
    ensures
        r == parse_claims(b@),
        r matches Some(c) ==> payload_is(b@, c),
{
    proof {
        if exists|c: Claims| payload_is(b@, c) {
            lemma_payload_fields(b@, choose|c: Claims| payload_is(b@, c));
        }
    }
    let len = b.len();
    if len != 145 && len != 177 {
        return None;
    }
    let code = b[0];
    let type_ = if code == 48 {
        JwtClaimsType::AccessToken
    } else if code == 49 {
        JwtClaimsType::RefreshToken
    } else if code == 50 {
        JwtClaimsType::ResetPasswordToken
    } else if code == 51 {
        JwtClaimsType::UpdateEmailRevokeToken
    } else if code == 52 {
        JwtClaimsType::UpdatePasswordRevokeToken
    } else {
        return None;
    };
    let iss = match parse_hex(b, 1, 32) {
        Some(v) => v,
        None => return None,
    };
    let sub = match parse_hex(b, 33, 32) {
        Some(v) => v,
        None => return None,
    };
    let exp = match parse_hex(b, 65, 16) {
        Some(v) => v,
        None => return None,
    };
    if exp > 0x7fff_ffff_ffff_ffff {
        return None;
    }
    let csrf = if len == 177 {
        match parse_hex(b, 81, 32) {
            Some(v) => Some(v),
            None => return None,
        }
    } else {
        None
    };
    let c = Claims { iss, sub, type_, exp: exp as i64, csrf };
    let enc = claims_encode(&c);
    proof {
        lemma_claims_len(c);
    }
    if !slice_eq(b, 0, enc.as_slice()) {
        return None;
    }
    proof {
        assert(payload_is(b@, c));
        let d = choose|d: Claims| payload_is(b@, d);
        lemma_claims_injective(c, d);
    }
    Some(c)
}

/// Reads subject and type of a token of this issuer without checking its
/// signature; only used to find the key that checks it.
pub fn decode_unsafe(token: &String, service_id: u128) -> (r: CoreResult<(u128, JwtClaimsType)>)
    ensures
        r == unsafe_result(str_bytes(token), service_id),
{
    let b = token.as_str().as_bytes();
    match parse_payload(b) {
        Some(c) => if c.iss == service_id {
            Ok((c.sub, c.type_))
        } else {
            Err(CoreError::BadRequest)
        },
        None => Err(CoreError::BadRequest),
    }
}

/// Checks a token's signature, issuer, subject, type and expiry; returns its
/// expiry and CSRF key.
pub fn decode_token(
    service_id: u128,
    user_id: u128,
    type_: JwtClaimsType,
    secret: &String,
    token: &String,
    now: i64,
) -> (r: CoreResult<(i64, Option<u128>)>)
    ensures
        r == decode_result(str_bytes(token), str_bytes(secret), service_id, user_id, type_, now),
{
    let b = token.as_str().as_bytes();
    let c = match parse_payload(b) {
        Some(c) => c,
        None => return Err(CoreError::BadRequest),
    };
    if c.iss != service_id || c.sub != user_id || c.type_ != type_ || now >= c.exp {
        return Err(CoreError::BadRequest);
    }
    let payload = claims_encode(&c);
    let sig = sign(secret.as_str().as_bytes(), payload.as_slice());
    let plen = b.len() - SIGNATURE_LEN;
    if !slice_eq(b, plen, sig.as_slice()) {
        return Err(CoreError::BadRequest);
    }
    Ok((c.exp, c.csrf))
}

/// A token decodes, with the key that signed it, to the claims it was made
/// from until it expires; its unchecked decode gives its subject and type.
pub proof fn lemma_decode_own_token(c: Claims, secret: Seq<u8>, now: i64)
    requires
        claims_valid(c),
        hmac_sha256_of(secret, claims_bytes(c)).len() == 32,
    ensures
        unsafe_result(token_bytes(c, secret), c.iss) == Ok::<(u128, JwtClaimsType), CoreError>(
            (c.sub, c.type_),
        ),
        decode_result(token_bytes(c, secret), secret, c.iss, c.sub, c.type_, now) == if now
            < c.exp {
            Ok::<(i64, Option<u128>), CoreError>((c.exp, c.csrf))
        } else {
            Err(CoreError::BadRequest)
        },
{
    let b = token_bytes(c, secret);
    lemma_parse_token_bytes(c, secret);
    lemma_hex_bytes_len(hmac_sha256_of(secret, claims_bytes(c)));
    lemma_claims_len(c);
    assert(b.subrange(b.len() - SIGNATURE_LEN, b.len() as int) =~= signature(
        secret,
        claims_bytes(c),
    ));
}

/// A token presented where another type is expected is a bad request.
pub proof fn lemma_decode_wrong_type(
    b: Seq<u8>,
    secret: Seq<u8>,
    service_id: u128,
    user_id: u128,
    expected: JwtClaimsType,
    now: i64,
)
    requires
        parse_claims(b) matches Some(c) && c.type_ != expected,
    ensures
        decode_result(b, secret, service_id, user_id, expected, now) == Err::<
            (i64, Option<u128>),
            CoreError,
        >(CoreError::BadRequest),
{
}

} // verus!
