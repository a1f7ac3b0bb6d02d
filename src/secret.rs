//! Randomness, password hashing and one-time codes, from outside crates.
use vstd::prelude::*;
use vstd::utf8::encode_utf8;

verus! {

/// Whether libreauth's default hasher refuses a password.
pub uninterp spec fn password_refused_of(password: Seq<char>) -> bool;

/// Whether a password matches a stored PHC-formatted hash.
pub uninterp spec fn password_valid_of(hash: Seq<char>, password: Seq<char>) -> bool;

/// Relies on uuid::Uuid::new_v4: a random 128-bit identifier.
#[verifier::external_body]
pub(crate) fn random_id() -> u128 {
    uuid::Uuid::new_v4().as_u128()
}

/// Relies on libreauth::key::KeyBuilder: 32 random bytes as unpadded RFC
/// 4648 base32 text (52 characters), usable as a key value and as a TOTP
/// secret.
#[verifier::external_body]
pub(crate) fn random_key_value() -> (r: String)
    ensures
        r@.len() == 52,
{
    libreauth::key::KeyBuilder::new().size(32).as_base32()
}

/// A PHC value character: ASCII alphanumeric or one of `+-./`.
pub open spec fn phc_value_byte(b: u8) -> bool {
    (48 <= b <= 57) || (65 <= b <= 90) || (97 <= b <= 122) || b == 43 || b == 45 || b == 46 || b
        == 47
}

/// The value starting at `j` ends at `j` (end of text or another character).
pub open spec fn phc_value_ends(s: Seq<u8>, j: int) -> bool {
    j >= s.len() || !phc_value_byte(s[j])
}

/// The text `lanes=` starts at `i`.
pub open spec fn lanes_key_at(s: Seq<u8>, i: int) -> bool {
    &&& 0 <= i
    &&& i + 6 <= s.len()
    &&& s[i] == 108 && s[i + 1] == 97 && s[i + 2] == 110 && s[i + 3] == 101
    &&& s[i + 4] == 115 && s[i + 5] == 61
}

/// The value at `j` is a number from 1 to 16 written without sign or zeros.
pub open spec fn small_lanes_at(s: Seq<u8>, j: int) -> bool {
    ||| (j < s.len() && 49 <= s[j] <= 57 && phc_value_ends(s, j + 1))
    ||| (j + 1 < s.len() && s[j] == 49 && 48 <= s[j + 1] <= 54 && phc_value_ends(s, j + 2))
}

/// Every `lanes=` in a stored hash sets at most 16 lanes. With at least
/// 2^7 KiB of memory, which libreauth's parser enforces, such a hash never
/// asks argon2 for less than 8 KiB per lane.
pub open spec fn phc_lanes_bounded(s: Seq<u8>) -> bool {
    forall|i: int| #[trigger] lanes_key_at(s, i) ==> small_lanes_at(s, i + 6)
}

/// Relies on libreauth::pass::HashBuilder::from_phc and Hasher::is_valid: the
/// outcome depends on the hash and the password alone; a hash that does not
/// parse matches nothing. An argon2 hash whose memory is under 8 KiB per lane
/// makes `is_valid` panic (argon2's `hash_raw(..).unwrap()`), so the hash must
/// set no more than 16 lanes.
#[verifier::external_body]
pub(crate) fn password_matches(hash: &str, password: &str) -> (r: bool)
    requires
        phc_lanes_bounded(encode_utf8(hash@)),
    ensures
        r == password_valid_of(hash@, password@),
{
    match libreauth::pass::HashBuilder::from_phc(hash) {
        Ok(hasher) => hasher.is_valid(password),
        Err(_) => false,
    }
}

/// Relies on libreauth::pass::HashBuilder and Hasher::hash with the default
/// settings. The hasher refuses a password for its length alone (its
/// normalised form shorter than 8 or longer than 128 code points), so
/// whether it refuses depends on the password alone. Otherwise it returns a
/// freshly salted PHC string that `is_valid` accepts for the same password
/// (libreauth's documented hash-then-check use). That string names
/// `lanes=4` once, between `,`/`$` separators, and its salt and hash are
/// unpadded base64, so no other `lanes=` occurs in it.
#[verifier::external_body]
pub(crate) fn password_hash_phc(password: &str) -> (r: Option<String>)
    ensures
        r is None <==> password_refused_of(password@),
        r matches Some(h) ==> password_valid_of(h@, password@) && phc_lanes_bounded(
            encode_utf8(h@),
        ),
{
    match libreauth::pass::HashBuilder::new().finalize() {
        Ok(hasher) => hasher.hash(password).ok(),
        Err(_) => None,
    }
}

/// Relies on libreauth::oath::TOTPBuilder and TOTP::is_valid: `None` where
/// the secret is not base32, else whether `code` is the current code; the
/// outcome depends on the clock.
#[verifier::external_body]
pub(crate) fn totp_check(secret_base32: &str, code: &str) -> Option<bool> {
    match libreauth::oath::TOTPBuilder::new().base32_key(secret_base32).finalize() {
        Ok(totp) => Some(totp.is_valid(code)),
        Err(_) => None,
    }
}

/// Whether a stored hash sets at most 16 lanes wherever it names them.
pub fn lanes_bounded(hash: &str) -> (r: bool)
    ensures
        r == phc_lanes_bounded(encode_utf8(hash@)),
{
    let b = hash.as_bytes();
    let n = b.len();
    let mut i: usize = 0;
    while i < n
        invariant
            i <= n,
            n == b@.len(),
            b@ == encode_utf8(hash@),
            forall|k: int| 0 <= k < i && #[trigger] lanes_key_at(b@, k) ==> small_lanes_at(b@, k + 6),
        decreases n - i,
    {
        if n - i >= 6 && b[i] == 108 && b[i + 1] == 97 && b[i + 2] == 110 && b[i + 3] == 101
            && b[i + 4] == 115 && b[i + 5] == 61 {
            let j = i + 6;
            let one = j < n && 49 <= b[j] && b[j] <= 57 && (n - j <= 1 || !value_byte(b[j + 1]));
            let two = n - j > 1 && b[j] == 49 && 48 <= b[j + 1] && b[j + 1] <= 54 && (n - j <= 2
                || !value_byte(b[j + 2]));
            if !one && !two {
                assert(lanes_key_at(b@, i as int));
                return false;
            }
        }
        i = i + 1;
    }
    proof {
        assert forall|k: int| #[trigger] lanes_key_at(b@, k) implies small_lanes_at(b@, k + 6) by {
            assert(0 <= k < n);
        }
    }
    true
}

fn value_byte(c: u8) -> (r: bool)
    ensures
        r == phc_value_byte(c),
{
    (48 <= c && c <= 57) || (65 <= c && c <= 90) || (97 <= c && c <= 122) || c == 43 || c == 45
        || c == 46 || c == 47
}

} // verus!
