//! The cryptographic and encoding functions of the outside crates, and what the
//! rest of the library relies on of each.

use vstd::prelude::*;
use vstd::string::*;
use vstd::utf8::*;

use crate::text::{chars_of, exceeds, has_prefix, slice_text, split};

use argon2::{Argon2, PasswordHash, PasswordHasher, PasswordVerifier};
use base64::engine::general_purpose::URL_SAFE_NO_PAD;
use base64::Engine;
use password_hash::SaltString;
use rand::RngCore;
use sha2::{Digest, Sha256};

verus! {

/// The SHA-256 digest of some bytes.
pub uninterp spec fn sha256(data: Seq<u8>) -> Seq<u8>;

/// `Sha256::digest` of `sha2`. The contract claims that the digest is 32 bytes
/// and depends on the data alone; which bytes they are is left to that function.
#[verifier::external_body]
pub(crate) fn digest(data: &[u8]) -> (r: Vec<u8>)
    ensures
        r@ == sha256(data@),
        r@.len() == 32,
{
    Sha256::digest(data).to_vec()
}

/// The small hexadecimal digit that stands for `n`, which is below sixteen.
pub open spec fn hex_char(n: u8) -> char {
    if n < 10 {
        (('0' as u32) + n) as char
    } else {
        (('a' as u32) + (n - 10)) as char
    }
}

/// Bytes in hexadecimal, two small digits each, the high one first.
pub open spec fn hex_text(data: Seq<u8>) -> Seq<char> {
    Seq::new(
        data.len() * 2,
        |i: int|
            if i % 2 == 0 {
                hex_char(data[i / 2] / 16)
            } else {
                hex_char(data[i / 2] % 16)
            },
    )
}

/// `hex::encode`. The contract claims that it writes each byte as two small
/// hexadecimal digits, the high one first. The length is bounded because the text
/// has to fit in memory.
#[verifier::external_body]
pub(crate) fn hex_encode(data: &Vec<u8>) -> (r: String)
    requires
        data@.len() <= 0x1000,
    ensures
        r@ == hex_text(data@),
{
    hex::encode(data)
}

/// The character that stands for six bits, in the URL alphabet or in the
/// standard one.
pub open spec fn base64_char(n: int, url: bool) -> char {
    if n < 26 {
        (('A' as u32) + n) as char
    } else if n < 52 {
        (('a' as u32) + (n - 26)) as char
    } else if n < 62 {
        (('0' as u32) + (n - 52)) as char
    } else if n == 62 {
        if url {
            '-'
        } else {
            '+'
        }
    } else {
        if url {
            '_'
        } else {
            '/'
        }
    }
}

/// The `i`-th group of six bits of `data`, whose last group is filled up with
/// zero bits.
pub open spec fn sextet(data: Seq<u8>, i: int) -> int {
    let at = |k: int|
        if k < data.len() {
            data[k] as int
        } else {
            0
        };
    let q = i / 4 * 3;
    if i % 4 == 0 {
        at(q) / 4
    } else if i % 4 == 1 {
        at(q) % 4 * 16 + at(q + 1) / 16
    } else if i % 4 == 2 {
        at(q + 1) % 16 * 4 + at(q + 2) / 64
    } else {
        at(q + 2) % 64
    }
}

/// Bytes in base64 without padding.
pub open spec fn base64_text(data: Seq<u8>, url: bool) -> Seq<char> {
    Seq::new(
        ((data.len() * 4 + 2) / 3) as nat,
        |i: int| base64_char(sextet(data, i), url),
    )
}

/// `URL_SAFE_NO_PAD.encode` of `base64`. The contract claims that it writes the
/// bytes in base64 with the URL alphabet and without padding. The length is
/// bounded because the text has to fit in memory.
#[verifier::external_body]
pub(crate) fn base64_url_encode(data: &Vec<u8>) -> (r: String)
    requires
        data@.len() <= 0x1000,
    ensures
        r@ == base64_text(data@, true),
{
    URL_SAFE_NO_PAD.encode(data)
}

/// `rand::rngs::OsRng.fill_bytes` on 32 bytes. The contract claims only how many
/// there are: which they are is up to chance.
#[verifier::external_body]
pub(crate) fn random_bytes() -> (r: Vec<u8>)
    ensures
        r@.len() == 32,
{
    let mut bytes = [0u8; 32];
    rand::rngs::OsRng.fill_bytes(&mut bytes);
    bytes.to_vec()
}

/// Whether a salt is what salt generation gives: sixteen bytes in base64.
pub open spec fn is_fresh_salt(salt: Seq<char>) -> bool {
    exists|bytes: Seq<u8>|
        bytes.len() == 16 && salt == #[trigger] base64_text(bytes, false)
}

/// `SaltString::generate` of `password_hash`, fed by the operating system. The
/// contract claims that the salt is sixteen bytes in base64; which they are is
/// up to chance.
#[verifier::external_body]
pub(crate) fn random_salt() -> (r: String)
    ensures
        is_fresh_salt(r@),
{
    SaltString::generate(&mut password_hash::rand_core::OsRng).to_string()
}

/// Why a text is not a password hash in the PHC string format; `None` where it
/// is one.
pub uninterp spec fn phc_error(hash: Seq<char>) -> Option<Seq<char>>;

/// `PasswordHash::new` of `password_hash`. The contract claims that whether it
/// reads the text, and how it words its refusal, depends on the text alone.
#[verifier::external_body]
pub(crate) fn check_phc(hash: &str) -> (r: Result<(), String>)
    ensures
        r is Ok <==> phc_error(hash@) is None,
        r matches Err(why) ==> phc_error(hash@) == Some(why@),
{
    PasswordHash::new(hash).map(|_| ()).map_err(|e| e.to_string())
}

/// The most lanes that a hash may ask for. `argon2` multiplies their number by
/// eight in 32 bits before it bounds it.
pub const MAX_LANES: u64 = 0x1FFF_FFFF;

/// Whether a parameter of a PHC hash asks for more lanes than that.
pub open spec fn overflows_lanes(param: Seq<char>) -> bool {
    &&& "p="@.is_prefix_of(param)
    &&& crate::text::all_digits(param.skip(2))
    &&& crate::text::digits_value(param.skip(2)) > MAX_LANES
}

/// Whether a field of a PHC hash holds such a parameter.
pub open spec fn field_overflows_lanes(field: Seq<char>) -> bool {
    exists|i: int|
        0 <= i < crate::text::pieces(field, ',').len() && overflows_lanes(
            #[trigger] crate::text::pieces(field, ',')[i],
        )
}

/// Whether a PHC hash asks for more lanes than can be counted. No password
/// matches such a hash.
pub open spec fn asks_too_much(hash: Seq<char>) -> bool {
    exists|i: int|
        0 <= i < crate::text::pieces(hash, '$').len() && field_overflows_lanes(
            #[trigger] crate::text::pieces(hash, '$')[i],
        )
}

fn param_too_big(param: &str) -> (r: bool)
    ensures
        r == overflows_lanes(param@),
{
    proof {
        reveal_strlit("p=");
    }
    if !has_prefix(param, "p=") {
        return false;
    }
    let v = chars_of(param);
    let digits = slice_text(&v, 2, v.len());
    assert(digits@ =~= param@.skip(2));
    exceeds(digits.as_str(), MAX_LANES)
}

fn field_too_big(field: &str) -> (r: bool)
    ensures
        r == field_overflows_lanes(field@),
{
    let params = split(field, ',');
    let ghost all = crate::text::pieces(field@, ',');
    let mut i: usize = 0;
    while i < params.len()
        invariant
            i <= params@.len(),
            all == crate::text::pieces(field@, ','),
            crate::text::texts(params@) == all,
            forall|j: int| 0 <= j < i ==> !overflows_lanes(#[trigger] all[j]),
        decreases params.len() - i,
    {
        assert(all[i as int] == params@[i as int]@);
        if param_too_big(params[i].as_str()) {
            return true;
        }
        i += 1;
    }
    false
}

/// Whether a PHC hash asks for more lanes than can be counted.
pub fn too_much(hash: &str) -> (r: bool)
    ensures
        r == asks_too_much(hash@),
{
    let fields = split(hash, '$');
    let ghost all = crate::text::pieces(hash@, '$');
    let mut i: usize = 0;
    while i < fields.len()
        invariant
            i <= fields@.len(),
            all == crate::text::pieces(hash@, '$'),
            crate::text::texts(fields@) == all,
            forall|j: int| 0 <= j < i ==> !field_overflows_lanes(#[trigger] all[j]),
        decreases fields.len() - i,
    {
        assert(all[i as int] == fields@[i as int]@);
        if field_too_big(fields[i].as_str()) {
            return true;
        }
        i += 1;
    }
    false
}

/// Whether a password is the one that a PHC hash was made of.
pub uninterp spec fn argon2_verifies(password: Seq<char>, hash: Seq<char>) -> bool;

/// `Argon2::default().verify_password` of `argon2` on a hash that
/// `PasswordHash::new` reads and that does not ask for more lanes than can be
/// counted. The contract claims that the verdict depends on the password and the
/// hash alone. The call needs the memory that the hash's own parameters ask for.
#[verifier::external_body]
pub(crate) fn verify_password(password: &str, hash: &str) -> (r: bool)
    requires
        phc_error(hash@) is None,
        !asks_too_much(hash@),
    ensures
        r == argon2_verifies(password@, hash@),
{
    match PasswordHash::new(hash) {
        Ok(parsed) => Argon2::default().verify_password(password.as_bytes(), &parsed).is_ok(),
        Err(_) => false,
    }
}

/// The Argon2id hash of a password under a salt, in the PHC string format, or
/// why there is none.
pub uninterp spec fn argon2_hash(password: Seq<char>, salt: Seq<char>) -> Result<
    Seq<char>,
    Seq<char>,
>;

/// `Argon2::default().hash_password` of `argon2`. The contract claims that the
/// outcome depends on the password and the salt alone; that a hash it gives is in
/// the PHC string format, asks for a single lane and verifies that very password;
/// and that it gives one for every fresh salt and every password that is not
/// longer than Argon2 takes.
#[verifier::external_body]
pub(crate) fn hash_password(password: &str, salt: &str) -> (r: Result<String, String>)
    ensures
        (match r {
            Ok(hash) => Ok(hash@),
            Err(why) => Err(why@),
        }) == argon2_hash(password@, salt@),
        r matches Ok(hash) ==> phc_error(hash@) is None && !asks_too_much(hash@)
            && argon2_verifies(password@, hash@),
        is_fresh_salt(salt@) && encode_utf8(password@).len() <= 0xFFFF_FFFF ==> r is Ok,
{
    SaltString::from_b64(salt)
        .and_then(|s| Argon2::default().hash_password(password.as_bytes(), &s).map(|h| h.to_string()))
        .map_err(|e| e.to_string())
}

} // verus!
