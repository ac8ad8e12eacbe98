use vstd::prelude::*;

use argon2::password_hash::SaltString;
use argon2::{Argon2, PasswordHash, PasswordHasher, PasswordVerifier};

use crate::login::{utf8_len, utf8_longer_than};
use crate::text::str_chars;

verus! {

/// What argon2, with its default parameters, makes of the password and the salt bytes: the
/// password hash as a PHC string, or none when hashing fails.
pub uninterp spec fn argon2_hashed(password: Seq<char>, salt: (u64, u64)) -> Option<Seq<char>>;

/// Whether argon2 finds that the password matches the PHC string, or none when the string is
/// no password hash.
pub uninterp spec fn argon2_verdict(password: Seq<char>, hash: Seq<char>) -> Option<bool>;

/// What badwords' censor (its built-in list, at moderate severity) makes of a text.
pub uninterp spec fn bad_words_censored(text: Seq<char>) -> Seq<char>;

/// What rustrict's censor, censoring profane and sexual words and the first character of
/// anything it finds, makes of a text, with the bits of what it found.
pub uninterp spec fn strict_censored(text: Seq<char>) -> (Seq<char>, u32);

/// argon2's `Argon2::default().hash_password`, with the salt made by password-hash's
/// `SaltString::encode_b64` from the sixteen little-endian bytes of the two numbers, written
/// out as a PHC string. The result is named: it depends on the password and the salt alone.
/// None when argon2 reports an error.
#[verifier::external_body]
pub(crate) fn hash_password(password: &str, salt: (u64, u64)) -> (r: Option<String>)
    ensures
        match r {
            Some(h) => argon2_hashed(password@, salt) == Some(h@),
            None => argon2_hashed(password@, salt) is None,
        },
{
    let mut bytes = [0u8; 16];
    bytes[..8].copy_from_slice(&salt.0.to_le_bytes());
    bytes[8..].copy_from_slice(&salt.1.to_le_bytes());
    let salt = SaltString::encode_b64(&bytes).ok()?;
    Some(Argon2::default().hash_password(password.as_bytes(), &salt).ok()?.to_string())
}

/// password-hash's `PasswordHash::new` on the stored string, then argon2's
/// `Argon2::default().verify_password`: whether the password matches, or none when the
/// string is no password hash. The result is named.
#[verifier::external_body]
pub(crate) fn verify_password(password: &str, hash: &str) -> (r: Option<bool>)
    ensures
        r == argon2_verdict(password@, hash@),
{
    let hash = PasswordHash::new(hash).ok()?;
    Some(Argon2::default().verify_password(password.as_bytes(), &hash).is_ok())
}

/// badwords' `Censor::default().censor(text, MODERATE)`: the words of its list are starred
/// out. The result is named.
#[verifier::external_body]
pub(crate) fn censor_bad_words(text: &str) -> (r: String)
    ensures
        r@ == bad_words_censored(text@),
{
    badwords_rs::Censor::default().censor(text, badwords_rs::MODERATE)
}

/// rustrict's `Censor::from_str(text)` with the censor threshold `PROFANE | SEXUAL` and the
/// first-character threshold `ANY`, then `censor_and_analyze`: the censored text and the
/// bits of the analysis. The result is named.
#[verifier::external_body]
pub(crate) fn censor_strict(text: &str) -> (r: (String, u32))
    ensures
        (r.0@, r.1) == strict_censored(text@),
{
    let (censored, analysis) = rustrict::Censor::from_str(text).with_censor_threshold(
        rustrict::Type::PROFANE | rustrict::Type::SEXUAL,
    ).with_censor_first_character_threshold(rustrict::Type::ANY).censor_and_analyze();
    (censored, analysis.bits())
}

/// The longest text, in UTF-8 bytes, that is censored rather than dropped.
pub const MESSAGE_LENGTH: u64 = 128;

/// A text as the server lets it through: nothing when it is longer than 128 bytes; else the
/// text with badwords' list starred out, and with rustrict's censoring on top when rustrict
/// finds anything in it.
pub open spec fn spec_censor(text: Seq<char>) -> Seq<char> {
    if utf8_len(text) > MESSAGE_LENGTH {
        seq![]
    } else {
        let first = bad_words_censored(text);
        let strict = strict_censored(first);
        if strict.1 == 0 {
            first
        } else {
            strict.0
        }
    }
}

/// Censors a text (see `spec_censor`).
pub fn censor(text: &str) -> (r: String)
    ensures
        r@ == spec_censor(text@),
{
    let chars = str_chars(text);
    if utf8_longer_than(chars.as_slice(), MESSAGE_LENGTH) {
        return String::new();
    }
    let first = censor_bad_words(text);
    let (second, analysis) = censor_strict(first.as_str());
    if analysis == 0 {
        first
    } else {
        second
    }
}

} // verus!
