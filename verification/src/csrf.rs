//! Anti-forgery tokens: generation, masking, and verification of the
//! claim inside the signed session token.

use vstd::prelude::*;

use base64::Engine;
use hmac::Mac;
use jwt::VerifyWithKey;
use vstd::string::StringSliceAdditionalSpecFns;

verus! {

/// What base64 makes of a byte sequence with the url-safe alphabet; the
/// result depends on the bytes alone.
pub uninterp spec fn b64_url_of(bytes: Seq<u8>) -> Seq<char>;

/// What the signed session token's anti-forgery claim is, for a given
/// signing secret; `None` when the signature or shape is invalid. The
/// result depends on the secret and the token alone.
pub uninterp spec fn session_claim_of(secret: Seq<u8>, token: Seq<char>) -> Option<Seq<char>>;

/// Relies on base64's url-safe engine: it encodes the bytes; the encoding
/// is a function of the bytes, is four characters for every three bytes
/// rounded up with padding, and uses an alphabet of ascii characters. The
/// length bound keeps the engine's buffer-size computation from
/// overflowing.
#[verifier::external_body]
fn b64_url_encode(bytes: &[u8]) -> (r: String)
    requires
        bytes@.len() <= usize::MAX / 8,
    ensures
        r@ == b64_url_of(bytes@),
        r@.len() == 4 * ((bytes@.len() + 2) / 3),
        vstd::utf8::is_ascii_chars(r@),
{
    base64::engine::general_purpose::URL_SAFE.encode(bytes)
}

/// Relies on rand's thread-local generator to draw a key; nothing is
/// promised of the bytes drawn.
#[verifier::external_body]
fn random_key_bytes() -> (r: [u8; 18]) {
    let mut rng = rand::thread_rng();
    rand::Rng::gen(&mut rng)
}

/// Relies on hmac's `Hmac::<Sha256>::new_from_slice`, which accepts a key
/// of any length, and on jwt's `VerifyWithKey`: a token either verifies
/// against the key and yields its claims, or does not; the outcome and the
/// `csrf_token` claim are a function of the secret and the token.
#[verifier::external_body]
fn verify_session_claim(secret: &[u8], token: &str) -> (r: Option<String>)
    ensures
        r.deep_view() == session_claim_of(secret@, token@),
{
    let key: hmac::Hmac<sha2::Sha256> = match hmac::Hmac::new_from_slice(secret) {
        Ok(key) => key,
        Err(_) => return None,
    };
    let claims: std::collections::BTreeMap<String, String> = match token.verify_with_key(&key) {
        Ok(claims) => claims,
        Err(_) => return None,
    };
    claims.get("csrf_token").cloned()
}

/// Whether the anti-forgery token a client presented matches the claim of
/// its signed session token.
pub fn check_join_token(secret: &Vec<u8>, session: &String, csrf: &String) -> (r: bool)
    ensures
        r == (session_claim_of(secret@, session@) == Some(csrf@)),
{
    match verify_session_claim(secret.as_slice(), session.as_str()) {
        Some(claim) => claim.eq(csrf),
        None => false,
    }
}

/// An anti-forgery token: the raw value and its masked form embedded in
/// pages.
#[derive(Clone, Debug, Default, PartialEq, Eq)]
pub struct CsrfToken {
    /// The masked form: the combined bytes re-encoded, with the mask token
    /// appended.
    pub masked: String,
    /// The unmasked url-safe token.
    pub unmasked: String,
}

/// Combining token bytes with mask bytes, position by position.
pub open spec fn and_bytes(a: Seq<u8>, b: Seq<u8>) -> Seq<u8> {
    Seq::new(if a.len() <= b.len() { a.len() } else { b.len() }, |i: int| a[i] & b[i])
}

/// Masks a token against a second token: their bytes are combined position
/// by position, re-encoded, and the mask token is appended.
pub fn mask_with(token: &str, mask_token: &str) -> (r: String)
    requires
        mask_token.spec_bytes().len() <= usize::MAX / 8,
    ensures
        r@ == b64_url_of(and_bytes(token.spec_bytes(), mask_token.spec_bytes()))
            + mask_token@,
        r@.len() == 4 * ((and_bytes(token.spec_bytes(), mask_token.spec_bytes()).len() + 2)
            / 3) + mask_token@.len(),
{
    let ta = token.as_bytes();
    let tb = mask_token.as_bytes();
    let n = if ta.len() <= tb.len() {
        ta.len()
    } else {
        tb.len()
    };
    let mut combined: Vec<u8> = Vec::new();
    let mut i: usize = 0;
    while i < n
        invariant
            i <= n,
            n == (if ta@.len() <= tb@.len() {
                ta@.len()
            } else {
                tb@.len()
            }),
            combined@ =~= and_bytes(ta@, tb@).take(i as int),
        decreases n - i,
    {
        combined.push(ta[i] & tb[i]);
        proof {
            assert(combined@ =~= and_bytes(ta@, tb@).take(i + 1));
        }
        i = i + 1;
    }
    proof {
        assert(and_bytes(ta@, tb@).take(n as int) =~= and_bytes(
            token.spec_bytes(),
            mask_token.spec_bytes(),
        ));
    }
    let mut masked = b64_url_encode(combined.as_slice());
    masked.append(mask_token);
    masked
}

/// A fresh random url-safe token: twenty-four ascii characters encoding
/// eighteen random bytes; nothing is promised of its value.
pub fn generate_token() -> (r: String)
    ensures
        r@.len() == 24,
        vstd::utf8::is_ascii_chars(r@),
{
    let key = random_key_bytes();
    b64_url_encode(key.as_slice())
}

impl CsrfToken {
    /// Generates a fresh token together with its masked form. The values
    /// are random; the masked form is the unmasked token masked against a
    /// second fresh token, so it is fifty-six characters: a thirty-two
    /// character re-encoding followed by the twenty-four character mask.
    pub fn generate() -> (r: CsrfToken)
        ensures
            r.unmasked@.len() == 24,
            r.masked@.len() == 56,
    {
        let unmasked = generate_token();
        let mask_token = generate_token();
        let unmasked_str = unmasked.as_str();
        let mask_str = mask_token.as_str();
        proof {
            vstd::utf8::is_ascii_chars_encode_utf8(unmasked_str@);
            vstd::utf8::is_ascii_chars_encode_utf8(mask_str@);
            assert(unmasked_str.spec_bytes().len() == 24);
            assert(mask_str.spec_bytes().len() == 24);
        }
        let masked = mask_with(unmasked_str, mask_str);
        proof {
            assert(and_bytes(unmasked_str.spec_bytes(), mask_str.spec_bytes()).len() == 24);
        }
        CsrfToken { masked, unmasked }
    }
}

} // verus!
