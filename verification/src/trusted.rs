//! The trusted boundary: every call into an outside crate that the library
//! logic needs, each behind a wrapper whose contract Verus believes.
//!
//! Digests and encodings are functions of their input alone, so their
//! results carry names ([`sha512_of`], [`base64_nopad_of`], [`parsed_url`])
//! that contracts can speak of; randomness gets no name, only what holds of
//! every outcome.

use vstd::prelude::*;

use rand::Rng;

verus! {

/// An incremental SHA-512 hasher; the outside hasher state sits behind an
/// opaque field.
#[verifier::external_body]
pub struct Sha512Hasher {
    inner: sha2::Sha512,
}

/// The bytes fed to a hasher so far.
pub uninterp spec fn hasher_fed(h: Sha512Hasher) -> Seq<u8>;

/// The SHA-512 digest of a byte sequence.
pub uninterp spec fn sha512_of(data: Seq<u8>) -> Seq<u8>;

impl Sha512Hasher {
    /// Relies on sha2::Sha512::new: a fresh hasher has been fed nothing.
    #[verifier::external_body]
    pub fn new() -> (h: Sha512Hasher)
        ensures
            hasher_fed(h) == Seq::<u8>::empty(),
    {
        Sha512Hasher { inner: <sha2::Sha512 as sha2::Digest>::new() }
    }

    /// Relies on sha2::Digest::update: feeding a chunk appends it to what
    /// the hasher has seen.
    #[verifier::external_body]
    pub fn update(&mut self, chunk: &[u8])
        ensures
            hasher_fed(*final(self)) == hasher_fed(*old(self)) + chunk@,
    {
        sha2::Digest::update(&mut self.inner, chunk);
    }

    /// Relies on sha2::Digest::finalize: the 64-byte digest of everything
    /// fed, a function of those bytes alone.
    #[verifier::external_body]
    pub fn finalize(self) -> (r: Vec<u8>)
        ensures
            r@ == sha512_of(hasher_fed(self)),
            r@.len() == 64,
    {
        sha2::Digest::finalize(self.inner).to_vec()
    }
}

/// The base64 encoding of a byte sequence, standard alphabet, no padding.
pub uninterp spec fn base64_nopad_of(data: Seq<u8>) -> Seq<u8>;

/// Relies on base64::encode_config with base64::STANDARD_NO_PAD: the
/// unpadded standard-alphabet encoding, a function of the bytes alone; an
/// empty input encodes to an empty string.  The bound keeps the encoded
/// size computable, which the encoder otherwise refuses.
#[verifier::external_body]
pub fn base64_nopad(data: &[u8]) -> (r: Vec<u8>)
    requires
        data@.len() <= 0x1000_0000_0000_0000,
    ensures
        r@ == base64_nopad_of(data@),
        data@.len() == 0 ==> r@.len() == 0,
{
    base64::encode_config(data, base64::STANDARD_NO_PAD).into_bytes()
}

/// Whether a byte is an ASCII letter or digit, the alphabet secret codes
/// are drawn from.
pub open spec fn is_alphanumeric_byte(b: u8) -> bool {
    ||| 'A' as u8 <= b <= 'Z' as u8
    ||| 'a' as u8 <= b <= 'z' as u8
    ||| '0' as u8 <= b <= '9' as u8
}

/// Relies on rand::thread_rng and rand::distributions::Alphanumeric: each
/// sampled byte is an ASCII letter or digit.  The outcome is random, so
/// nothing more is promised of it.
#[verifier::external_body]
pub fn generate_secret_code() -> (r: Vec<u8>)
    ensures
        r@.len() == 24,
        forall|i: int| 0 <= i < r@.len() ==> is_alphanumeric_byte(#[trigger] r@[i]),
{
    rand::thread_rng().sample_iter(&rand::distributions::Alphanumeric).take(24).collect()
}

/// What decoding a form-urlencoded query string gives: its key/value
/// pairs, percent- and plus-decoded, in order.
pub uninterp spec fn form_decoded(query: Seq<u8>) -> Seq<(Seq<u8>, Seq<u8>)>;

/// Relies on url::form_urlencoded::parse: the decoded key/value pairs of
/// a query string, a function of the bytes alone; an empty query decodes
/// to no pairs.
#[verifier::external_body]
pub fn form_urlencoded_pairs(query: &[u8]) -> (r: Vec<(Vec<u8>, Vec<u8>)>)
    ensures
        r@.map_values(|p: (Vec<u8>, Vec<u8>)| (p.0@, p.1@)) == form_decoded(query@),
        query@.len() == 0 ==> r@.len() == 0,
{
    url::form_urlencoded::parse(query)
        .into_owned()
        .map(|(k, v)| (k.into_bytes(), v.into_bytes()))
        .collect()
}

/// What parsing and re-serialising a URL gives: the normalized text when
/// the bytes are a valid URL, nothing otherwise.
pub uninterp spec fn parsed_url(s: Seq<u8>) -> Option<Seq<u8>>;

/// Relies on url::Url::parse and its Display form: validation and
/// normalization of a URL, a function of the input bytes alone.
#[verifier::external_body]
pub fn parse_url(s: &[u8]) -> (r: Option<Vec<u8>>)
    ensures
        match r {
            Some(v) => parsed_url(s@) == Some(v@),
            None => parsed_url(s@) is None,
        },
{
    let text = match std::str::from_utf8(s) {
        Ok(t) => t,
        Err(_) => {
            return None;
        },
    };
    match url::Url::parse(text) {
        Ok(u) => Some(u.to_string().into_bytes()),
        Err(_) => None,
    }
}

} // verus!
