//! Hashing and encoding of asset identifiers.
//!
//! The Blake2b digest and the bech32 encoding are supplied by outside
//! crates; each call stands behind a trusted wrapper whose contract names or
//! states its result. The fingerprint itself is verified against those names.

use vstd::prelude::*;

use crate::text::hex_of;

verus! {

/// Relies on hex::encode: lowercase hex, two digits per byte, high nibble
/// first ("0123456789abcdef").
#[verifier::external_body]
pub(crate) fn hex_string(b: &[u8]) -> (r: String)
    ensures
        r@ == hex_of(b@),
{
    hex::encode(b)
}

/// The 20-byte Blake2b digest of a byte string, as the blake2 crate
/// computes it; the digest depends on the input bytes alone.
pub uninterp spec fn blake2b_160_of(data: Seq<u8>) -> Seq<u8>;

/// Relies on blake2::Blake2bVar with a 20-byte output: `new(20)` accepts any
/// size between 1 and 64, and `finalize_variable` accepts a buffer of
/// exactly the chosen size; the digest is a function of the input bytes.
#[verifier::external_body]
pub(crate) fn blake2b_160(data: &[u8]) -> (r: Vec<u8>)
    ensures
        r@ == blake2b_160_of(data@),
        r@.len() == 20,
{
    let mut hasher = <blake2::Blake2bVar as blake2::digest::VariableOutput>::new(20).unwrap();
    blake2::digest::Update::update(&mut hasher, data);
    let mut buf = [0u8; 20];
    blake2::digest::VariableOutput::finalize_variable(hasher, &mut buf).unwrap();
    buf.to_vec()
}

/// The bech32 string for the given human-readable part and data bytes, as
/// bech32::encode produces it (base32 regrouping plus checksum); it depends
/// on the two arguments alone.
pub uninterp spec fn bech32_of(hrp: Seq<char>, data: Seq<u8>) -> Seq<char>;

/// Whether a string may serve as a bech32 human-readable part here: between
/// one and 83 characters, all printable ASCII, none uppercase.
pub open spec fn valid_hrp(hrp: Seq<char>) -> bool {
    &&& 1 <= hrp.len() <= 83
    &&& forall|i: int| 0 <= i < hrp.len() ==> 33 <= #[trigger] hrp[i] as u32 <= 126
    &&& forall|i: int| 0 <= i < hrp.len() ==> !('A' <= #[trigger] hrp[i] <= 'Z')
}

/// Relies on bech32::encode with Variant::Bech32, after regrouping the data
/// bytes into base32 with bech32::ToBase32: for a well-formed lowercase
/// human-readable part the encoding succeeds, and the result is a function
/// of the two arguments.
#[verifier::external_body]
pub(crate) fn bech32_string(hrp: &str, data: &[u8]) -> (r: String)
    requires
        valid_hrp(hrp@),
    ensures
        r@ == bech32_of(hrp@, data@),
{
    match bech32::encode(hrp, bech32::ToBase32::to_base32(&data), bech32::Variant::Bech32) {
        Ok(s) => s,
        Err(_) => String::new(),
    }
}

/// The fingerprint of an asset: the bech32 form, under the human-readable
/// part `asset`, of the 20-byte Blake2b digest of the policy id followed by
/// the asset name.
pub open spec fn fingerprint_of(policy: Seq<u8>, name: Seq<u8>) -> Seq<char> {
    bech32_of("asset"@, blake2b_160_of(policy + name))
}

/// Compute the fingerprint that identifies an asset across the command
/// streams: digest of `policy || name`, bech32-encoded with HRP `asset`.
pub fn asset_fingerprint(policy: &[u8], name: &[u8]) -> (r: String)
    ensures
        r@ == fingerprint_of(policy@, name@),
{
    let mut joined: Vec<u8> = Vec::new();
    joined.extend_from_slice(policy);
    joined.extend_from_slice(name);
    assert(joined@ =~= policy@ + name@);
    let digest = blake2b_160(joined.as_slice());
    proof {
        reveal_strlit("asset");
        assert(valid_hrp("asset"@)) by {
            assert("asset"@.len() == 5);
            assert(forall|i: int| 0 <= i < 5 ==> 33 <= #[trigger] "asset"@[i] as u32 <= 126);
            assert(forall|i: int| 0 <= i < 5 ==> !('A' <= #[trigger] "asset"@[i] <= 'Z'));
        }
    }
    bech32_string("asset", digest.as_slice())
}

/// What decoding a byte string as UTF-8 yields, when it is valid.
pub uninterp spec fn utf8_of(b: Seq<u8>) -> Option<Seq<char>>;

/// Relies on String::from_utf8: it succeeds exactly on valid UTF-8, the
/// result depends on the bytes alone, and ASCII bytes decode to the
/// characters with the same code points.
#[verifier::external_body]
pub(crate) fn utf8_string(b: &Vec<u8>) -> (r: Option<String>)
    ensures
        r is Some <==> utf8_of(b@) is Some,
        r matches Some(s) ==> utf8_of(b@) == Some(s@) && ((forall|i: int|
            0 <= i < b@.len() ==> b@[i] < 128) ==> s@ == b@.map_values(|x: u8| x as char)),
        r is None ==> exists|j: int| 0 <= j < b@.len() && b@[j] >= 128,
{
    match String::from_utf8(b.clone()) {
        Ok(s) => Some(s),
        Err(_) => None,
    }
}

} // verus!
