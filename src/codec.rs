use ethabi::ethereum_types::{H160, U256};
use ethabi::ParamType::{Array, Bytes, Uint};
use ethabi::{ParamType, Token};
use k256::ecdsa::{RecoveryId, Signature, VerifyingKey};
use k256::elliptic_curve::sec1::ToEncodedPoint;
use sha3::Digest;
use vstd::prelude::*;

verus! {

/// A 20-byte operator address.
pub type Address = [u8; 20];

/// A 256-bit unsigned ABI integer as four 64-bit limbs, least significant first.
pub type Uint256 = [u64; 4];

/// A 32-byte digest.
pub type Digest32 = [u8; 32];

#[verifier::external_type_specification]
#[verifier::external_body]
pub struct ExAbiError(ethabi::Error);

/// An operator set as it stands in its ABI encoding `(address[], uint256[], uint256)`,
/// before any of its invariants are checked.
pub struct OperatorSetParams {
    pub operators: Vec<Address>,
    pub weights: Vec<Uint256>,
    pub threshold: Uint256,
}

/// A decoded proof: an operator set and the signatures over a message.
pub struct Proof {
    pub params: OperatorSetParams,
    pub signatures: Vec<Vec<u8>>,
}

/// The tuple that the ABI decoding of `(address[], uint256[], uint256)` yields from
/// `data`, if it decodes.
pub uninterp spec fn abi_decoded_params(data: Seq<u8>) -> Option<(Seq<Address>, Seq<Uint256>, Uint256)>;

/// The tuple that the ABI decoding of `(address[], uint256[], uint256, bytes[])`
/// yields from `data`, if it decodes.
pub uninterp spec fn abi_decoded_proof(data: Seq<u8>) -> Option<
    (Seq<Address>, Seq<Uint256>, Uint256, Seq<Seq<u8>>),
>;

/// The ABI encoding of `(address[], uint256[], uint256)`.
pub uninterp spec fn abi_encoded_params(
    operators: Seq<Address>,
    weights: Seq<Uint256>,
    threshold: Uint256,
) -> Seq<u8>;

/// The Keccak-256 digest of `data`.
pub uninterp spec fn keccak256_of(data: Seq<u8>) -> Seq<u8>;

/// The SEC1 uncompressed encoding of the secp256k1 public key recovered from the
/// prehashed message `digest`, the signature scalars `rs` (r then s) and the recovery
/// id, if one is recovered.
pub uninterp spec fn recovered_key(digest: Seq<u8>, rs: Seq<u8>, recid: u8) -> Option<Seq<u8>>;

impl OperatorSetParams {
    pub open spec fn view_tuple(&self) -> (Seq<Address>, Seq<Uint256>, Uint256) {
        (self.operators@, self.weights@, self.threshold)
    }
}

/// Relies on `ethabi::decode` with the types `(address[], uint256[], uint256)`: it
/// either fails or yields one token of each requested type.
#[verifier::external_body]
pub(crate) fn abi_decode_params(data: &[u8]) -> (r: Result<OperatorSetParams, ethabi::Error>)
    ensures
        match r {
            Ok(p) => abi_decoded_params(data@) == Some(p.view_tuple()),
            Err(_) => abi_decoded_params(data@) is None,
        },
{
    let t = ethabi::decode(&[
        Array(Box::new(ParamType::Address)),
        Array(Box::new(Uint(256))),
        Uint(256),
    ], data)?;
    Ok(OperatorSetParams {
        operators: t[0].clone().into_array().unwrap().into_iter().map(|x| x.into_address().unwrap().0).collect(),
        weights: t[1].clone().into_array().unwrap().into_iter().map(|x| x.into_uint().unwrap().0).collect(),
        threshold: t[2].clone().into_uint().unwrap().0,
    })
}

/// Relies on `ethabi::decode` with the types `(address[], uint256[], uint256, bytes[])`:
/// it either fails or yields one token of each requested type.
#[verifier::external_body]
pub(crate) fn abi_decode_proof(data: &[u8]) -> (r: Result<
    (Vec<Address>, Vec<Uint256>, Uint256, Vec<Vec<u8>>),
    ethabi::Error,
>)
    ensures
        match r {
            Ok(p) => abi_decoded_proof(data@) == Some(
                (p.0@, p.1@, p.2, p.3@.map_values(|s: Vec<u8>| s@)),
            ),
            Err(_) => abi_decoded_proof(data@) is None,
        },
{
    let [o, w, h, s]: [Token; 4] = ethabi::decode(&[
        Array(Box::new(ParamType::Address)),
        Array(Box::new(Uint(256))),
        Uint(256),
        Array(Box::new(Bytes)),
    ], data)?.try_into().unwrap();
    Ok((
        o.into_array().unwrap().into_iter().map(|x| x.into_address().unwrap().0).collect(),
        w.into_array().unwrap().into_iter().map(|x| x.into_uint().unwrap().0).collect(),
        h.into_uint().unwrap().0,
        s.into_array().unwrap().into_iter().map(|x| x.into_bytes().unwrap()).collect(),
    ))
}

/// Relies on `ethabi::encode` of the tokens `(address[], uint256[], uint256)`: the
/// encoding depends on the values alone.
#[verifier::external_body]
pub(crate) fn abi_encode_params(p: &OperatorSetParams) -> (r: Vec<u8>)
    ensures
        r@ == abi_encoded_params(p.operators@, p.weights@, p.threshold),
{
    ethabi::encode(&[
        Token::Array(p.operators.iter().map(|a| Token::Address(H160(*a))).collect()),
        Token::Array(p.weights.iter().map(|w| Token::Uint(U256(*w))).collect()),
        Token::Uint(U256(p.threshold)),
    ])
}

/// Relies on `sha3::Keccak256::digest`: the Keccak-256 digest of the bytes.
#[verifier::external_body]
pub(crate) fn keccak256(data: &[u8]) -> (r: Digest32)
    ensures
        r@ == keccak256_of(data@),
{
    sha3::Keccak256::digest(data).into()
}

/// Relies on k256's `VerifyingKey::recover_from_prehash`, with `Signature::from_slice`
/// and `RecoveryId::from_byte` reading its inputs and `to_encoded_point(false)` writing
/// the key: the recovered key depends on the digest, signature and id alone.
#[verifier::external_body]
pub(crate) fn recover_key(digest: &Digest32, rs: &[u8], recid: u8) -> (r: Option<Vec<u8>>)
    ensures
        match r {
            Some(k) => recovered_key(digest@, rs@, recid) == Some(k@),
            None => recovered_key(digest@, rs@, recid) is None,
        },
{
    let sig = Signature::from_slice(rs).ok()?;
    let id = RecoveryId::from_byte(recid)?;
    let key = VerifyingKey::recover_from_prehash(digest, &sig, id).ok()?;
    Some(key.to_encoded_point(false).as_bytes().to_vec())
}

} // verus!
