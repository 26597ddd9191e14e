use vstd::prelude::*;

verus! {

/// Whether `signature` (65 bytes: r, s, v) is a signature by the account
/// `signer` over `message`, hashed as an Ethereum signed message.
pub uninterp spec fn signed_by(signature: Seq<u8>, message: Seq<u8>, signer: Seq<u8>) -> bool;

/// Relies on ethers' `Signature::try_from(&[u8])` and `Signature::verify`:
/// the 65 bytes are read as r, s and v, the message is hashed with the
/// Ethereum signed-message prefix, and the recovered address is compared
/// with `signer`. The outcome depends on the three byte strings alone.
#[verifier::external_body]
pub(crate) fn verify_signature(signature: &[u8; 65], message: &Vec<u8>, signer: &[u8; 20]) -> (r:
    bool)
    ensures
        r == signed_by(signature@, message@, signer@),
{
    match ethers::types::Signature::try_from(&signature[..]) {
        Ok(s) => s.verify(message.as_slice(), ethers::types::Address::from(*signer)).is_ok(),
        Err(_) => false,
    }
}

/// The signature (r, s, v) that the secp256k1 secret key `key` makes over
/// `message` as an Ethereum signed message; `None` where it makes none.
pub uninterp spec fn signature_of(key: Seq<u8>, message: Seq<u8>) -> Option<Seq<u8>>;

/// The account address of the secp256k1 secret key `key`; `None` where the
/// bytes are not a valid secret key.
pub uninterp spec fn key_address(key: Seq<u8>) -> Option<Seq<u8>>;

/// Relies on ethers' `LocalWallet::from_bytes` and `Signer::address`: the
/// account address (the last 20 bytes of the Keccak hash of the public key)
/// of the secret key `key`; `None` where the key is not a valid scalar.
#[verifier::external_body]
pub(crate) fn address_of_key(key: &[u8; 32]) -> (r: Option<[u8; 20]>)
    ensures
        r is Some <==> key_address(key@) is Some,
        r matches Some(a) ==> key_address(key@) == Some(a@),
{
    let wallet = ethers::signers::LocalWallet::from_bytes(&key[..]).ok()?;
    Some(ethers::signers::Signer::address(&wallet).0)
}

/// Relies on ethers' `LocalWallet::from_bytes`, `utils::hash_message` and
/// `Wallet::sign_hash`: signs `message` as an Ethereum signed message with
/// the secp256k1 secret key `key` (RFC 6979, so the result depends on the
/// key and the message alone); `None` where the key is not a valid scalar or
/// signing fails. A signature made this way recovers, through
/// `Signature::verify`, to the key's own address.
#[verifier::external_body]
pub(crate) fn sign_message(key: &[u8; 32], message: &Vec<u8>) -> (r: Option<[u8; 65]>)
    ensures
        r is Some <==> signature_of(key@, message@) is Some,
        r matches Some(s) ==> signature_of(key@, message@) == Some(s@),
        r matches Some(s) ==> key_address(key@) matches Some(a) && signed_by(s@, message@, a),
{
    let wallet = ethers::signers::LocalWallet::from_bytes(&key[..]).ok()?;
    let signature = wallet.sign_hash(ethers::utils::hash_message(message)).ok()?;
    Some((&signature).into())
}

} // verus!
