use vstd::prelude::*;

use crate::error::WalletError;
use crate::hex_text::{decode_hex, encode_hex, hex_bytes, hex_of, is_hex_text, lemma_hex_round_trip};

verus! {

/// The unsigned value of `b` read big-endian.
pub open spec fn be_value(b: Seq<u8>) -> nat
    decreases b.len(),
{
    if b.len() == 0 {
        0
    } else {
        (be_value(b.drop_last()) * 256 + b.last()) as nat
    }
}

/// The order of the group of the secp256k1 curve.
pub open spec fn curve_order() -> nat {
    0xFFFFFFFFFFFFFFFFFFFFFFFFFFFFFFFE * 0x10000000000000000 * 0x10000000000000000
        + 0xBAAEDCE6AF48A03BBFD25E8CD0364141
}

/// A secret key: 32 bytes whose big-endian value is neither zero nor at
/// least the curve order.
pub open spec fn is_valid_secret(b: Seq<u8>) -> bool {
    b.len() == 32 && 0 < be_value(b) < curve_order()
}

/// The 32-byte x-only (even-Y) serialization of the public key of a secret.
pub uninterp spec fn xonly_public_key_of(secret: Seq<u8>) -> Seq<u8>;

/// Relies on secp256k1's SecretKey::from_slice, which accepts exactly the
/// valid secrets and keeps their bytes, and on Keypair::from_secret_key with
/// Keypair::x_only_public_key, which give the x-only public key of the secret.
#[verifier::external_body]
fn secp_keypair(bytes: &[u8]) -> (r: Option<([u8; 32], [u8; 32])>)
    ensures
        r.is_some() == is_valid_secret(bytes@),
        r matches Some(p) ==> p.0@ == bytes@ && p.1@ == xonly_public_key_of(bytes@),
{
    match secp256k1::SecretKey::from_slice(bytes) {
        Ok(sk) => {
            let kp = secp256k1::Keypair::from_secret_key(&secp256k1::Secp256k1::new(), &sk);
            Some((kp.secret_bytes(), kp.x_only_public_key().0.serialize()))
        },
        Err(_) => None,
    }
}

/// Relies on secp256k1's Keypair::new, which draws 32 bytes from rand's
/// thread_rng until they form a valid secret, and on Keypair::secret_bytes.
#[verifier::external_body]
fn random_secret() -> (r: [u8; 32])
    ensures
        is_valid_secret(r@),
{
    secp256k1::Keypair::new(&secp256k1::Secp256k1::new(), &mut rand::thread_rng()).secret_bytes()
}

/// A signing key pair: a valid secret and its x-only public key.
pub struct Keypair {
    secret: [u8; 32],
    public_key: [u8; 32],
}

impl Keypair {
    #[verifier::type_invariant]
    spec fn inv(self) -> bool {
        &&& is_valid_secret(self.secret@)
        &&& self.public_key@ == xonly_public_key_of(self.secret@)
    }

    /// The secret scalar, 32 bytes big-endian.
    pub closed spec fn secret(self) -> Seq<u8> {
        self.secret@
    }

    /// The x-only public key, 32 bytes.
    pub closed spec fn public_key(self) -> Seq<u8> {
        self.public_key@
    }

    /// The key pair of `bytes`, when they form a valid secret.
    pub fn from_secret_bytes(bytes: &[u8]) -> (r: Option<Keypair>)
        ensures
            r.is_some() == is_valid_secret(bytes@),
            r matches Some(k) ==> k.secret() == bytes@,
    {
        match secp_keypair(bytes) {
            Some((secret, public_key)) => Some(Keypair { secret, public_key }),
            None => None,
        }
    }

    /// The secret bytes.
    pub fn secret_bytes(&self) -> (r: [u8; 32])
        ensures
            r@ == self.secret(),
            is_valid_secret(r@),
    {
        proof {
            use_type_invariant(self);
        }
        self.secret
    }

    /// The x-only public key bytes, a function of the secret alone.
    pub fn public_key_bytes(&self) -> (r: [u8; 32])
        ensures
            r@ == self.public_key(),
            r@ == xonly_public_key_of(self.secret()),
    {
        proof {
            use_type_invariant(self);
        }
        self.public_key
    }

    /// The secret as lower-case hexadecimal text.
    pub fn secret_hex(&self) -> (r: String)
        ensures
            r@ == hex_of(self.secret()),
    {
        encode_hex(&self.secret)
    }

    /// The x-only public key as lower-case hexadecimal text.
    pub fn public_key_hex(&self) -> (r: String)
        ensures
            r@ == hex_of(self.public_key()),
    {
        encode_hex(&self.public_key)
    }
}

/// A fresh key pair from the thread's cryptographically secure generator.
pub fn generate_keypair() -> (r: Keypair)
    ensures
        is_valid_secret(r.secret()),
        r.public_key() == xonly_public_key_of(r.secret()),
{
    let secret = random_secret();
    match Keypair::from_secret_bytes(&secret) {
        Some(k) => {
            proof {
                use_type_invariant(&k);
            }
            k
        },
        None => vstd::pervasive::unreached(),
    }
}

/// What importing the secret written as `text` gives: its bytes, or the
/// first rule that the text breaks.
pub open spec fn import_spec(text: Seq<char>) -> Result<Seq<u8>, WalletError> {
    if !is_hex_text(text) {
        Err(WalletError::InvalidEncoding)
    } else if hex_bytes(text).len() != 32 {
        Err(WalletError::InvalidKeyLength)
    } else if !is_valid_secret(hex_bytes(text)) {
        Err(WalletError::InvalidKeyValue)
    } else {
        Ok(hex_bytes(text))
    }
}

/// Imports a key pair from its secret written in hexadecimal.
pub fn keypair_from_secret(secret: &str) -> (r: Result<Keypair, WalletError>)
    ensures
        r matches Ok(k) ==> import_spec(secret@) == Ok::<Seq<u8>, WalletError>(k.secret()),
        r matches Err(e) ==> import_spec(secret@) == Err::<Seq<u8>, WalletError>(e),
{
    let bytes = match decode_hex(secret) {
        Some(b) => b,
        None => return Err(WalletError::InvalidEncoding),
    };
    if bytes.len() != 32 {
        return Err(WalletError::InvalidKeyLength);
    }
    match Keypair::from_secret_bytes(bytes.as_slice()) {
        Some(k) => Ok(k),
        None => Err(WalletError::InvalidKeyValue),
    }
}

/// Importing the hexadecimal text of a valid secret succeeds and gives back
/// that secret.
pub proof fn lemma_import_hex_of_secret(secret: Seq<u8>)
    requires
        is_valid_secret(secret),
    ensures
        import_spec(hex_of(secret)) == Ok::<Seq<u8>, WalletError>(secret),
{
    lemma_hex_round_trip(secret);
}

/// Text that is not hexadecimal fails as a bad encoding; hexadecimal text
/// of other than 32 bytes fails as a bad key length.
pub proof fn lemma_import_rejects(text: Seq<char>)
    ensures
        !is_hex_text(text) ==> import_spec(text) == Err::<Seq<u8>, WalletError>(WalletError::InvalidEncoding),
        is_hex_text(text) && hex_bytes(text).len() != 32 ==> import_spec(text) == Err::<Seq<u8>, WalletError>(
            WalletError::InvalidKeyLength,
        ),
{
}

} // verus!
