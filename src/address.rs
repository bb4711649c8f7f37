use kaspa_addresses::{Prefix as KaspaPrefix, Version as KaspaVersion};
use vstd::prelude::*;

use crate::error::WalletError;
use crate::keys::{xonly_public_key_of, Keypair};
use crate::network::{network_of_name, parse_network, prefix_for, prefix_of_network};

verus! {

/// The network part of an address.
#[derive(Debug, Clone, Copy, PartialEq, Eq, Structural)]
pub enum AddressPrefix {
    Mainnet,
    Testnet,
    Simnet,
    Devnet,
}

/// What the payload of an address is.
#[derive(Debug, Clone, Copy, PartialEq, Eq, Structural)]
pub enum AddressVersion {
    /// A 32-byte x-only public key.
    PubKey,
    /// A 33-byte compressed ECDSA public key.
    PubKeyEcdsa,
    /// A 32-byte script hash.
    ScriptHash,
}

/// The text that an address of each prefix starts with, before the colon.
pub open spec fn prefix_text(prefix: AddressPrefix) -> Seq<char> {
    match prefix {
        AddressPrefix::Mainnet => "kaspa"@,
        AddressPrefix::Testnet => "kaspatest"@,
        AddressPrefix::Simnet => "kaspasim"@,
        AddressPrefix::Devnet => "kaspadev"@,
    }
}

/// The payload length that each version fixes.
pub open spec fn payload_len(version: AddressVersion) -> nat {
    match version {
        AddressVersion::PubKeyEcdsa => 33,
        _ => 32,
    }
}

/// A decoded address.
#[derive(Debug)]
pub struct Address {
    pub prefix: AddressPrefix,
    pub version: AddressVersion,
    pub payload: Vec<u8>,
}

/// The canonical checksummed text of an address.
pub uninterp spec fn address_text(prefix: AddressPrefix, version: AddressVersion, payload: Seq<u8>) -> Seq<char>;

/// The fields that an address text decodes to, or `None` where it does not
/// decode.
pub uninterp spec fn address_fields(text: Seq<char>) -> Option<(AddressPrefix, AddressVersion, Seq<u8>)>;

/// Relies on kaspa_addresses' Address::new and String::from(&Address): the
/// text is the prefix's name, a colon and the checksummed base-32 encoding
/// of the version byte and the key; Address::try_from reads it back.
#[verifier::external_body]
fn encode_pubkey_address(prefix: AddressPrefix, public_key: &[u8]) -> (r: String)
    requires
        public_key@.len() == 32,
    ensures
        r@ == address_text(prefix, AddressVersion::PubKey, public_key@),
        r@.len() > prefix_text(prefix).len(),
        r@.subrange(0, prefix_text(prefix).len() as int) == prefix_text(prefix),
        r@[prefix_text(prefix).len() as int] == ':',
        address_fields(r@) == Some((prefix, AddressVersion::PubKey, public_key@)),
{
    let prefix = match prefix {
        AddressPrefix::Mainnet => KaspaPrefix::Mainnet,
        AddressPrefix::Testnet => KaspaPrefix::Testnet,
        AddressPrefix::Simnet => KaspaPrefix::Simnet,
        AddressPrefix::Devnet => KaspaPrefix::Devnet,
    };
    String::from(&kaspa_addresses::Address::new(prefix, KaspaVersion::PubKey, public_key))
}

/// Relies on kaspa_addresses' Address::try_from(&str), which checks the
/// prefix, the checksum and the payload length of the version.
#[verifier::external_body]
fn parse_address_text(text: &str) -> (r: Option<Address>)
    ensures
        r matches Some(a) ==> address_fields(text@) == Some((a.prefix, a.version, a.payload@))
            && a.payload@.len() == payload_len(a.version),
        r.is_none() ==> address_fields(text@).is_none(),
{
    let a = kaspa_addresses::Address::try_from(text).ok()?;
    let prefix = match a.prefix {
        KaspaPrefix::Mainnet => AddressPrefix::Mainnet,
        KaspaPrefix::Testnet => AddressPrefix::Testnet,
        KaspaPrefix::Simnet => AddressPrefix::Simnet,
        KaspaPrefix::Devnet => AddressPrefix::Devnet,
    };
    let version = match a.version {
        KaspaVersion::PubKey => AddressVersion::PubKey,
        KaspaVersion::PubKeyECDSA => AddressVersion::PubKeyEcdsa,
        KaspaVersion::ScriptHash => AddressVersion::ScriptHash,
    };
    Some(Address { prefix, version, payload: a.payload.to_vec() })
}

/// The prefix that addresses for the network named `network` carry.
pub open spec fn prefix_of_name(network: Seq<char>) -> AddressPrefix {
    prefix_of_network(network_of_name(network))
}

/// Only the name "mainnet" gives main net addresses; every other name, known
/// or not, gives test net addresses.
pub proof fn lemma_prefix_of_name(network: Seq<char>)
    ensures
        prefix_of_name(network) == (if network == "mainnet"@ {
            AddressPrefix::Mainnet
        } else {
            AddressPrefix::Testnet
        }),
{
}

/// The address of a 32-byte x-only public key on the network named
/// `network`. A key of any other length is refused; the bytes themselves are
/// not checked. The text decodes back to the prefix, the public-key version
/// and the key.
pub fn public_key_to_address(public_key: &[u8], network: &str) -> (r: Result<String, WalletError>)
    ensures
        r.is_ok() == (public_key@.len() == 32),
        r matches Err(e) ==> e == WalletError::InvalidKeyLength,
        r matches Ok(t) ==> t@ == address_text(prefix_of_name(network@), AddressVersion::PubKey, public_key@),
        r matches Ok(t) ==> address_fields(t@) == Some(
            (prefix_of_name(network@), AddressVersion::PubKey, public_key@),
        ),
        r matches Ok(t) ==> t@.len() > prefix_text(prefix_of_name(network@)).len(),
        r matches Ok(t) ==> t@.subrange(0, prefix_text(prefix_of_name(network@)).len() as int) == prefix_text(
            prefix_of_name(network@),
        ),
        r matches Ok(t) ==> t@[prefix_text(prefix_of_name(network@)).len() as int] == ':',
{
    if public_key.len() != 32 {
        return Err(WalletError::InvalidKeyLength);
    }
    let prefix = prefix_for(parse_network(network));
    Ok(encode_pubkey_address(prefix, public_key))
}

/// The address of a key pair on the network named `network`.
pub fn keypair_address(keypair: &Keypair, network: &str) -> (r: String)
    ensures
        r@ == address_text(
            prefix_of_name(network@),
            AddressVersion::PubKey,
            xonly_public_key_of(keypair.secret()),
        ),
        address_fields(r@) == Some(
            (prefix_of_name(network@), AddressVersion::PubKey, xonly_public_key_of(keypair.secret())),
        ),
        r@.len() > prefix_text(prefix_of_name(network@)).len(),
        r@.subrange(0, prefix_text(prefix_of_name(network@)).len() as int) == prefix_text(prefix_of_name(network@)),
        r@[prefix_text(prefix_of_name(network@)).len() as int] == ':',
{
    let public_key = keypair.public_key_bytes();
    let prefix = prefix_for(parse_network(network));
    encode_pubkey_address(prefix, &public_key)
}

/// Decodes an address text into its prefix, version and payload.
pub fn decode_address(text: &str) -> (r: Result<Address, WalletError>)
    ensures
        r.is_ok() == address_fields(text@).is_some(),
        r matches Ok(a) ==> address_fields(text@) == Some((a.prefix, a.version, a.payload@))
            && a.payload@.len() == payload_len(a.version),
        r matches Err(e) ==> e == WalletError::MalformedAddress,
{
    match parse_address_text(text) {
        Some(a) => Ok(a),
        None => Err(WalletError::MalformedAddress),
    }
}

/// The form of an address that balance and output queries take: the text
/// itself, once it is known to decode.
pub fn to_query_form(text: &str) -> (r: Result<String, WalletError>)
    ensures
        r.is_ok() == address_fields(text@).is_some(),
        r matches Ok(t) ==> t@ == text@,
        r matches Err(e) ==> e == WalletError::MalformedAddress,
{
    match parse_address_text(text) {
        Some(_) => Ok(text.to_owned()),
        None => Err(WalletError::MalformedAddress),
    }
}

} // verus!
