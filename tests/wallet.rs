use kaspa_wallet::address::{
    decode_address, keypair_address, public_key_to_address, to_query_form, AddressPrefix, AddressVersion,
};
use kaspa_wallet::balance::{aggregate, prepare_spend, validate_spend, SpendSummary, UtxoRecord};
use kaspa_wallet::error::WalletError;
use kaspa_wallet::keys::{generate_keypair, keypair_from_secret, Keypair};
use kaspa_wallet::network::{parse_network, prefix_for, same_text, NetworkId, NetworkType};
use kaspa_wallet::units::{format_display_units, parse_display_amount};

const SECRET_ONE: &str = "0000000000000000000000000000000000000000000000000000000000000001";
const GENERATOR_X: &str = "79be667ef9dcbbac55a06295ce870b07029bfcdb2dce28d959f2815b16f81798";
const MAINNET_KEY: [u8; 32] = [
    0x5f, 0xff, 0x3c, 0x4d, 0xa1, 0x8f, 0x45, 0xad, 0xcd, 0xd4, 0x99, 0xe4, 0x46, 0x11, 0xe9, 0xff, 0xf1, 0x48,
    0xba, 0x69, 0xdb, 0x3c, 0x4e, 0xa2, 0xdd, 0xd9, 0x55, 0xfc, 0x46, 0xa5, 0x95, 0x22,
];
const MAINNET_ADDRESS: &str = "kaspa:qp0l70zd5x85ttwd6jv7g3s3a8llzj96d8dncn4zmhv4tlzx5k2jyqh70xmfj";
const ZERO_TESTNET_ADDRESS: &str = "kaspatest:qqqqqqqqqqqqqqqqqqqqqqqqqqqqqqqqqqqqqqqqqqqqqqqqqqqqqhqrxplya";

fn utxos(amounts: &[u64]) -> Vec<UtxoRecord> {
    amounts.iter().map(|&amount| UtxoRecord { amount }).collect()
}

#[test]
fn import_keeps_the_secret_bytes() {
    let k = keypair_from_secret(&"cd".repeat(32)).unwrap();
    assert_eq!(k.secret_bytes(), [0xcd; 32]);
    assert_eq!(k.secret_hex(), "cd".repeat(32));
}

#[test]
fn import_accepts_upper_case_hex() {
    let k = keypair_from_secret(&"AB".repeat(32)).unwrap();
    assert_eq!(k.secret_bytes(), [0xab; 32]);
}

#[test]
fn import_derives_the_xonly_public_key() {
    let k = keypair_from_secret(SECRET_ONE).unwrap();
    assert_eq!(k.public_key_hex(), GENERATOR_X);
    let mut expected = [0u8; 32];
    expected[31] = 1;
    assert_eq!(k.secret_bytes(), expected);
}

#[test]
fn import_rejects_non_hex_text() {
    assert_eq!(keypair_from_secret(&"zz".repeat(32)).err(), Some(WalletError::InvalidEncoding));
    assert_eq!(keypair_from_secret("abc").err(), Some(WalletError::InvalidEncoding));
    assert_eq!(keypair_from_secret("0x01").err(), Some(WalletError::InvalidEncoding));
}

#[test]
fn import_rejects_wrong_lengths() {
    assert_eq!(keypair_from_secret("").err(), Some(WalletError::InvalidKeyLength));
    assert_eq!(keypair_from_secret("0011").err(), Some(WalletError::InvalidKeyLength));
    assert_eq!(keypair_from_secret(&"01".repeat(33)).err(), Some(WalletError::InvalidKeyLength));
}

#[test]
fn import_rejects_invalid_scalars() {
    assert_eq!(keypair_from_secret(&"00".repeat(32)).err(), Some(WalletError::InvalidKeyValue));
    let order = "fffffffffffffffffffffffffffffffebaaedce6af48a03bbfd25e8cd0364141";
    assert_eq!(keypair_from_secret(order).err(), Some(WalletError::InvalidKeyValue));
    assert_eq!(keypair_from_secret(&"ff".repeat(32)).err(), Some(WalletError::InvalidKeyValue));
    let below_order = "fffffffffffffffffffffffffffffffebaaedce6af48a03bbfd25e8cd0364140";
    assert!(keypair_from_secret(below_order).is_ok());
}

#[test]
fn secret_bytes_form_a_key_pair() {
    assert!(Keypair::from_secret_bytes(&[7u8; 32]).is_some());
    assert!(Keypair::from_secret_bytes(&[0u8; 32]).is_none());
    assert!(Keypair::from_secret_bytes(&[7u8; 31]).is_none());
}

#[test]
fn generated_key_pair_imports_back() {
    let k = generate_keypair();
    let again = keypair_from_secret(&k.secret_hex()).unwrap();
    assert_eq!(again.secret_bytes(), k.secret_bytes());
    assert_eq!(again.public_key_bytes(), k.public_key_bytes());
    assert_ne!(generate_keypair().secret_bytes(), k.secret_bytes());
}

#[test]
fn mainnet_address_of_known_key() {
    assert_eq!(public_key_to_address(&MAINNET_KEY, "mainnet").unwrap(), MAINNET_ADDRESS);
}

#[test]
fn all_zero_key_is_encoded_as_given() {
    assert_eq!(public_key_to_address(&[0u8; 32], "testnet-12").unwrap(), ZERO_TESTNET_ADDRESS);
    assert_eq!(public_key_to_address(&[0u8; 32], "devnet").unwrap(), ZERO_TESTNET_ADDRESS);
}

#[test]
fn address_needs_a_32_byte_key() {
    assert_eq!(public_key_to_address(&[1u8; 31], "mainnet"), Err(WalletError::InvalidKeyLength));
    assert_eq!(public_key_to_address(&[1u8; 33], "mainnet"), Err(WalletError::InvalidKeyLength));
}

#[test]
fn address_round_trip() {
    for (network, prefix) in [("mainnet", AddressPrefix::Mainnet), ("testnet-10", AddressPrefix::Testnet)] {
        for key in [[0u8; 32], [0xffu8; 32], MAINNET_KEY] {
            let text = public_key_to_address(&key, network).unwrap();
            let a = decode_address(&text).unwrap();
            assert_eq!(a.prefix, prefix);
            assert_eq!(a.version, AddressVersion::PubKey);
            assert_eq!(a.payload, key.to_vec());
        }
    }
}

#[test]
fn key_pair_address_matches_public_key_address() {
    let k = keypair_from_secret(SECRET_ONE).unwrap();
    let from_key = keypair_address(&k, "testnet");
    assert_eq!(from_key, public_key_to_address(&k.public_key_bytes(), "testnet").unwrap());
    assert!(from_key.starts_with("kaspatest:"));
    assert!(keypair_address(&k, "mainnet").starts_with("kaspa:"));
}

#[test]
fn address_prefix_follows_the_network_name() {
    let key = [0x11u8; 32];
    let t12 = public_key_to_address(&key, "testnet-12").unwrap();
    assert_eq!(t12, public_key_to_address(&key, "unknown-name").unwrap());
    assert!(t12.starts_with("kaspatest:"));
    assert!(public_key_to_address(&key, "devnet").unwrap().starts_with("kaspatest:"));
    assert!(public_key_to_address(&key, "testnet-10").unwrap().starts_with("kaspatest:"));
    assert!(public_key_to_address(&key, "mainnet").unwrap().starts_with("kaspa:"));
    assert!(public_key_to_address(&key, "Mainnet").unwrap().starts_with("kaspatest:"));
}

#[test]
fn changing_one_character_breaks_the_checksum() {
    let text: Vec<char> = MAINNET_ADDRESS.chars().collect();
    for i in 0..text.len() {
        let mut changed = text.clone();
        changed[i] = if text[i] == 'q' { 'p' } else { 'q' };
        let changed: String = changed.into_iter().collect();
        assert_eq!(decode_address(&changed).err(), Some(WalletError::MalformedAddress), "{}", changed);
    }
}

#[test]
fn decode_rejects_malformed_text() {
    assert_eq!(decode_address("").err(), Some(WalletError::MalformedAddress));
    assert_eq!(decode_address("qp0l70zd5x85").err(), Some(WalletError::MalformedAddress));
    assert_eq!(decode_address("bitcoin:qqqqqqqq").err(), Some(WalletError::MalformedAddress));
}

#[test]
fn query_form_is_the_validated_text() {
    assert_eq!(to_query_form(MAINNET_ADDRESS).unwrap(), MAINNET_ADDRESS);
    assert_eq!(to_query_form("kaspa:nothing"), Err(WalletError::MalformedAddress));
}

#[test]
fn aggregate_of_no_outputs_is_zero() {
    assert_eq!(aggregate(&[]), Some(0));
}

#[test]
fn aggregate_sums_amounts() {
    assert_eq!(aggregate(&utxos(&[150000000, 50000000])), Some(200000000));
    assert_eq!(aggregate(&utxos(&[1, 2, 3, 4])), Some(10));
}

#[test]
fn aggregate_ignores_order() {
    assert_eq!(aggregate(&utxos(&[5, 70, 300])), aggregate(&utxos(&[300, 5, 70])));
}

#[test]
fn aggregate_reports_overflow() {
    assert_eq!(aggregate(&utxos(&[u64::MAX, 0])), Some(u64::MAX));
    assert_eq!(aggregate(&utxos(&[u64::MAX, 1])), None);
}

#[test]
fn validate_spend_gives_change() {
    assert_eq!(validate_spend(200000000, 100000000), Ok(100000000));
    assert_eq!(validate_spend(7, 7), Ok(0));
    assert_eq!(validate_spend(0, 0), Ok(0));
}

#[test]
fn validate_spend_reports_shortfall() {
    assert_eq!(
        validate_spend(50000000, 100000000),
        Err(WalletError::InsufficientFunds { available: 50000000, requested: 100000000 })
    );
}

#[test]
fn prepare_spend_outcomes() {
    assert_eq!(prepare_spend(&[], 1), Err(WalletError::InsufficientFunds { available: 0, requested: 1 }));
    assert_eq!(prepare_spend(&[], 0), Ok(SpendSummary { total_available: 0, change: 0 }));
    assert_eq!(prepare_spend(&utxos(&[u64::MAX, 1]), 1), Err(WalletError::BalanceOverflow));
    assert_eq!(
        prepare_spend(&utxos(&[30, 20]), 60),
        Err(WalletError::InsufficientFunds { available: 50, requested: 60 })
    );
    assert_eq!(
        prepare_spend(&utxos(&[150000000, 50000000]), 100000000),
        Ok(SpendSummary { total_available: 200000000, change: 100000000 })
    );
}

#[test]
fn unknown_network_defaults_to_numbered_testnet() {
    let default = parse_network("unknown-name");
    assert_eq!(parse_network("testnet-12"), default);
    assert_eq!(parse_network("testnet12"), default);
    assert_eq!(default, NetworkId { network_type: NetworkType::Testnet, suffix: Some(12) });
    assert_eq!(prefix_for(default), AddressPrefix::Testnet);
}

#[test]
fn known_network_names() {
    assert_eq!(parse_network("mainnet"), NetworkId { network_type: NetworkType::Mainnet, suffix: None });
    assert_eq!(parse_network("testnet-10"), NetworkId { network_type: NetworkType::Testnet, suffix: None });
    assert_eq!(parse_network("testnet10"), NetworkId { network_type: NetworkType::Testnet, suffix: None });
    assert_eq!(parse_network("devnet"), NetworkId { network_type: NetworkType::Devnet, suffix: None });
    assert_eq!(parse_network("Mainnet").suffix, Some(12));
    assert_eq!(prefix_for(parse_network("mainnet")), AddressPrefix::Mainnet);
    assert_eq!(prefix_for(parse_network("devnet")), AddressPrefix::Testnet);
}

#[test]
fn same_text_compares_characters() {
    assert!(same_text("devnet", "devnet"));
    assert!(!same_text("devnet", "devnet "));
    assert!(!same_text("", "a"));
}

#[test]
fn display_units_have_eight_fraction_digits() {
    assert_eq!(format_display_units(150000000), "1.50000000");
    assert_eq!(format_display_units(0), "0.00000000");
    assert_eq!(format_display_units(1), "0.00000001");
    assert_eq!(format_display_units(200000000), "2.00000000");
    assert_eq!(format_display_units(123456789012), "1234.56789012");
    assert_eq!(format_display_units(u64::MAX), "184467440737.09551615");
}

#[test]
fn one_display_unit_is_a_hundred_million_base_units() {
    assert_eq!(parse_display_amount("1.0"), Ok(100000000));
    assert_eq!(parse_display_amount("1"), Ok(100000000));
    assert_eq!(parse_display_amount("1."), Ok(100000000));
}

#[test]
fn display_amount_fractions() {
    assert_eq!(parse_display_amount("1.5"), Ok(150000000));
    assert_eq!(parse_display_amount("0.00000001"), Ok(1));
    assert_eq!(parse_display_amount("0.000000019"), Ok(1));
    assert_eq!(parse_display_amount("0.1"), Ok(10000000));
    assert_eq!(parse_display_amount("0"), Ok(0));
    assert_eq!(parse_display_amount("007.25"), Ok(725000000));
}

#[test]
fn display_amount_limits() {
    assert_eq!(parse_display_amount("184467440737.09551615"), Ok(u64::MAX));
    assert_eq!(parse_display_amount("184467440737.09551616"), Err(WalletError::BalanceOverflow));
    assert_eq!(parse_display_amount("184467440738"), Err(WalletError::BalanceOverflow));
    assert_eq!(parse_display_amount("99999999999999999999999"), Err(WalletError::BalanceOverflow));
}

#[test]
fn display_amount_rejects_other_text() {
    for text in ["", ".5", "1.2.3", "-1", "1e8", " 1", "1,5", "abc", "1.x"] {
        assert_eq!(parse_display_amount(text), Err(WalletError::InvalidEncoding), "{}", text);
    }
    assert_eq!(parse_display_amount("99999999999999999999999x"), Err(WalletError::InvalidEncoding));
}

#[test]
fn display_round_trip_of_formatted_amount() {
    for units in [0u64, 1, 99, 150000000, 123456789012, u64::MAX] {
        assert_eq!(parse_display_amount(&format_display_units(units)), Ok(units));
    }
}
