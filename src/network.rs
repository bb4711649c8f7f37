use vstd::prelude::*;

use crate::address::AddressPrefix;

verus! {

/// The kind of network a node or an address belongs to.
#[derive(Debug, Clone, Copy, PartialEq, Eq, Structural)]
pub enum NetworkType {
    Mainnet,
    Testnet,
    Devnet,
}

/// A network: its kind and, for a numbered testnet, its number.
#[derive(Debug, Clone, Copy, PartialEq, Eq, Structural)]
pub struct NetworkId {
    pub network_type: NetworkType,
    pub suffix: Option<u32>,
}

/// The number of the testnet that names nothing else resolve to.
pub const DEFAULT_TESTNET_SUFFIX: u32 = 12;

/// The network that an unrecognized name resolves to: the numbered testnet
/// `DEFAULT_TESTNET_SUFFIX`. Resolution defaults rather than fails.
pub open spec fn default_network() -> NetworkId {
    NetworkId { network_type: NetworkType::Testnet, suffix: Some(DEFAULT_TESTNET_SUFFIX) }
}

/// The network that `name` stands for, by exact, case-sensitive match.
pub open spec fn network_of_name(name: Seq<char>) -> NetworkId {
    if name == "mainnet"@ {
        NetworkId { network_type: NetworkType::Mainnet, suffix: None }
    } else if name == "testnet-10"@ || name == "testnet10"@ {
        NetworkId { network_type: NetworkType::Testnet, suffix: None }
    } else if name == "testnet-12"@ || name == "testnet12"@ {
        NetworkId { network_type: NetworkType::Testnet, suffix: Some(12) }
    } else if name == "devnet"@ {
        NetworkId { network_type: NetworkType::Devnet, suffix: None }
    } else {
        default_network()
    }
}

/// The address prefix of a network: main net addresses for the main net,
/// test net addresses for every other network.
pub open spec fn prefix_of_network(id: NetworkId) -> AddressPrefix {
    if id.network_type == NetworkType::Mainnet {
        AddressPrefix::Mainnet
    } else {
        AddressPrefix::Testnet
    }
}

/// Whether two texts hold the same characters.
pub fn same_text(a: &str, b: &str) -> (r: bool)
    ensures
        r == (a@ == b@),
{
    let n = a.unicode_len();
    if n != b.unicode_len() {
        return false;
    }
    let mut i: usize = 0;
    while i < n
        invariant
            n == a@.len(),
            n == b@.len(),
            0 <= i <= n,
            forall|j: int| 0 <= j < i ==> a@[j] == b@[j],
        decreases n - i,
    {
        if a.get_char(i) != b.get_char(i) {
            return false;
        }
        i = i + 1;
    }
    assert(a@ =~= b@);
    true
}

/// Resolves a network name. Every name resolves: those not recognized give
/// `default_network()`.
pub fn parse_network(name: &str) -> (r: NetworkId)
    ensures
        r == network_of_name(name@),
{
    if same_text(name, "mainnet") {
        NetworkId { network_type: NetworkType::Mainnet, suffix: None }
    } else if same_text(name, "testnet-10") || same_text(name, "testnet10") {
        NetworkId { network_type: NetworkType::Testnet, suffix: None }
    } else if same_text(name, "testnet-12") || same_text(name, "testnet12") {
        NetworkId { network_type: NetworkType::Testnet, suffix: Some(12) }
    } else if same_text(name, "devnet") {
        NetworkId { network_type: NetworkType::Devnet, suffix: None }
    } else {
        NetworkId { network_type: NetworkType::Testnet, suffix: Some(DEFAULT_TESTNET_SUFFIX) }
    }
}

/// The address prefix of a network.
pub fn prefix_for(id: NetworkId) -> (r: AddressPrefix)
    ensures
        r == prefix_of_network(id),
{
    match id.network_type {
        NetworkType::Mainnet => AddressPrefix::Mainnet,
        _ => AddressPrefix::Testnet,
    }
}

} // verus!
