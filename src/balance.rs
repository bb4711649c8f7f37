use vstd::prelude::*;

use crate::error::WalletError;

verus! {

/// Base units in one display unit.
pub const BASE_UNITS_PER_DISPLAY_UNIT: u64 = 100_000_000;

/// An unspent output, by the amount it carries in base units.
#[derive(Debug, Clone, Copy, PartialEq, Eq, Structural)]
pub struct UtxoRecord {
    pub amount: u64,
}

/// The arithmetic sum of the amounts of `utxos`.
pub open spec fn total_amount(utxos: Seq<UtxoRecord>) -> int
    decreases utxos.len(),
{
    if utxos.len() == 0 {
        0
    } else {
        total_amount(utxos.drop_last()) + utxos.last().amount
    }
}

/// What `aggregate` returns: the total, when it fits in a `u64`.
pub open spec fn aggregate_spec(utxos: Seq<UtxoRecord>) -> Option<u64> {
    if total_amount(utxos) <= u64::MAX {
        Some(total_amount(utxos) as u64)
    } else {
        None
    }
}

/// What `validate_spend` returns: the change, or the shortfall.
pub open spec fn validate_spend_spec(total_available: u64, requested: u64) -> Result<u64, WalletError> {
    if requested <= total_available {
        Ok((total_available - requested) as u64)
    } else {
        Err(WalletError::InsufficientFunds { available: total_available, requested })
    }
}

proof fn lemma_total_nonneg(utxos: Seq<UtxoRecord>)
    ensures
        total_amount(utxos) >= 0,
    decreases utxos.len(),
{
    if utxos.len() > 0 {
        lemma_total_nonneg(utxos.drop_last());
    }
}

proof fn lemma_total_prefix_le(utxos: Seq<UtxoRecord>, k: int)
    requires
        0 <= k <= utxos.len(),
    ensures
        total_amount(utxos.subrange(0, k)) <= total_amount(utxos),
    decreases utxos.len(),
{
    if k < utxos.len() {
        assert(utxos.drop_last().subrange(0, k) =~= utxos.subrange(0, k));
        lemma_total_prefix_le(utxos.drop_last(), k);
    } else {
        assert(utxos.subrange(0, k) =~= utxos);
    }
}

/// Sums the amounts of `utxos`. An empty set sums to zero; `None` comes
/// exactly when the sum does not fit in a `u64`.
pub fn aggregate(utxos: &[UtxoRecord]) -> (r: Option<u64>)
    ensures
        r == aggregate_spec(utxos@),
{
    let mut total: u64 = 0;
    let mut i: usize = 0;
    while i < utxos.len()
        invariant
            0 <= i <= utxos.len(),
            total == total_amount(utxos@.subrange(0, i as int)),
        decreases utxos.len() - i,
    {
        let amount = utxos[i].amount;
        assert(utxos@.subrange(0, i + 1).drop_last() =~= utxos@.subrange(0, i as int));
        if amount > u64::MAX - total {
            proof {
                lemma_total_prefix_le(utxos@, i + 1);
            }
            return None;
        }
        total = total + amount;
        i = i + 1;
    }
    assert(utxos@.subrange(0, i as int) =~= utxos@);
    Some(total)
}

/// Checks a requested spend against the available total, giving the change
/// that remains.
pub fn validate_spend(total_available: u64, requested: u64) -> (r: Result<u64, WalletError>)
    ensures
        r == validate_spend_spec(total_available, requested),
{
    if total_available < requested {
        Err(WalletError::InsufficientFunds { available: total_available, requested })
    } else {
        Ok(total_available - requested)
    }
}

/// The outcome of checking a spend against a set of outputs.
#[derive(Debug, Clone, Copy, PartialEq, Eq, Structural)]
pub struct SpendSummary {
    pub total_available: u64,
    pub change: u64,
}

/// What `prepare_spend` returns for `utxos` and a requested amount.
pub open spec fn prepare_spend_spec(utxos: Seq<UtxoRecord>, requested: u64) -> Result<SpendSummary, WalletError> {
    if total_amount(utxos) > u64::MAX {
        Err(WalletError::BalanceOverflow)
    } else if requested > total_amount(utxos) {
        Err(WalletError::InsufficientFunds { available: total_amount(utxos) as u64, requested })
    } else {
        Ok(SpendSummary {
            total_available: total_amount(utxos) as u64,
            change: (total_amount(utxos) - requested) as u64,
        })
    }
}

/// Decides whether the outputs of a sending address cover `requested`: their
/// total must fit in a `u64` and reach the request. No outputs at all is a
/// total of zero.
pub fn prepare_spend(utxos: &[UtxoRecord], requested: u64) -> (r: Result<SpendSummary, WalletError>)
    ensures
        r == prepare_spend_spec(utxos@, requested),
{
    proof {
        lemma_total_nonneg(utxos@);
    }
    match aggregate(utxos) {
        None => Err(WalletError::BalanceOverflow),
        Some(total_available) => match validate_spend(total_available, requested) {
            Ok(change) => Ok(SpendSummary { total_available, change }),
            Err(e) => Err(e),
        },
    }
}

proof fn lemma_total_remove(utxos: Seq<UtxoRecord>, j: int)
    requires
        0 <= j < utxos.len(),
    ensures
        total_amount(utxos) == total_amount(utxos.remove(j)) + utxos[j].amount,
    decreases utxos.len(),
{
    if j < utxos.len() - 1 {
        assert(utxos.remove(j).drop_last() =~= utxos.drop_last().remove(j));
        lemma_total_remove(utxos.drop_last(), j);
    } else {
        assert(utxos.remove(j) =~= utxos.drop_last());
    }
}

/// The total of a set of outputs does not depend on the order in which they
/// are listed: two lists that hold the same outputs, each as many times,
/// have the same total, and so `aggregate` gives the same result on both.
pub proof fn lemma_aggregate_order_independent(a: Seq<UtxoRecord>, b: Seq<UtxoRecord>)
    requires
        a.to_multiset() == b.to_multiset(),
    ensures
        total_amount(a) == total_amount(b),
        aggregate_spec(a) == aggregate_spec(b),
    decreases a.len(),
{
    a.to_multiset_ensures();
    b.to_multiset_ensures();
    if a.len() == 0 {
        assert(b.len() == 0);
        assert(b =~= a);
    } else {
        let x = a.last();
        assert(a.to_multiset().count(x) > 0) by {
            assert(a.contains(x)) by {
                assert(a[a.len() - 1] == x);
            }
        }
        assert(b.contains(x));
        let j = choose|j: int| 0 <= j < b.len() && b[j] == x;
        assert(a.remove(a.len() - 1) =~= a.drop_last());
        assert(a.drop_last().to_multiset() =~= b.remove(j).to_multiset());
        lemma_aggregate_order_independent(a.drop_last(), b.remove(j));
        lemma_total_remove(b, j);
    }
}

/// An empty set of outputs has a total of zero.
pub proof fn lemma_aggregate_empty()
    ensures
        aggregate_spec(Seq::<UtxoRecord>::empty()) == Some(0u64),
{
}

} // verus!
