//! What all accounts together hold of an asset.
use vstd::prelude::*;

use crate::dispatch::AccountId;
use crate::multidao::{AssetId, Balance};

verus! {

/// What the storage entry under `k`, holding `x`, counts towards asset `id`.
pub open spec fn holding_in(k: (AssetId, AccountId), x: Balance, id: AssetId) -> int {
    if k.0 == id {
        x as int
    } else {
        0
    }
}

/// The sum, over all accounts, of what they hold of asset `id`.
pub open spec fn asset_holdings(m: Map<(AssetId, AccountId), Balance>, id: AssetId) -> int
    decreases m.dom().len(),
    when m.dom().finite()
{
    if m.dom().len() == 0 {
        0
    } else {
        let k = m.dom().choose();
        holding_in(k, m[k], id) + asset_holdings(m.remove(k), id)
    }
}

/// Taking out any one entry takes out what it counts.
pub proof fn lemma_holdings_remove(m: Map<(AssetId, AccountId), Balance>, k0: (AssetId, AccountId), id: AssetId)
    requires
        m.dom().finite(),
        m.dom().contains(k0),
    ensures
        asset_holdings(m, id) == holding_in(k0, m[k0], id) + asset_holdings(m.remove(k0), id),
    decreases m.dom().len(),
{
    let k = m.dom().choose();
    if k != k0 {
        lemma_holdings_remove(m.remove(k), k0, id);
        lemma_holdings_remove(m.remove(k0), k, id);
        assert(m.remove(k).remove(k0) =~= m.remove(k0).remove(k));
    }
}

/// Storing `x` under `k` replaces what the old entry, if any, counted by what `x` counts.
pub proof fn lemma_holdings_insert(
    m: Map<(AssetId, AccountId), Balance>,
    k: (AssetId, AccountId),
    x: Balance,
    id: AssetId,
)
    requires
        m.dom().finite(),
    ensures
        asset_holdings(m.insert(k, x), id) == asset_holdings(m, id) - (if m.dom().contains(k) {
            holding_in(k, m[k], id)
        } else {
            0
        }) + holding_in(k, x, id),
{
    lemma_holdings_remove(m.insert(k, x), k, id);
    assert(m.insert(k, x).remove(k) =~= m.remove(k));
    if m.dom().contains(k) {
        lemma_holdings_remove(m, k, id);
    } else {
        assert(m.remove(k) =~= m);
    }
}

} // verus!
