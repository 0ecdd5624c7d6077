//! Properties of the ledger that span its operations.
use vstd::prelude::*;

use crate::dispatch::AccountId;
use crate::multidao::{
    accepted_total, saturated_asset_id, GenesisConfig,
    packet_amount, AssetId, Balance, DaoView, MultiDao, PacketView, GENESIS_GRANT, RELAYED_ASSET, RELAY_PLUGIN,
};
use crate::template::TemplateView;
use crate::holdings::{asset_holdings, lemma_holdings_insert};
use crate::dispatch::BlockNumber;

verus! {

/// A transfer that goes through keeps what sender and receiver hold together,
/// changes no other holding and no supply, and issues no asset; a refused one
/// changes nothing.
pub proof fn transfer_conserves_holdings(
    v: DaoView,
    from: AccountId,
    id: AssetId,
    to: AccountId,
    amount: Balance,
)
    requires
        v.transfer_in_range(from, id, to, amount),
    ensures
        ({
            let w = v.transferred(from, id, to, amount);
            &&& w.balance_of(id, from) + w.balance_of(id, to) == v.balance_of(id, from) + v.balance_of(id, to)
                || from == to
            &&& from == to ==> w.balance_of(id, from) == v.balance_of(id, from)
            &&& v.transfer_result(from, id, amount) is Ok && from != to ==> w.balance_of(id, from)
                == v.balance_of(id, from) - amount && w.balance_of(id, to) == v.balance_of(id, to) + amount
            &&& forall|a: AssetId, who: AccountId|
                (a, who) != (id, from) && (a, who) != (id, to) ==> #[trigger] w.balance_of(a, who)
                    == v.balance_of(a, who)
            &&& w.total_supply == v.total_supply
            &&& w.next_asset_id == v.next_asset_id
            &&& v.transfer_result(from, id, amount) is Err ==> w == v
            &&& v.transfer_result(from, id, amount) is Ok ==> w.events == v.events.push(
                crate::multidao::Event::Transferred(id, from, to, amount),
            )
            &&& v.transfer_result(from, id, amount) is Ok <==> amount != 0 && v.balance_of(id, from) >= amount
        }),
{
}

/// Two issues in a row hand out two different assets, each held in full by
/// its issuer, with the issued total as its supply.
pub proof fn issues_are_distinct(v: DaoView, first: AccountId, a: Balance, second: AccountId, b: Balance)
    requires
        v.next_asset_id + 1 < u32::MAX,
    ensures
        ({
            let w = v.issued(first, a);
            let x = w.issued(second, b);
            &&& v.next_asset_id != w.next_asset_id
            &&& x.balance_of(v.next_asset_id, first) == a
            &&& x.supply_of(v.next_asset_id) == a
            &&& x.balance_of(w.next_asset_id, second) == b
            &&& x.supply_of(w.next_asset_id) == b
            &&& x.next_asset_id == v.next_asset_id + 2
            &&& x.events == v.events.push(crate::multidao::Event::Issued(v.next_asset_id, first, a)).push(
                crate::multidao::Event::Issued(w.next_asset_id, second, b),
            )
        }),
{
}

/// Destroying all of an asset right after issuing it leaves neither holding nor supply.
pub proof fn issue_then_destroy_leaves_nothing(v: DaoView, who: AccountId, total: Balance)
    requires
        v.next_asset_id < u32::MAX,
        total != 0,
    ensures
        ({
            let id = v.next_asset_id;
            let w = v.issued(who, total);
            let x = w.destroyed(who, id);
            &&& w.destroy_in_range(who, id)
            &&& w.destroy_result(who, id) is Ok
            &&& x.balance_of(id, who) == 0
            &&& x.supply_of(id) == 0
        }),
{
}

/// A position locks the amount out of the holding, adds it to the collateral,
/// and credits exactly the cdai computed from price and rate.
pub proof fn cdp_locks_collateral(v: DaoView, account: AccountId, asset: AssetId, amount: Balance)
    requires
        v.cdp_in_range(account, asset, amount),
        v.inherent_asset != asset,
    ensures
        ({
            let w = v.cdp_made(account, asset, amount);
            let cdai = (amount * v.price_of(asset)) / (v.collateral_rate * 100);
            &&& w.balance_of(asset, account) == v.balance_of(asset, account) - amount
            &&& w.cdp_of(account, asset).0 == v.cdp_of(account, asset).0 + amount
            &&& w.cdp_of(account, asset).1 == v.cdp_of(account, asset).1 + cdai
            &&& w.balance_of(v.inherent_asset, account) == v.balance_of(v.inherent_asset, account) + cdai
            &&& w.total_supply == v.total_supply
        }),
{
}

/// Once added, an account is an authority; adding it again changes nothing.
pub proof fn add_authority_is_idempotent(v: DaoView, who: AccountId)
    ensures
        ({
            let w = DaoView {
                authorities: if v.is_authority(who) {
                    v.authorities
                } else {
                    v.authorities.push(who)
                },
                ..v
            };
            let x = DaoView {
                authorities: if w.is_authority(who) {
                    w.authorities
                } else {
                    w.authorities.push(who)
                },
                ..w
            };
            &&& w.is_authority(who)
            &&& x == w
        }),
{
    assert(v.authorities.push(who)[v.authorities.len() as int] == who);
}

/// No authority is ever listed twice.
pub proof fn authorities_are_distinct(d: &MultiDao)
    requires
        d.wf(),
    ensures
        d@.authorities.no_duplicates(),
{
    d.lemma_wf_authorities();
}

/// A packet received for a height with nothing queued, then accepted by the
/// plugin when the header of that height arrives, mints the amount it carries
/// for the first owner; the queue at that height is then empty and the header stored.
pub proof fn received_packet_is_minted(
    v: DaoView,
    height: BlockNumber,
    p: PacketView,
    header: Vec<u8>,
)
    requires
        !v.packet_queue.contains_key(height),
        !v.is_issued(RELAYED_ASSET),
        v.plugins.contains_key(RELAY_PLUGIN),
        p.packet.len() >= 16,
        v.balance_of(RELAYED_ASSET, v.owner_a) + packet_amount(p) <= u128::MAX,
        v.supply_of(RELAYED_ASSET) + packet_amount(p) <= u128::MAX,
    ensures
        ({
            let w = v.packet_queued(height, p);
            let x = w.client_updated(height, header, seq![true]);
            &&& w.client_update_in_range(height, seq![true])
            &&& x.balance_of(RELAYED_ASSET, v.owner_a) == v.balance_of(RELAYED_ASSET, v.owner_a) + packet_amount(p)
            &&& x.supply_of(RELAYED_ASSET) == v.supply_of(RELAYED_ASSET) + packet_amount(p)
            &&& !x.packet_queue.contains_key(height)
            &&& x.heads[height] == header
        }),
{
    let w = v.packet_queued(height, p);
    assert(w.packet_queue[height] =~= seq![p]);
    reveal_with_fuel(crate::multidao::accepted_total, 2);
    reveal_with_fuel(DaoView::packets_minted, 2);
}

/// The amount that an escrow transfer of the DOT chain encodes, read back from
/// those bytes as a relayed packet, is that amount.
pub proof fn escrow_amount_roundtrip(amount: u128, proof: Seq<Seq<u8>>)
    ensures
        packet_amount(PacketView { packet: crate::scale::le_bytes(amount as nat, 16), proof }) == amount,
{
    crate::scale::lemma_u128_roundtrip(amount);
    assert(crate::scale::le_bytes(amount as nat, 16).take(16) =~= crate::scale::le_bytes(amount as nat, 16));
}

/// A second escrow transfer by the same account replaces what it had locked.
pub proof fn escrow_keeps_last_amount(v: TemplateView, who: AccountId, first: u128, second: u128)
    ensures
        v.escrow.insert(who, first).insert(who, second)[who] == second,
{
}

/// Minting into an asset that was not issued raises the first owner's holding
/// and the supply of the asset by the same amount and changes no other holding.
pub proof fn mint_raises_holding_and_supply_alike(v: DaoView, asset: AssetId, amount: Balance)
    requires
        !v.is_issued(asset),
        v.mint_in_range(asset, amount),
    ensures
        ({
            let w = v.mint_into(asset, amount);
            &&& w.balance_of(asset, v.owner_a) == v.balance_of(asset, v.owner_a) + amount
            &&& w.supply_of(asset) == v.supply_of(asset) + amount
            &&& forall|a: AssetId, who: AccountId|
                (a, who) != (asset, v.owner_a) ==> #[trigger] w.balance_of(a, who) == v.balance_of(a, who)
        }),
{
}

/// At genesis each initial holding becomes an asset whose supply is the
/// holding, split between its holder and the second and third owners without
/// anything created or lost.
pub proof fn genesis_asset_is_split_exactly(v: DaoView, account: AccountId, amount: Balance)
    requires
        v.next_asset_id < u32::MAX,
        forall|k: (AssetId, AccountId)| #[trigger] v.balances.contains_key(k) ==> k.0 < v.next_asset_id,
        account != v.owner_b,
        account != v.owner_c,
        v.owner_b != v.owner_c,
    ensures
        ({
            let id = v.next_asset_id;
            let w = v.genesis_asset(account, amount);
            &&& w.supply_of(id) == amount
            &&& w.balance_of(id, account) + w.balance_of(id, v.owner_b) + w.balance_of(id, v.owner_c) == amount
            &&& amount >= 2 * GENESIS_GRANT ==> w.balance_of(id, v.owner_b) == GENESIS_GRANT && w.balance_of(id, v.owner_c)
                == GENESIS_GRANT
        }),
{
    let id = v.next_asset_id;
    assert(!v.balances.contains_key((id, v.owner_b)));
    assert(!v.balances.contains_key((id, v.owner_c)));
}

/// A transfer keeps, for every asset, the sum over all accounts of what they
/// hold, and every recorded supply; so where an asset's supply was the sum of
/// its holdings, it still is.
pub proof fn transfer_keeps_asset_totals(
    v: DaoView,
    from: AccountId,
    id: AssetId,
    to: AccountId,
    amount: Balance,
)
    requires
        v.balances.dom().finite(),
        v.transfer_in_range(from, id, to, amount),
    ensures
        ({
            let w = v.transferred(from, id, to, amount);
            &&& forall|j: AssetId| #[trigger] asset_holdings(w.balances, j) == asset_holdings(v.balances, j)
            &&& w.total_supply == v.total_supply
            &&& forall|j: AssetId|
                #[trigger] asset_holdings(v.balances, j) == v.supply_of(j) ==> asset_holdings(w.balances, j)
                    == w.supply_of(j)
        }),
{
    let w = v.transferred(from, id, to, amount);
    if v.transfer_result(from, id, amount) is Ok {
        let v1 = v.with_event(crate::multidao::Event::Transferred(id, from, to, amount));
        let m1 = v1.balances.insert((id, from), (v.balance_of(id, from) - amount) as Balance);
        let v2 = v1.with_balance(id, from, (v.balance_of(id, from) - amount) as Balance);
        assert forall|j: AssetId| #[trigger] asset_holdings(w.balances, j) == asset_holdings(v.balances, j) by {
            lemma_holdings_insert(v.balances, (id, from), (v.balance_of(id, from) - amount) as Balance, j);
            lemma_holdings_insert(m1, (id, to), (v2.balance_of(id, to) + amount) as Balance, j);
        }
    }
}

/// Minting raises what all accounts hold of the asset and its supply by the
/// same amount (by nothing where the asset was issued) and leaves every other
/// asset alone; so where the supply was the sum of the holdings, it still is.
pub proof fn mint_keeps_supply_matching_holdings(v: DaoView, asset: AssetId, amount: Balance)
    requires
        v.balances.dom().finite(),
        !v.is_issued(asset) ==> v.mint_in_range(asset, amount),
    ensures
        ({
            let w = v.mint_into(asset, amount);
            let added = if v.is_issued(asset) {
                0
            } else {
                amount
            };
            &&& asset_holdings(w.balances, asset) == asset_holdings(v.balances, asset) + added
            &&& w.supply_of(asset) == v.supply_of(asset) + added
            &&& forall|j: AssetId|
                j != asset ==> #[trigger] asset_holdings(w.balances, j) == asset_holdings(v.balances, j)
                    && w.supply_of(j) == v.supply_of(j)
            &&& asset_holdings(v.balances, asset) == v.supply_of(asset) ==> asset_holdings(w.balances, asset)
                == w.supply_of(asset)
        }),
{
    if !v.is_issued(asset) {
        let x = (v.balance_of(asset, v.owner_a) + amount) as Balance;
        lemma_holdings_insert(v.balances, (asset, v.owner_a), x, asset);
        assert forall|j: AssetId| j != asset implies #[trigger] asset_holdings(
            v.minted(asset, amount).balances,
            j,
        ) == asset_holdings(v.balances, j) by {
            lemma_holdings_insert(v.balances, (asset, v.owner_a), x, j);
        }
    }
}

/// A client update changes no holding and no supply of any asset but the relayed one.
pub proof fn client_update_touches_only_relayed_asset(
    v: DaoView,
    number: BlockNumber,
    header: Vec<u8>,
    verdicts: Seq<bool>,
)
    requires
        v.client_update_in_range(number, verdicts),
    ensures
        ({
            let w = v.client_updated(number, header, verdicts);
            &&& forall|a: AssetId, who: AccountId|
                a != RELAYED_ASSET ==> #[trigger] w.balance_of(a, who) == v.balance_of(a, who)
            &&& forall|a: AssetId| a != RELAYED_ASSET ==> #[trigger] w.supply_of(a) == v.supply_of(a)
        }),
{
    let v1 = DaoView { heads: v.heads.insert(number, header), ..v };
    if v.packet_queue.contains_key(number) {
        let ups = v.packet_queue[number];
        let v2 = DaoView { packet_queue: v1.packet_queue.remove(number), ..v1 };
        lemma_minting_touches_only_relayed(v2, ups, verdicts, ups.len());
    }
}

proof fn lemma_minting_touches_only_relayed(v: DaoView, ups: Seq<PacketView>, verdicts: Seq<bool>, n: nat)
    ensures
        forall|a: AssetId, who: AccountId|
            a != RELAYED_ASSET ==> #[trigger] v.packets_minted(ups, verdicts, n).balance_of(a, who)
                == v.balance_of(a, who),
        forall|a: AssetId|
            a != RELAYED_ASSET ==> #[trigger] v.packets_minted(ups, verdicts, n).supply_of(a) == v.supply_of(a),
        v.packets_minted(ups, verdicts, n).owner_a == v.owner_a,
    decreases n,
{
    if n > 0 {
        lemma_minting_touches_only_relayed(v, ups, verdicts, (n - 1) as nat);
        let before = v.packets_minted(ups, verdicts, (n - 1) as nat);
        let after = v.packets_minted(ups, verdicts, n);
        assert forall|a: AssetId, who: AccountId| a != RELAYED_ASSET implies #[trigger] after.balance_of(a, who)
            == v.balance_of(a, who) by {
            assert(after.balance_of(a, who) == before.balance_of(a, who));
        }
        assert forall|a: AssetId| a != RELAYED_ASSET implies #[trigger] after.supply_of(a) == v.supply_of(a) by {
            assert(after.supply_of(a) == before.supply_of(a));
        }
    }
}

/// An asset handed out by `issue` keeps its issued total: minting into it
/// changes nothing, and a client update changes neither its supply nor any
/// holding of it, whatever packets it accepts.
pub proof fn issued_supply_is_fixed(
    v: DaoView,
    account: AccountId,
    total: Balance,
    amount: Balance,
    number: BlockNumber,
    header: Vec<u8>,
    verdicts: Seq<bool>,
)
    requires
        v.next_asset_id < u32::MAX,
    ensures
        ({
            let id = v.next_asset_id;
            let w = v.issued(account, total);
            &&& w.is_issued(id)
            &&& w.supply_of(id) == total
            &&& w.mint_result(id) == Err::<(), crate::dispatch::DispatchError>(
                crate::dispatch::DispatchError::SupplyFixed,
            )
            &&& w.mint_into(id, amount) == w
            &&& w.client_update_in_range(number, verdicts) ==> {
                let x = w.client_updated(number, header, verdicts);
                &&& x.supply_of(id) == total
                &&& forall|who: AccountId| #[trigger] x.balance_of(id, who) == w.balance_of(id, who)
            }
        }),
{
    let id = v.next_asset_id;
    let w = v.issued(account, total);
    if w.client_update_in_range(number, verdicts) {
        if id != RELAYED_ASSET {
            client_update_touches_only_relayed_asset(w, number, header, verdicts);
        } else {
            let v1 = DaoView { heads: w.heads.insert(number, header), ..w };
            if w.packet_queue.contains_key(number) {
                let ups = w.packet_queue[number];
                let v2 = DaoView { packet_queue: v1.packet_queue.remove(number), ..v1 };
                crate::multidao::lemma_packets_minted_keeps(v2, ups, verdicts, ups.len());
            }
        }
    }
}

/// Transferring an amount back undoes the transfer: the way back goes
/// through, and every holding is again what it was.
pub proof fn transfer_back_undoes(v: DaoView, from: AccountId, id: AssetId, to: AccountId, amount: Balance)
    requires
        from != to,
        v.transfer_in_range(from, id, to, amount),
        v.transfer_result(from, id, amount) is Ok,
    ensures
        ({
            let w = v.transferred(from, id, to, amount);
            &&& w.transfer_in_range(to, id, from, amount)
            &&& w.transfer_result(to, id, amount) is Ok
            &&& forall|a: AssetId, who: AccountId| #[trigger] w.transferred(to, id, from, amount).balance_of(a, who)
                == v.balance_of(a, who)
        }),
{
}

/// A client update at block `number` stores the header under `number`, takes
/// off the queue the packets waiting at `number` and no others, and mints for
/// the first owner exactly the sum of the amounts of the accepted packets
/// (nothing where the relayed asset was issued or nothing was waiting); it
/// changes no other storage.
pub proof fn client_update_consumes_only_its_block(
    v: DaoView,
    number: BlockNumber,
    header: Vec<u8>,
    verdicts: Seq<bool>,
)
    requires
        v.client_update_in_range(number, verdicts),
    ensures
        ({
            let w = v.client_updated(number, header, verdicts);
            &&& w.packet_queue == v.packet_queue.remove(number)
            &&& w.heads == v.heads.insert(number, header)
            &&& w == (DaoView {
                balances: w.balances,
                total_supply: w.total_supply,
                packet_queue: w.packet_queue,
                heads: w.heads,
                ..v
            })
            &&& v.packet_queue.contains_key(number) && !v.is_issued(RELAYED_ASSET) ==> {
                let ups = v.packet_queue[number];
                &&& w.balance_of(RELAYED_ASSET, v.owner_a) == v.balance_of(RELAYED_ASSET, v.owner_a)
                    + accepted_total(ups, verdicts, ups.len())
                &&& w.supply_of(RELAYED_ASSET) == v.supply_of(RELAYED_ASSET) + accepted_total(
                    ups,
                    verdicts,
                    ups.len(),
                )
            }
            &&& !v.packet_queue.contains_key(number) || v.is_issued(RELAYED_ASSET) ==> w.balances
                == v.balances && w.total_supply == v.total_supply
        }),
{
    let v1 = DaoView { heads: v.heads.insert(number, header), ..v };
    if v.packet_queue.contains_key(number) {
        let ups = v.packet_queue[number];
        let v2 = DaoView { packet_queue: v1.packet_queue.remove(number), ..v1 };
        crate::multidao::lemma_packets_minted_keeps(v2, ups, verdicts, ups.len());
        if !v.is_issued(RELAYED_ASSET) {
            crate::multidao::lemma_packets_minted(v2, ups, verdicts, ups.len());
        }
    } else {
        assert(v.packet_queue.remove(number) =~= v.packet_queue);
    }
}

/// A received packet is always queued: the queue at its height becomes the
/// old queue (empty if none) with the packet added last, one longer; the
/// queues at other heights and the rest of the storage stay as they were.
pub proof fn recv_packet_appends(v: DaoView, height: BlockNumber, p: PacketView)
    ensures
        ({
            let w = v.packet_queued(height, p);
            let before = if v.packet_queue.contains_key(height) {
                v.packet_queue[height]
            } else {
                Seq::<PacketView>::empty()
            };
            &&& w.packet_queue.contains_key(height)
            &&& w.packet_queue[height].len() == before.len() + 1
            &&& w.packet_queue[height].last() == p
            &&& w.packet_queue[height].drop_last() == before
            &&& w.packet_queue.remove(height) == v.packet_queue.remove(height)
            &&& w == (DaoView { packet_queue: w.packet_queue, ..v })
        }),
{
    let w = v.packet_queued(height, p);
    let before = if v.packet_queue.contains_key(height) {
        v.packet_queue[height]
    } else {
        Seq::<PacketView>::empty()
    };
    assert(w.packet_queue[height].drop_last() =~= before);
    assert(w.packet_queue.remove(height) =~= v.packet_queue.remove(height));
}

proof fn lemma_genesis_prices(v: DaoView, prices: Seq<u64>, n: nat)
    requires
        n <= prices.len(),
    ensures
        forall|i: int| 0 <= i < n && i < u32::MAX ==> #[trigger] v.genesis_prices(prices, n).price_of(i as u32)
            == prices[i],
        forall|i: int|
            n <= i < u32::MAX ==> (#[trigger] v.genesis_prices(prices, n).prices.contains_key(i as u32))
                == v.prices.contains_key(i as u32) && v.genesis_prices(prices, n).price_of(i as u32) == v.price_of(
                i as u32,
            ),
        v.genesis_prices(prices, n) == (DaoView { prices: v.genesis_prices(prices, n).prices, ..v }),
    decreases n,
{
    if n > 0 {
        lemma_genesis_prices(v, prices, (n - 1) as nat);
        let before = v.genesis_prices(prices, (n - 1) as nat);
        let after = v.genesis_prices(prices, n);
        assert forall|i: int| 0 <= i < n && i < u32::MAX implies #[trigger] after.price_of(i as u32) == prices[i] by {
            if i < n - 1 {
                assert(saturated_asset_id(n - 1) != i as u32);
                assert(before.price_of(i as u32) == prices[i]);
            }
        }
        assert forall|i: int| n <= i < u32::MAX implies (#[trigger] after.prices.contains_key(i as u32))
            == v.prices.contains_key(i as u32) && after.price_of(i as u32) == v.price_of(i as u32) by {
            assert(saturated_asset_id(n - 1) != i as u32);
        }
    }
}

proof fn lemma_genesis_assets(v: DaoView, assets: Seq<(AccountId, Balance)>, n: nat)
    requires
        n <= assets.len(),
        v.next_asset_id + n <= u32::MAX,
    ensures
        v.genesis_assets(assets, n).next_asset_id == v.next_asset_id + n,
        v.genesis_assets(assets, n).prices == v.prices,
        v.genesis_assets(assets, n).owner_b == v.owner_b,
        v.genesis_assets(assets, n).owner_c == v.owner_c,
        forall|i: int| 0 <= i < n ==> #[trigger] v.genesis_assets(assets, n).supply_of((v.next_asset_id + i) as u32)
            == assets[i].1,
        forall|a: AssetId| a < v.next_asset_id ==> #[trigger] v.genesis_assets(assets, n).supply_of(a) == v.supply_of(a),
    decreases n,
{
    if n > 0 {
        lemma_genesis_assets(v, assets, (n - 1) as nat);
        let before = v.genesis_assets(assets, (n - 1) as nat);
        let after = v.genesis_assets(assets, n);
        let id = before.next_asset_id;
        assert(after.total_supply == before.issued(assets[n - 1].0, assets[n - 1].1).total_supply);
        assert forall|i: int| 0 <= i < n implies #[trigger] after.supply_of((v.next_asset_id + i) as u32)
            == assets[i].1 by {
            if i < n - 1 {
                assert(before.supply_of((v.next_asset_id + i) as u32) == assets[i].1);
            }
        }
        assert forall|a: AssetId| a < v.next_asset_id implies #[trigger] after.supply_of(a) == v.supply_of(a) by {
            assert(before.supply_of(a) == v.supply_of(a));
        }
    }
}

/// At genesis the `i`-th initial price is the price of asset `i`, for every
/// configured price, however many initial holdings there are; assets with no
/// configured price have none. Each initial holding becomes asset `i`, in
/// order, with its amount as supply.
pub proof fn genesis_sets_prices_and_supplies(config: GenesisConfig)
    requires
        config.assets@.len() <= u32::MAX,
    ensures
        ({
            let g = crate::multidao::genesis_view(config);
            &&& forall|i: int|
                0 <= i < config.prices@.len() && i < u32::MAX ==> #[trigger] g.price_of(i as u32)
                    == config.prices@[i]
            &&& forall|i: int|
                config.prices@.len() <= i < u32::MAX ==> !(#[trigger] g.prices.contains_key(i as u32))
            &&& g.next_asset_id == config.assets@.len()
            &&& forall|i: int| 0 <= i < config.assets@.len() ==> #[trigger] g.supply_of(i as u32) == config.assets@[i].1
        }),
{
    let start = DaoView::initial(config.collateral_rate, config.owner_a, config.owner_b, config.owner_c);
    lemma_genesis_assets(start, config.assets@, config.assets@.len());
    let with_assets = start.genesis_assets(config.assets@, config.assets@.len());
    lemma_genesis_prices(with_assets, config.prices@, config.prices@.len());
    let g = crate::multidao::genesis_view(config);
    assert forall|i: int| 0 <= i < config.assets@.len() implies #[trigger] g.supply_of(i as u32)
        == config.assets@[i].1 by {
        assert(with_assets.supply_of((start.next_asset_id + i) as u32) == config.assets@[i].1);
    }
}

/// Destroying takes the whole holding of the signer off storage and, where
/// there was one, exactly that much off the supply; nothing else changes.
pub proof fn destroy_takes_whole_holding(v: DaoView, who: AccountId, id: AssetId)
    requires
        v.destroy_in_range(who, id),
    ensures
        ({
            let w = v.destroyed(who, id);
            &&& w.balance_of(id, who) == 0
            &&& forall|a: AssetId, x: AccountId|
                (a, x) != (id, who) ==> #[trigger] w.balance_of(a, x) == v.balance_of(a, x)
            &&& v.balance_of(id, who) == 0 ==> v.destroy_result(who, id) is Err && w.total_supply
                == v.total_supply
            &&& v.balance_of(id, who) != 0 ==> v.destroy_result(who, id) is Ok && w.supply_of(id)
                == v.supply_of(id) - v.balance_of(id, who)
            &&& forall|a: AssetId| a != id ==> #[trigger] w.supply_of(a) == v.supply_of(a)
        }),
{
}

/// The authority that the offchain worker signs with is one of the
/// authorities whose key the node holds, the first such in the list; there is
/// none only where the node holds the key of no authority.
pub proof fn authority_id_is_first_local_authority(authorities: Seq<AccountId>, local_keys: Seq<AccountId>)
    ensures
        match crate::multidao::first_local_authority(authorities, local_keys) {
            Some(a) => exists|i: int|
                0 <= i < authorities.len() && authorities[i] == a && local_keys.contains(a) && forall|j: int|
                    0 <= j < i ==> !local_keys.contains(#[trigger] authorities[j]),
            None => forall|i: int| 0 <= i < authorities.len() ==> !local_keys.contains(#[trigger] authorities[i]),
        },
    decreases authorities.len(),
{
    if authorities.len() > 0 {
        let rest = authorities.drop_first();
        authority_id_is_first_local_authority(rest, local_keys);
        if !local_keys.contains(authorities[0]) {
            match crate::multidao::first_local_authority(rest, local_keys) {
                Some(a) => {
                    let i = choose|i: int|
                        0 <= i < rest.len() && rest[i] == a && local_keys.contains(a) && forall|j: int|
                            0 <= j < i ==> !local_keys.contains(#[trigger] rest[j]);
                    assert(authorities[i + 1] == a);
                    assert forall|j: int| 0 <= j < i + 1 implies !local_keys.contains(#[trigger] authorities[j]) by {
                        if j > 0 {
                            assert(authorities[j] == rest[j - 1]);
                        }
                    }
                },
                None => {
                    assert forall|i: int| 0 <= i < authorities.len() implies !local_keys.contains(
                        #[trigger] authorities[i],
                    ) by {
                        if i > 0 {
                            assert(authorities[i] == rest[i - 1]);
                        }
                    }
                },
            }
        } else {
            assert(authorities[0] == authorities[0]);
        }
    }
}

/// What a client update mints is additive over the queued packets: the total
/// for two runs of packets one after the other is the sum of their totals; a
/// single packet counts its amount when accepted and nothing when rejected.
pub proof fn accepted_total_is_additive(
    ups1: Seq<PacketView>,
    vs1: Seq<bool>,
    ups2: Seq<PacketView>,
    vs2: Seq<bool>,
)
    requires
        ups1.len() == vs1.len(),
        ups2.len() == vs2.len(),
    ensures
        accepted_total(ups1 + ups2, vs1 + vs2, ups1.len() + ups2.len()) == accepted_total(ups1, vs1, ups1.len())
            + accepted_total(ups2, vs2, ups2.len()),
        forall|p: PacketView| #[trigger] accepted_total(seq![p], seq![true], 1) == packet_amount(p),
        forall|p: PacketView| #[trigger] accepted_total(seq![p], seq![false], 1) == 0,
    decreases ups2.len(),
{
    reveal_with_fuel(accepted_total, 2);
    if ups2.len() > 0 {
        let u2 = ups2.drop_last();
        let w2 = vs2.drop_last();
        accepted_total_is_additive(ups1, vs1, u2, w2);
        lemma_accepted_total_prefix(ups1 + u2, vs1 + w2, ups1 + ups2, vs1 + vs2, ups1.len() + u2.len());
        lemma_accepted_total_prefix(u2, w2, ups2, vs2, u2.len());
        assert((ups1 + ups2)[(ups1.len() + u2.len()) as int] == ups2[u2.len() as int]);
        assert((vs1 + vs2)[(ups1.len() + u2.len()) as int] == vs2[u2.len() as int]);
    } else {
        assert(ups1 + ups2 =~= ups1);
        assert(vs1 + vs2 =~= vs1);
    }
}

proof fn lemma_accepted_total_prefix(a: Seq<PacketView>, av: Seq<bool>, b: Seq<PacketView>, bv: Seq<bool>, n: nat)
    requires
        n <= a.len(),
        n <= av.len(),
        n <= b.len(),
        n <= bv.len(),
        forall|i: int| 0 <= i < n ==> a[i] == b[i] && av[i] == bv[i],
    ensures
        accepted_total(a, av, n) == accepted_total(b, bv, n),
    decreases n,
{
    if n > 0 {
        lemma_accepted_total_prefix(a, av, b, bv, (n - 1) as nat);
    }
}

} // verus!
