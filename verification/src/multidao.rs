//! The MultiDAO runtime module: a multi-asset ledger with collateralised debt
//! positions and a queue of cross-chain packets waiting for their headers.
use vstd::prelude::*;

use crate::dispatch::{
    ensure_root, ensure_signed, signer_of, AccountId, BlockNumber, DispatchError, Origin,
};
use crate::scale::{decode_header_number, decode_u128, header_encodes_number, header_number_of, le_value};
use crate::storage::StorageMap;

verus! {

/// The identifier of an asset.
pub type AssetId = u32;

/// An amount of an asset.
pub type Balance = u128;

/// The identifier of another chain.
pub type Identifier = u32;

/// The asset in which amounts relayed from the other chain are minted.
pub const RELAYED_ASSET: AssetId = 2;

/// The plugin that checks packets relayed from the other chain.
pub const RELAY_PLUGIN: Identifier = 0;

/// What genesis moves from each initial holder to the second and to the third owner.
pub const GENESIS_GRANT: Balance = 50000;

/// A cross-chain message with its proof, not checked yet.
pub struct UncheckedPacket {
    pub packet: Vec<u8>,
    pub proof: Vec<Vec<u8>>,
}

/// The contents of an [`UncheckedPacket`].
pub struct PacketView {
    pub packet: Seq<u8>,
    pub proof: Seq<Seq<u8>>,
}

impl View for UncheckedPacket {
    type V = PacketView;

    open spec fn view(&self) -> PacketView {
        PacketView { packet: self.packet@, proof: self.proof.deep_view() }
    }
}

/// A request handed to the offchain worker.
#[derive(Clone, Copy, Debug, PartialEq, Eq, Structural)]
pub enum OffchainRequest {
    /// An authorised offchain worker answers a ping with a pong of the same nonce.
    Ping(u64, AccountId),
}

/// What the module reports.
#[derive(Clone, Debug, PartialEq, Eq)]
pub enum Event {
    /// Some assets were issued.
    Issued(AssetId, AccountId, Balance),
    /// Some assets were transferred.
    Transferred(AssetId, AccountId, AccountId, Balance),
    /// Some assets were destroyed.
    Destroyed(AssetId, AccountId, Balance),
    /// A collateralised debt position grew: account, asset, amount, minted cdai.
    MadeCDP(AccountId, AssetId, Balance, Balance),
    /// A packet arrived and was queued.
    PacketReceived(Vec<u8>),
    /// A pong from an authority was acknowledged.
    Ack(u64, AccountId),
}

/// The nonce of an offchain request.
pub open spec fn request_nonce(r: OffchainRequest) -> u64 {
    match r {
        OffchainRequest::Ping(nonce, _) => nonce,
    }
}

/// The amount that a relayed packet carries: its leading sixteen bytes, little-endian.
pub open spec fn packet_amount(p: PacketView) -> nat {
    le_value(p.packet.take(16))
}

/// The cdai minted against `amount` of an asset priced `price` at collateral rate `rate`.
pub open spec fn cdai_for(amount: u128, price: u64, rate: u64) -> int {
    (amount * price) / (rate * 100)
}

/// `i` as an asset identifier, saturating at the largest one.
pub open spec fn saturated_asset_id(i: int) -> AssetId {
    if i > u32::MAX {
        u32::MAX
    } else {
        i as u32
    }
}

/// The sum of the amounts of the first `n` packets that the plugin accepted.
pub open spec fn accepted_total(ups: Seq<PacketView>, verdicts: Seq<bool>, n: nat) -> nat
    decreases n,
{
    if n == 0 {
        0
    } else {
        accepted_total(ups, verdicts, (n - 1) as nat) + if verdicts[n - 1] {
            packet_amount(ups[n - 1])
        } else {
            0
        }
    }
}

/// The state of the module.
#[verifier::ext_equal]
pub struct DaoView {
    pub next_asset_id: AssetId,
    pub total_supply: Map<AssetId, Balance>,
    pub balances: Map<(AssetId, AccountId), Balance>,
    pub inherent_asset: AssetId,
    pub collateral_rate: u64,
    pub prices: Map<AssetId, u64>,
    pub cdp: Map<(AccountId, AssetId), (Balance, Balance)>,
    pub owner_a: AccountId,
    pub owner_b: AccountId,
    pub owner_c: AccountId,
    pub plugins: Map<Identifier, Vec<u8>>,
    pub heads: Map<BlockNumber, Vec<u8>>,
    pub packet_queue: Map<BlockNumber, Seq<PacketView>>,
    pub oc_requests: Seq<OffchainRequest>,
    pub authorities: Seq<AccountId>,
    pub events: Seq<Event>,
}

impl DaoView {
    /// A fresh module: empty storage but for the configured values.
    pub open spec fn initial(
        collateral_rate: u64,
        owner_a: AccountId,
        owner_b: AccountId,
        owner_c: AccountId,
    ) -> DaoView {
        DaoView {
            next_asset_id: 0,
            total_supply: Map::empty(),
            balances: Map::empty(),
            inherent_asset: 0,
            collateral_rate,
            prices: Map::empty(),
            cdp: Map::empty(),
            owner_a,
            owner_b,
            owner_c,
            plugins: Map::empty(),
            heads: Map::empty(),
            packet_queue: Map::empty(),
            oc_requests: Seq::empty(),
            authorities: Seq::empty(),
            events: Seq::empty(),
        }
    }

    /// What `who` holds of `asset` (nothing where storage has no entry).
    pub open spec fn balance_of(self, asset: AssetId, who: AccountId) -> Balance {
        if self.balances.contains_key((asset, who)) {
            self.balances[(asset, who)]
        } else {
            0
        }
    }

    /// The recorded supply of `asset`.
    pub open spec fn supply_of(self, asset: AssetId) -> Balance {
        if self.total_supply.contains_key(asset) {
            self.total_supply[asset]
        } else {
            0
        }
    }

    /// The price of `asset`.
    pub open spec fn price_of(self, asset: AssetId) -> u64 {
        if self.prices.contains_key(asset) {
            self.prices[asset]
        } else {
            0
        }
    }

    /// The collateral of `who` in `asset` and the cdai drawn against it.
    pub open spec fn cdp_of(self, who: AccountId, asset: AssetId) -> (Balance, Balance) {
        if self.cdp.contains_key((who, asset)) {
            self.cdp[(who, asset)]
        } else {
            (0, 0)
        }
    }

    pub open spec fn is_authority(self, who: AccountId) -> bool {
        self.authorities.contains(who)
    }

    pub open spec fn with_balance(self, asset: AssetId, who: AccountId, amount: Balance) -> DaoView {
        DaoView { balances: self.balances.insert((asset, who), amount), ..self }
    }

    pub open spec fn with_event(self, e: Event) -> DaoView {
        DaoView { events: self.events.push(e), ..self }
    }

    /// A new asset numbered `next_asset_id`, all `total` of it held by `account`.
    pub open spec fn issued(self, account: AccountId, total: Balance) -> DaoView {
        let id = self.next_asset_id;
        DaoView {
            next_asset_id: (id + 1) as AssetId,
            balances: self.balances.insert((id, account), total),
            total_supply: self.total_supply.insert(id, total),
            events: self.events.push(Event::Issued(id, account, total)),
            ..self
        }
    }

    /// Whether a transfer goes through, and why not.
    pub open spec fn transfer_result(self, from: AccountId, id: AssetId, amount: Balance) -> Result<
        (),
        DispatchError,
    > {
        if amount == 0 {
            Err(DispatchError::ZeroAmount)
        } else if self.balance_of(id, from) < amount {
            Err(DispatchError::InsufficientBalance)
        } else {
            Ok(())
        }
    }

    /// A transfer does not overflow the receiver's balance.
    pub open spec fn transfer_in_range(
        self,
        from: AccountId,
        id: AssetId,
        to: AccountId,
        amount: Balance,
    ) -> bool {
        self.transfer_result(from, id, amount) is Ok && from != to ==> self.balance_of(id, to)
            + amount <= u128::MAX
    }

    /// `amount` of `id` moved from `from` to `to`, or nothing where the transfer is refused.
    pub open spec fn transferred(self, from: AccountId, id: AssetId, to: AccountId, amount: Balance) -> DaoView {
        if self.transfer_result(from, id, amount) is Ok {
            let v1 = self.with_event(Event::Transferred(id, from, to, amount));
            let v2 = v1.with_balance(id, from, (self.balance_of(id, from) - amount) as Balance);
            v2.with_balance(id, to, (v2.balance_of(id, to) + amount) as Balance)
        } else {
            self
        }
    }

    /// Whether destroying the holding of `who` in `id` goes through.
    pub open spec fn destroy_result(self, who: AccountId, id: AssetId) -> Result<(), DispatchError> {
        if self.balance_of(id, who) == 0 {
            Err(DispatchError::ZeroBalance)
        } else {
            Ok(())
        }
    }

    /// Destroying takes no more than the recorded supply.
    pub open spec fn destroy_in_range(self, who: AccountId, id: AssetId) -> bool {
        self.balance_of(id, who) != 0 ==> self.supply_of(id) >= self.balance_of(id, who)
    }

    /// The holding of `who` in `id` taken out of storage and, where there was one,
    /// taken off the supply.
    pub open spec fn destroyed(self, who: AccountId, id: AssetId) -> DaoView {
        let balance = self.balance_of(id, who);
        let taken = DaoView { balances: self.balances.remove((id, who)), ..self };
        if balance == 0 {
            taken
        } else {
            DaoView {
                total_supply: self.total_supply.insert(id, (self.supply_of(id) - balance) as Balance),
                events: self.events.push(Event::Destroyed(id, who, balance)),
                ..taken
            }
        }
    }

    /// Whether `asset` was handed out by `issue`: issued assets take their
    /// identifiers in order, from zero up to the next one to hand out.
    pub open spec fn is_issued(self, asset: AssetId) -> bool {
        asset < self.next_asset_id
    }

    /// Whether minting into `asset` goes through: never into an issued asset,
    /// whose supply is fixed at its issued total.
    pub open spec fn mint_result(self, asset: AssetId) -> Result<(), DispatchError> {
        if self.is_issued(asset) {
            Err(DispatchError::SupplyFixed)
        } else {
            Ok(())
        }
    }

    /// `amount` of `asset` minted for the first owner where minting goes
    /// through; nothing changed where `asset` was issued.
    pub open spec fn mint_into(self, asset: AssetId, amount: Balance) -> DaoView {
        if self.is_issued(asset) {
            self
        } else {
            self.minted(asset, amount)
        }
    }

    /// Minting does not overflow.
    pub open spec fn mint_in_range(self, asset: AssetId, amount: Balance) -> bool {
        &&& self.balance_of(asset, self.owner_a) + amount <= u128::MAX
        &&& self.supply_of(asset) + amount <= u128::MAX
    }

    /// `amount` of `asset` minted for the first owner.
    pub open spec fn minted(self, asset: AssetId, amount: Balance) -> DaoView {
        DaoView {
            balances: self.balances.insert(
                (asset, self.owner_a),
                (self.balance_of(asset, self.owner_a) + amount) as Balance,
            ),
            total_supply: self.total_supply.insert(asset, (self.supply_of(asset) + amount) as Balance),
            ..self
        }
    }

    /// A collateralised debt position of `amount` of `asset` by `account` neither
    /// divides by zero, overflows nor takes more than the account holds.
    pub open spec fn cdp_in_range(self, account: AccountId, asset: AssetId, amount: Balance) -> bool {
        let rate = self.collateral_rate;
        let price = self.price_of(asset);
        let (old_asset, old_cdai) = self.cdp_of(account, asset);
        let inherent = self.inherent_asset;
        &&& rate != 0
        &&& amount * price <= u128::MAX
        &&& old_asset + amount <= u128::MAX
        &&& old_cdai + cdai_for(amount, price, rate) <= u128::MAX
        &&& self.balance_of(asset, account) >= amount
        &&& self.with_balance(asset, account, (self.balance_of(asset, account) - amount) as Balance).balance_of(
            inherent,
            account,
        ) + cdai_for(amount, price, rate) <= u128::MAX
    }

    /// `amount` of `asset` moved from the account into its position, and the
    /// cdai drawn against it credited in the inherent asset.
    pub open spec fn cdp_made(self, account: AccountId, asset: AssetId, amount: Balance) -> DaoView {
        let cdai = cdai_for(amount, self.price_of(asset), self.collateral_rate) as Balance;
        let (old_asset, old_cdai) = self.cdp_of(account, asset);
        let v1 = DaoView {
            cdp: self.cdp.insert((account, asset), ((old_asset + amount) as Balance, (old_cdai + cdai) as Balance)),
            ..self
        };
        let v2 = v1.with_balance(asset, account, (self.balance_of(asset, account) - amount) as Balance);
        let v3 = v2.with_balance(
            self.inherent_asset,
            account,
            (v2.balance_of(self.inherent_asset, account) + cdai) as Balance,
        );
        v3.with_event(Event::MadeCDP(account, asset, amount, cdai))
    }

    /// The packets queued at `height` with `p` added last.
    pub open spec fn packet_queued(self, height: BlockNumber, p: PacketView) -> DaoView {
        let queue = if self.packet_queue.contains_key(height) {
            self.packet_queue[height]
        } else {
            Seq::empty()
        };
        DaoView { packet_queue: self.packet_queue.insert(height, queue.push(p)), ..self }
    }

    /// The first `n` packets that the plugin accepted minted in the relayed
    /// asset, where it was not issued.
    pub open spec fn packets_minted(self, ups: Seq<PacketView>, verdicts: Seq<bool>, n: nat) -> DaoView
        decreases n,
    {
        if n == 0 {
            self
        } else {
            let before = self.packets_minted(ups, verdicts, (n - 1) as nat);
            if verdicts[n - 1] {
                before.mint_into(RELAYED_ASSET, packet_amount(ups[n - 1]) as Balance)
            } else {
                before
            }
        }
    }

    /// A client update at `number` neither finds the plugin missing, reads a
    /// packet too short for an amount, nor overflows where it mints; `verdicts`
    /// holds one result of the plugin for each packet queued at `number`.
    pub open spec fn client_update_in_range(self, number: BlockNumber, verdicts: Seq<bool>) -> bool {
        self.packet_queue.contains_key(number) ==> {
            let ups = self.packet_queue[number];
            &&& self.plugins.contains_key(RELAY_PLUGIN)
            &&& verdicts.len() == ups.len()
            &&& forall|i: int| 0 <= i < ups.len() && #[trigger] verdicts[i] ==> ups[i].packet.len() >= 16
            &&& !self.is_issued(RELAYED_ASSET) ==> self.balance_of(RELAYED_ASSET, self.owner_a)
                + accepted_total(ups, verdicts, ups.len()) <= u128::MAX
            &&& !self.is_issued(RELAYED_ASSET) ==> self.supply_of(RELAYED_ASSET) + accepted_total(
                ups,
                verdicts,
                ups.len(),
            ) <= u128::MAX
        }
    }

    /// The header stored at `number`; the packets queued there, if any, taken
    /// off the queue and those that the plugin accepted minted, unless the
    /// relayed asset was issued.
    pub open spec fn client_updated(self, number: BlockNumber, header: Vec<u8>, verdicts: Seq<bool>) -> DaoView {
        let v1 = DaoView { heads: self.heads.insert(number, header), ..self };
        if self.packet_queue.contains_key(number) {
            let ups = self.packet_queue[number];
            let v2 = DaoView { packet_queue: v1.packet_queue.remove(number), ..v1 };
            v2.packets_minted(ups, verdicts, ups.len())
        } else {
            v1
        }
    }

    /// One initial holding at genesis: a new asset issued to `account`, then
    /// the genesis grant moved from it to the second and the third owner.
    pub open spec fn genesis_asset(self, account: AccountId, amount: Balance) -> DaoView {
        let id = self.next_asset_id;
        let v1 = self.issued(account, amount);
        let v2 = v1.transferred(account, id, self.owner_b, GENESIS_GRANT);
        v2.transferred(account, id, self.owner_c, GENESIS_GRANT)
    }

    /// The first `n` initial holdings set up.
    pub open spec fn genesis_assets(self, assets: Seq<(AccountId, Balance)>, n: nat) -> DaoView
        decreases n,
    {
        if n == 0 {
            self
        } else {
            let before = self.genesis_assets(assets, (n - 1) as nat);
            before.genesis_asset(assets[n - 1].0, assets[n - 1].1)
        }
    }

    /// The first `n` initial prices set, the `i`-th one for asset `i`.
    pub open spec fn genesis_prices(self, prices: Seq<u64>, n: nat) -> DaoView
        decreases n,
    {
        if n == 0 {
            self
        } else {
            let before = self.genesis_prices(prices, (n - 1) as nat);
            DaoView {
                prices: before.prices.insert(saturated_asset_id(n - 1), prices[n - 1]),
                ..before
            }
        }
    }
}

/// The configuration of the module at genesis.
pub struct GenesisConfig {
    pub collateral_rate: u64,
    pub owner_a: AccountId,
    pub owner_b: AccountId,
    pub owner_c: AccountId,
    /// Initial holdings: one new asset for each, issued to the account.
    pub assets: Vec<(AccountId, Balance)>,
    /// Initial prices, the `i`-th one for asset `i`.
    pub prices: Vec<u64>,
}

/// The state of the module at genesis.
pub open spec fn genesis_view(config: GenesisConfig) -> DaoView {
    let start = DaoView::initial(config.collateral_rate, config.owner_a, config.owner_b, config.owner_c);
    let with_assets = start.genesis_assets(config.assets@, config.assets@.len());
    with_assets.genesis_prices(config.prices@, config.prices@.len())
}

/// The MultiDAO module: its storage and the events it has deposited.
pub struct MultiDao {
    next_asset_id: AssetId,
    total_supply: StorageMap<AssetId, Balance>,
    balances: StorageMap<(AssetId, AccountId), Balance>,
    inherent_asset: AssetId,
    collateral_rate: u64,
    prices: StorageMap<AssetId, u64>,
    cdp: StorageMap<(AccountId, AssetId), (Balance, Balance)>,
    owner_a: AccountId,
    owner_b: AccountId,
    owner_c: AccountId,
    plugins: StorageMap<Identifier, Vec<u8>>,
    heads: StorageMap<BlockNumber, Vec<u8>>,
    packet_queue: StorageMap<BlockNumber, Vec<UncheckedPacket>>,
    oc_requests: Vec<OffchainRequest>,
    authorities: Vec<AccountId>,
    events: Vec<Event>,
}

pub open spec fn queue_view(q: Vec<UncheckedPacket>) -> Seq<PacketView> {
    q@.map_values(|p: UncheckedPacket| p@)
}

impl View for MultiDao {
    type V = DaoView;

    closed spec fn view(&self) -> DaoView {
        DaoView {
            next_asset_id: self.next_asset_id,
            total_supply: self.total_supply.view(),
            balances: self.balances.view(),
            inherent_asset: self.inherent_asset,
            collateral_rate: self.collateral_rate,
            prices: self.prices.view(),
            cdp: self.cdp.view(),
            owner_a: self.owner_a,
            owner_b: self.owner_b,
            owner_c: self.owner_c,
            plugins: self.plugins.view(),
            heads: self.heads.view(),
            packet_queue: self.packet_queue.view().map_values(|q: Vec<UncheckedPacket>| queue_view(q)),
            oc_requests: self.oc_requests@,
            authorities: self.authorities@,
            events: self.events@,
        }
    }
}

impl MultiDao {
    /// Storage is consistent: no key stored twice, no authority listed twice.
    pub closed spec fn wf(&self) -> bool {
        &&& self.total_supply.wf()
        &&& self.balances.wf()
        &&& self.prices.wf()
        &&& self.cdp.wf()
        &&& self.plugins.wf()
        &&& self.heads.wf()
        &&& self.packet_queue.wf()
        &&& self.authorities@.no_duplicates()
    }

    fn initial(collateral_rate: u64, owner_a: AccountId, owner_b: AccountId, owner_c: AccountId) -> (d: Self)
        ensures
            d.wf(),
            d@ == DaoView::initial(collateral_rate, owner_a, owner_b, owner_c),
    {
        let d = MultiDao {
            next_asset_id: 0,
            total_supply: StorageMap::new(),
            balances: StorageMap::new(),
            inherent_asset: 0,
            collateral_rate,
            prices: StorageMap::new(),
            cdp: StorageMap::new(),
            owner_a,
            owner_b,
            owner_c,
            plugins: StorageMap::new(),
            heads: StorageMap::new(),
            packet_queue: StorageMap::new(),
            oc_requests: Vec::new(),
            authorities: Vec::new(),
            events: Vec::new(),
        };
        proof {
            assert(d@.packet_queue =~= Map::empty());
            assert(d@ =~= DaoView::initial(collateral_rate, owner_a, owner_b, owner_c));
        }
        d
    }

    /// The identifier that the next issued asset gets.
    pub fn next_asset_id(&self) -> (id: AssetId)
        ensures
            id == self@.next_asset_id,
    {
        self.next_asset_id
    }

    /// The recorded supply of an asset.
    pub fn get_asset_total_supply(&self, id: AssetId) -> (b: Balance)
        requires
            self.wf(),
        ensures
            b == self@.supply_of(id),
    {
        self.total_supply.get_or(&id, 0)
    }

    /// What an account holds of an asset; the key is `(asset, account)`.
    pub fn get_asset_balance(&self, key: (AssetId, AccountId)) -> (b: Balance)
        requires
            self.wf(),
        ensures
            b == self@.balance_of(key.0, key.1),
    {
        self.balances.get_or(&key, 0)
    }

    /// The default inherent asset, in which cdai is credited.
    pub fn inherent_asset_id(&self) -> (id: AssetId)
        ensures
            id == self@.inherent_asset,
    {
        self.inherent_asset
    }

    /// The global collateral rate.
    pub fn rate(&self) -> (r: u64)
        ensures
            r == self@.collateral_rate,
    {
        self.collateral_rate
    }

    /// The price of an asset.
    pub fn get_asset_price(&self, id: AssetId) -> (p: u64)
        requires
            self.wf(),
        ensures
            p == self@.price_of(id),
    {
        self.prices.get_or(&id, 0)
    }

    /// The collateral and the cdai of a position; the key is `(account, asset)`.
    pub fn cdai_by_account_and_asset(&self, key: (AccountId, AssetId)) -> (c: (Balance, Balance))
        requires
            self.wf(),
        ensures
            c == self@.cdp_of(key.0, key.1),
    {
        self.cdp.get_or(&key, (0, 0))
    }

    pub fn owner_a(&self) -> (a: AccountId)
        ensures
            a == self@.owner_a,
    {
        self.owner_a
    }

    pub fn owner_b(&self) -> (a: AccountId)
        ensures
            a == self@.owner_b,
    {
        self.owner_b
    }

    pub fn owner_c(&self) -> (a: AccountId)
        ensures
            a == self@.owner_c,
    {
        self.owner_c
    }

    /// The requests made within this block.
    pub fn oc_requests(&self) -> (r: &Vec<OffchainRequest>)
        ensures
            r@ == self@.oc_requests,
    {
        &self.oc_requests
    }

    /// The accounts that may answer pings.
    pub fn authorities(&self) -> (r: &Vec<AccountId>)
        ensures
            r@ == self@.authorities,
    {
        &self.authorities
    }

    /// The events deposited so far, oldest first.
    pub fn events(&self) -> (r: &Vec<Event>)
        ensures
            r@ == self@.events,
    {
        &self.events
    }

    /// The packets waiting at a height for its header.
    pub fn queued_packets(&self, height: BlockNumber) -> (r: Option<&Vec<UncheckedPacket>>)
        requires
            self.wf(),
        ensures
            match r {
                Some(q) => self@.packet_queue.contains_key(height) && queue_view(*q)
                    == self@.packet_queue[height],
                None => !self@.packet_queue.contains_key(height),
            },
    {
        self.packet_queue.get(&height)
    }

    /// The header stored at a height.
    pub fn head(&self, number: BlockNumber) -> (r: Option<&Vec<u8>>)
        requires
            self.wf(),
        ensures
            match r {
                Some(h) => self@.heads.contains_key(number) && *h == self@.heads[number],
                None => !self@.heads.contains_key(number),
            },
    {
        self.heads.get(&number)
    }

    /// The verification plugin of a chain.
    pub fn plugin(&self, id: Identifier) -> (r: Option<&Vec<u8>>)
        requires
            self.wf(),
        ensures
            match r {
                Some(p) => self@.plugins.contains_key(id) && *p == self@.plugins[id],
                None => !self@.plugins.contains_key(id),
            },
    {
        self.plugins.get(&id)
    }
}

impl MultiDao {
    /// Issues a new asset, numbered `next_asset_id`, all `total` of it held by `account`.
    pub fn _issue(&mut self, account: AccountId, total: Balance)
        requires
            old(self).wf(),
            old(self)@.next_asset_id < u32::MAX,
        ensures
            final(self).wf(),
            final(self)@ == old(self)@.issued(account, total),
    {
        let id = self.next_asset_id;
        self.next_asset_id = id + 1;
        self.balances.insert((id, account), total);
        self.total_supply.insert(id, total);
        self.events.push(Event::Issued(id, account, total));
        proof {
            assert(self@ =~= old(self)@.issued(account, total));
        }
    }

    /// Issues a new class of fungible assets; all `total` of it belongs to the
    /// signer. Its identifier is given in the `Issued` event. The supply stays
    /// `total` under every later call but `destroy`, which lowers it: minting
    /// into an issued asset is refused (see `mint_asset`).
    pub fn issue(&mut self, origin: Origin, total: Balance) -> (r: Result<(), DispatchError>)
        requires
            old(self).wf(),
            signer_of(origin) is Ok ==> old(self)@.next_asset_id < u32::MAX,
        ensures
            final(self).wf(),
            match signer_of(origin) {
                Ok(who) => r is Ok && final(self)@ == old(self)@.issued(who, total),
                Err(e) => r == Err::<(), DispatchError>(e) && final(self)@ == old(self)@,
            },
    {
        let who = ensure_signed(origin)?;
        self._issue(who, total);
        Ok(())
    }

    /// Moves `amount` of asset `id` from `from_account` to `to_account`.
    pub fn transfer(&mut self, from_account: AccountId, id: AssetId, to_account: AccountId, amount: Balance) -> (r:
        Result<(), DispatchError>)
        requires
            old(self).wf(),
            old(self)@.transfer_in_range(from_account, id, to_account, amount),
        ensures
            final(self).wf(),
            r == old(self)@.transfer_result(from_account, id, amount),
            final(self)@ == old(self)@.transferred(from_account, id, to_account, amount),
    {
        let origin_balance = self.balances.get_or(&(id, from_account), 0);
        if amount == 0 {
            return Err(DispatchError::ZeroAmount);
        }
        if origin_balance < amount {
            return Err(DispatchError::InsufficientBalance);
        }
        self.events.push(Event::Transferred(id, from_account, to_account, amount));
        self.balances.insert((id, from_account), origin_balance - amount);
        let target_balance = self.balances.get_or(&(id, to_account), 0);
        self.balances.insert((id, to_account), target_balance + amount);
        proof {
            assert(self@ =~= old(self)@.transferred(from_account, id, to_account, amount));
        }
        Ok(())
    }

    /// Transfers an asset to another account. A refused transfer changes
    /// nothing, and the call still succeeds.
    pub fn transfer_asset(&mut self, origin: Origin, id: AssetId, to_account: AccountId, amount: Balance) -> (r:
        Result<(), DispatchError>)
        requires
            old(self).wf(),
            signer_of(origin) matches Ok(from) ==> old(self)@.transfer_in_range(from, id, to_account, amount),
        ensures
            final(self).wf(),
            match signer_of(origin) {
                Ok(from) => r is Ok && final(self)@ == old(self)@.transferred(from, id, to_account, amount),
                Err(e) => r == Err::<(), DispatchError>(e) && final(self)@ == old(self)@,
            },
    {
        let from_account = ensure_signed(origin)?;
        let _ = self.transfer(from_account, id, to_account, amount);
        Ok(())
    }

    /// Destroys all of asset `id` that the signer holds.
    pub fn destroy(&mut self, origin: Origin, id: AssetId) -> (r: Result<(), DispatchError>)
        requires
            old(self).wf(),
            signer_of(origin) matches Ok(who) ==> old(self)@.destroy_in_range(who, id),
        ensures
            final(self).wf(),
            match signer_of(origin) {
                Ok(who) => r == old(self)@.destroy_result(who, id) && final(self)@ == old(self)@.destroyed(
                    who,
                    id,
                ),
                Err(e) => r == Err::<(), DispatchError>(e) && final(self)@ == old(self)@,
            },
    {
        let who = ensure_signed(origin)?;
        let balance = match self.balances.remove(&(id, who)) {
            Some(b) => b,
            None => 0,
        };
        if balance == 0 {
            proof {
                assert(self@ =~= old(self)@.destroyed(who, id));
            }
            return Err(DispatchError::ZeroBalance);
        }
        let supply = self.total_supply.get_or(&id, 0);
        self.total_supply.insert(id, supply - balance);
        self.events.push(Event::Destroyed(id, who, balance));
        proof {
            assert(self@ =~= old(self)@.destroyed(who, id));
        }
        Ok(())
    }

    /// Mints `amount` of `asset` for the first owner, whoever relayed it
    /// (`who` is not credited unless it is the first owner). This is how DOT
    /// locked on the other chain becomes DOT' (the relayed asset) here.
    ///
    /// An asset handed out by `issue` has, and will only ever have, the total
    /// it was issued with: minting into it is refused and changes nothing.
    pub fn mint_asset(&mut self, who: AccountId, asset_id: AssetId, amount: Balance) -> (r: Result<(), DispatchError>)
        requires
            old(self).wf(),
            !old(self)@.is_issued(asset_id) ==> old(self)@.mint_in_range(asset_id, amount),
        ensures
            final(self).wf(),
            r == old(self)@.mint_result(asset_id),
            final(self)@ == old(self)@.mint_into(asset_id, amount),
            who != old(self)@.owner_a ==> final(self)@.balance_of(asset_id, who) == old(self)@.balance_of(
                asset_id,
                who,
            ),
    {
        if asset_id < self.next_asset_id {
            return Err(DispatchError::SupplyFixed);
        }
        let who = self.owner_a;
        let origin_balance = self.balances.get_or(&(asset_id, who), 0);
        self.balances.insert((asset_id, who), origin_balance + amount);
        let origin_supply = self.total_supply.get_or(&asset_id, 0);
        self.total_supply.insert(asset_id, origin_supply + amount);
        proof {
            assert(self@ =~= old(self)@.minted(asset_id, amount));
        }
        Ok(())
    }
}

impl MultiDao {
    /// Sets the global collateral rate (a percentage, times 100).
    pub fn set_collateral_rate(&mut self, origin: Origin, rate: u64) -> (r: Result<(), DispatchError>)
        requires
            old(self).wf(),
        ensures
            final(self).wf(),
            match signer_of(origin) {
                Ok(_) => r is Ok && final(self)@ == (DaoView { collateral_rate: rate, ..old(self)@ }),
                Err(e) => r == Err::<(), DispatchError>(e) && final(self)@ == old(self)@,
            },
    {
        ensure_signed(origin)?;
        self.collateral_rate = rate;
        proof {
            assert(self@ =~= DaoView { collateral_rate: rate, ..old(self)@ });
        }
        Ok(())
    }

    /// Sets the price of an asset (its dollar value times 10000).
    pub fn set_price(&mut self, origin: Origin, asset_id: AssetId, price: u64) -> (r: Result<(), DispatchError>)
        requires
            old(self).wf(),
        ensures
            final(self).wf(),
            match signer_of(origin) {
                Ok(_) => r is Ok && final(self)@ == (DaoView {
                    prices: old(self)@.prices.insert(asset_id, price),
                    ..old(self)@
                }),
                Err(e) => r == Err::<(), DispatchError>(e) && final(self)@ == old(self)@,
            },
    {
        ensure_signed(origin)?;
        self.prices.insert(asset_id, price);
        proof {
            assert(self@ =~= DaoView { prices: old(self)@.prices.insert(asset_id, price), ..old(self)@ });
        }
        Ok(())
    }

    /// Whether `make_cdp` can run for `account` without a division by zero,
    /// an overflow or a balance going below zero.
    pub fn cdp_is_in_range(&self, account: AccountId, asset: AssetId, amount: Balance) -> (b: bool)
        requires
            self.wf(),
        ensures
            b == self@.cdp_in_range(account, asset, amount),
    {
        let rate = self.collateral_rate;
        let price = self.prices.get_or(&asset, 0);
        if rate == 0 {
            return false;
        }
        if price != 0 && amount > u128::MAX / (price as u128) {
            proof {
                assert(amount * price > u128::MAX) by (nonlinear_arith)
                    requires
                        price > 0,
                        amount > u128::MAX / (price as u128),
                ;
            }
            return false;
        }
        proof {
            assert(amount * price <= u128::MAX) by (nonlinear_arith)
                requires
                    price == 0 || amount <= u128::MAX / (price as u128),
            ;
        }
        let cdai = (amount * (price as u128)) / (rate as u128 * 100);
        let (old_asset, old_cdai) = self.cdp.get_or(&(account, asset), (0, 0));
        if old_asset > u128::MAX - amount || old_cdai > u128::MAX - cdai {
            return false;
        }
        let balance = self.balances.get_or(&(asset, account), 0);
        if balance < amount {
            return false;
        }
        let inherent = self.inherent_asset;
        let inherent_balance = if inherent == asset {
            balance - amount
        } else {
            self.balances.get_or(&(inherent, account), 0)
        };
        inherent_balance <= u128::MAX - cdai
    }

    /// Locks `amount` of `asset` of the signer in its debt position and
    /// credits the cdai drawn against it in the inherent asset.
    pub fn make_cdp(&mut self, origin: Origin, asset: AssetId, amount: Balance) -> (r: Result<(), DispatchError>)
        requires
            old(self).wf(),
            signer_of(origin) matches Ok(who) ==> old(self)@.cdp_in_range(who, asset, amount),
        ensures
            final(self).wf(),
            match signer_of(origin) {
                Ok(who) => r is Ok && final(self)@ == old(self)@.cdp_made(who, asset, amount),
                Err(e) => r == Err::<(), DispatchError>(e) && final(self)@ == old(self)@,
            },
    {
        let account = ensure_signed(origin)?;
        let rate = self.collateral_rate;
        let price = self.prices.get_or(&asset, 0);
        proof {
            assert(amount * (price as u128) / (rate as u128 * 100) <= amount * (price as u128)) by (nonlinear_arith)
                requires
                    rate > 0,
                    amount * price >= 0,
            ;
        }
        let cdai_amount: u128 = amount * (price as u128) / (rate as u128 * 100);
        let (old_asset_amount, old_cdai_amount) = self.cdp.get_or(&(account, asset), (0, 0));
        self.cdp.insert((account, asset), (old_asset_amount + amount, old_cdai_amount + cdai_amount));
        let origin_balance = self.balances.get_or(&(asset, account), 0);
        self.balances.insert((asset, account), origin_balance - amount);
        let inherent_asset_id = self.inherent_asset;
        let inherent_balance = self.balances.get_or(&(inherent_asset_id, account), 0);
        self.balances.insert((inherent_asset_id, account), inherent_balance + cdai_amount);
        self.events.push(Event::MadeCDP(account, asset, amount, cdai_amount));
        proof {
            assert(self@ =~= old(self)@.cdp_made(account, asset, amount));
        }
        Ok(())
    }

    /// Installs the verification plugin of a chain; root only.
    pub fn initialize_plugin(&mut self, origin: Origin, id: Identifier, plugin: Vec<u8>) -> (r: Result<
        (),
        DispatchError,
    >)
        requires
            old(self).wf(),
        ensures
            final(self).wf(),
            origin == Origin::Root ==> r is Ok && final(self)@ == (DaoView {
                plugins: old(self)@.plugins.insert(id, plugin),
                ..old(self)@
            }),
            origin != Origin::Root ==> r == Err::<(), DispatchError>(DispatchError::NotRoot) && final(self)@
                == old(self)@,
    {
        ensure_root(origin)?;
        self.plugins.insert(id, plugin);
        proof {
            assert(self@ =~= DaoView { plugins: old(self)@.plugins.insert(id, plugin), ..old(self)@ });
        }
        Ok(())
    }

    /// Queues a relayed packet with its proof until the header of `proof_height` arrives.
    pub fn recv_packet(&mut self, origin: Origin, packet: Vec<u8>, proof: Vec<Vec<u8>>, proof_height: BlockNumber) -> (r:
        Result<(), DispatchError>)
        requires
            old(self).wf(),
        ensures
            final(self).wf(),
            match signer_of(origin) {
                Ok(_) => r is Ok && final(self)@ == old(self)@.packet_queued(
                    proof_height,
                    PacketView { packet: packet@, proof: proof.deep_view() },
                ).with_event(Event::PacketReceived(packet)),
                Err(e) => r == Err::<(), DispatchError>(e) && final(self)@ == old(self)@,
            },
    {
        ensure_signed(origin)?;
        let ghost pv = PacketView { packet: packet@, proof: proof.deep_view() };
        let copy = packet.clone();
        proof {
            assert(copy@ =~= packet@);
        }
        let up = UncheckedPacket { packet: copy, proof };
        let ghost old_queue = if old(self)@.packet_queue.contains_key(proof_height) {
            old(self)@.packet_queue[proof_height]
        } else {
            Seq::<PacketView>::empty()
        };
        let removed = self.packet_queue.remove(&proof_height);
        let mut queue = match removed {
            Some(q) => q,
            None => Vec::new(),
        };
        proof {
            assert(queue_view(queue) =~= old_queue);
        }
        let ghost before = queue_view(queue);
        queue.push(up);
        proof {
            assert(queue_view(queue) =~= before.push(pv));
        }
        let ghost queue_before_insert = self.packet_queue.view();
        self.packet_queue.insert(proof_height, queue);
        proof {
            assert forall|h: BlockNumber| #[trigger] self.packet_queue.view().contains_key(h) implies h == proof_height
                || (old(self).packet_queue.view().contains_key(h) && self.packet_queue.view()[h]
                == old(self).packet_queue.view()[h]) by {
                if h != proof_height {
                    assert(queue_before_insert.contains_key(h));
                }
            }
        }
        self.events.push(Event::PacketReceived(packet));
        proof {
            assert(self@.packet_queue =~= old(self)@.packet_queued(proof_height, pv).packet_queue);
            assert(self@ =~= old(self)@.packet_queued(proof_height, pv).with_event(
                Event::PacketReceived(packet),
            ));
        }
        Ok(())
    }
}

proof fn lemma_accepted_total_monotone(ups: Seq<PacketView>, verdicts: Seq<bool>, i: nat, n: nat)
    requires
        i <= n,
    ensures
        accepted_total(ups, verdicts, i) <= accepted_total(ups, verdicts, n),
    decreases n - i,
{
    if i < n {
        lemma_accepted_total_monotone(ups, verdicts, i, (n - 1) as nat);
    }
}

pub(crate) proof fn lemma_packets_minted_keeps(v: DaoView, ups: Seq<PacketView>, verdicts: Seq<bool>, n: nat)
    ensures
        v.packets_minted(ups, verdicts, n).next_asset_id == v.next_asset_id,
        v.packets_minted(ups, verdicts, n).owner_a == v.owner_a,
        v.is_issued(RELAYED_ASSET) ==> v.packets_minted(ups, verdicts, n) == v,
        v.packets_minted(ups, verdicts, n) == (DaoView {
            balances: v.packets_minted(ups, verdicts, n).balances,
            total_supply: v.packets_minted(ups, verdicts, n).total_supply,
            ..v
        }),
    decreases n,
{
    if n > 0 {
        lemma_packets_minted_keeps(v, ups, verdicts, (n - 1) as nat);
    }
}

pub(crate) proof fn lemma_packets_minted(v: DaoView, ups: Seq<PacketView>, verdicts: Seq<bool>, n: nat)
    requires
        !v.is_issued(RELAYED_ASSET),
        v.balance_of(RELAYED_ASSET, v.owner_a) + accepted_total(ups, verdicts, n) <= u128::MAX,
        v.supply_of(RELAYED_ASSET) + accepted_total(ups, verdicts, n) <= u128::MAX,
    ensures
        v.packets_minted(ups, verdicts, n).owner_a == v.owner_a,
        v.packets_minted(ups, verdicts, n).balance_of(RELAYED_ASSET, v.owner_a) == v.balance_of(
            RELAYED_ASSET,
            v.owner_a,
        ) + accepted_total(ups, verdicts, n),
        v.packets_minted(ups, verdicts, n).supply_of(RELAYED_ASSET) == v.supply_of(RELAYED_ASSET)
            + accepted_total(ups, verdicts, n),
    decreases n,
{
    lemma_packets_minted_keeps(v, ups, verdicts, n);
    if n > 0 {
        lemma_accepted_total_monotone(ups, verdicts, (n - 1) as nat, n);
        lemma_packets_minted(v, ups, verdicts, (n - 1) as nat);
        lemma_packets_minted_keeps(v, ups, verdicts, (n - 1) as nat);
    }
}

impl MultiDao {
    /// Whether `update_client` at `number` can run with these plugin results
    /// without a missing plugin, a short packet or an overflow.
    pub fn client_update_is_in_range(&self, number: BlockNumber, verdicts: &Vec<bool>) -> (b: bool)
        requires
            self.wf(),
        ensures
            b == self@.client_update_in_range(number, verdicts@),
    {
        let ups = match self.packet_queue.get(&number) {
            Some(q) => q,
            None => {
                return true;
            },
        };
        let ghost q = self@.packet_queue[number];
        proof {
            assert(queue_view(*ups) == q);
        }
        if !self.plugins.contains_key(&RELAY_PLUGIN) {
            return false;
        }
        if verdicts.len() != ups.len() {
            return false;
        }
        let minting = !(RELAYED_ASSET < self.next_asset_id);
        let balance = self.balances.get_or(&(RELAYED_ASSET, self.owner_a), 0);
        let supply = self.total_supply.get_or(&RELAYED_ASSET, 0);
        let limit = if balance > supply {
            u128::MAX - balance
        } else {
            u128::MAX - supply
        };
        let mut total: u128 = 0;
        let mut i: usize = 0;
        while i < ups.len()
            invariant
                self@.packet_queue.contains_key(number),
                self@.packet_queue[number] == q,
                self@.plugins.contains_key(RELAY_PLUGIN),
                balance == self@.balance_of(RELAYED_ASSET, self@.owner_a),
                minting == !self@.is_issued(RELAYED_ASSET),
                supply == self@.supply_of(RELAYED_ASSET),
                i <= ups@.len(),
                verdicts@.len() == ups@.len(),
                queue_view(*ups) == q,
                q.len() == ups@.len(),
                minting ==> total == accepted_total(q, verdicts@, i as nat),
                total <= limit,
                limit == u128::MAX - balance || limit == u128::MAX - supply,
                limit <= u128::MAX - balance,
                limit <= u128::MAX - supply,
                forall|j: int| 0 <= j < i && #[trigger] verdicts@[j] ==> q[j].packet.len() >= 16,
            decreases ups@.len() - i,
        {
            if verdicts[i] {
                let packet = &ups[i].packet;
                proof {
                    assert(q[i as int] == ups@[i as int]@);
                }
                if packet.len() < 16 {
                    proof {
                        assert(!(q[i as int].packet.len() >= 16));
                        assert(verdicts@[i as int]);

                    }
                    return false;
                }
                let amount = decode_u128(packet.as_slice()).unwrap();
                proof {
                    crate::scale::lemma_le_value_u128(q[i as int].packet.take(16));
                    assert(amount == packet_amount(q[i as int]));
                }
                if minting && amount > limit - total {
                    proof {
                        lemma_accepted_total_monotone(q, verdicts@, (i + 1) as nat, q.len());
                    }
                    return false;
                }
                if minting {
                    total = total + amount;
                }
            }
            i = i + 1;
        }
        true
    }

    /// Stores a relayed block header under the number it carries and checks
    /// the packets queued for that block: each one that the verification
    /// plugin accepts (`verdicts[i]` for the `i`-th queued packet) has the
    /// amount it carries minted in the relayed asset, unless that asset was
    /// issued, whose supply is fixed.
    pub fn update_client(&mut self, origin: Origin, id: Identifier, header: Vec<u8>, verdicts: &Vec<bool>) -> (r:
        Result<(), DispatchError>)
        requires
            old(self).wf(),
            signer_of(origin) is Ok ==> (header_number_of(header@) matches Some(n)
                && old(self)@.client_update_in_range(n, verdicts@)),
        ensures
            final(self).wf(),
            match signer_of(origin) {
                Ok(_) => r is Ok && (header_number_of(header@) matches Some(n) && final(self)@
                    == old(self)@.client_updated(n, header, verdicts@)),
                Err(e) => r == Err::<(), DispatchError>(e) && final(self)@ == old(self)@,
            },
    {
        let who = ensure_signed(origin)?;
        let header_number = header_number(&header).unwrap();
        self.heads.insert(header_number, header);
        let ghost v1 = self@;
        proof {
            assert(v1 =~= DaoView { heads: old(self)@.heads.insert(header_number, header), ..old(self)@ });
        }
        let ghost queued = old(self)@.packet_queue.contains_key(header_number);
        let removed = self.packet_queue.remove(&header_number);
        match removed {
            Some(ups) => {
                let ghost q = old(self)@.packet_queue[header_number];
                let ghost base = self@;
                proof {
                    assert(queue_view(ups) == q);
                    assert(base =~= DaoView { packet_queue: v1.packet_queue.remove(header_number), ..v1 });
                    if !base.is_issued(RELAYED_ASSET) {
                        lemma_packets_minted(base, q, verdicts@, q.len());
                    }
                }
                let mut i: usize = 0;
                while i < ups.len()
                    invariant
                        self.wf(),
                        i <= ups@.len(),
                        verdicts@.len() == ups@.len(),
                        queue_view(ups) == q,
                        q.len() == ups@.len(),
                        forall|j: int| 0 <= j < q.len() && #[trigger] verdicts@[j] ==> q[j].packet.len() >= 16,
                        !base.is_issued(RELAYED_ASSET) ==> base.balance_of(RELAYED_ASSET, base.owner_a)
                            + accepted_total(q, verdicts@, q.len()) <= u128::MAX,
                        !base.is_issued(RELAYED_ASSET) ==> base.supply_of(RELAYED_ASSET) + accepted_total(
                            q,
                            verdicts@,
                            q.len(),
                        ) <= u128::MAX,
                        self@ == base.packets_minted(q, verdicts@, i as nat),
                    decreases ups@.len() - i,
                {
                    if verdicts[i] {
                        proof {
                            assert(q[i as int] == ups@[i as int]@);
                        }
                        let amount = decode_u128(ups[i].packet.as_slice()).unwrap();
                        proof {
                            lemma_packets_minted_keeps(base, q, verdicts@, i as nat);
                            if !base.is_issued(RELAYED_ASSET) {
                                lemma_accepted_total_monotone(q, verdicts@, (i + 1) as nat, q.len());
                                lemma_accepted_total_monotone(q, verdicts@, i as nat, q.len());
                                lemma_packets_minted(base, q, verdicts@, i as nat);
                            }
                        }
                        let _ = self.mint_asset(who, RELAYED_ASSET, amount);
                    }
                    i = i + 1;
                }
            },
            None => {
                proof {
                    assert(self@ =~= v1);
                }
            },
        }
        Ok(())
    }
}

/// The first of `authorities` whose key is among `local_keys`.
pub open spec fn first_local_authority(authorities: Seq<AccountId>, local_keys: Seq<AccountId>) -> Option<AccountId>
    decreases authorities.len(),
{
    if authorities.len() == 0 {
        None
    } else if local_keys.contains(authorities[0]) {
        Some(authorities[0])
    } else {
        first_local_authority(authorities.drop_first(), local_keys)
    }
}

impl MultiDao {
    /// Whether `who` may answer pings.
    pub fn is_authority(&self, who: AccountId) -> (b: bool)
        ensures
            b == self@.is_authority(who),
    {
        let mut i: usize = 0;
        while i < self.authorities.len()
            invariant
                i <= self.authorities@.len(),
                forall|j: int| 0 <= j < i ==> self.authorities@[j] != who,
            decreases self.authorities@.len() - i,
        {
            if self.authorities[i] == who {
                proof {
                    assert(self@.authorities[i as int] == who);
                }
                return true;
            }
            i = i + 1;
        }
        false
    }

    /// Lets `who` answer pings; root only. An authority already listed is not listed again.
    pub fn add_authority(&mut self, origin: Origin, who: AccountId) -> (r: Result<(), DispatchError>)
        requires
            old(self).wf(),
        ensures
            final(self).wf(),
            origin == Origin::Root ==> r is Ok && final(self)@ == (DaoView {
                authorities: if old(self)@.is_authority(who) {
                    old(self)@.authorities
                } else {
                    old(self)@.authorities.push(who)
                },
                ..old(self)@
            }),
            origin != Origin::Root ==> r == Err::<(), DispatchError>(DispatchError::NotRoot) && final(self)@
                == old(self)@,
    {
        ensure_root(origin)?;
        if !self.is_authority(who) {
            let ghost before = self.authorities@;
            self.authorities.push(who);
            proof {
                assert forall|a: int, b: int|
                    0 <= a < self.authorities@.len() && 0 <= b < self.authorities@.len() && a != b implies self.authorities@[a]
                    != self.authorities@[b] by {
                    if a < before.len() && b < before.len() {
                    } else if a < before.len() {
                        assert(before.contains(before[a]));
                    } else if b < before.len() {
                        assert(before.contains(before[b]));
                    }
                }
            }
        }
        proof {
            assert(self@ =~= DaoView {
                authorities: if old(self)@.is_authority(who) {
                    old(self)@.authorities
                } else {
                    old(self)@.authorities.push(who)
                },
                ..old(self)@
            });
        }
        Ok(())
    }

    /// Stores a `Ping` request with the signer and `nonce` for the offchain worker.
    pub fn ping(&mut self, origin: Origin, nonce: u64) -> (r: Result<(), DispatchError>)
        requires
            old(self).wf(),
        ensures
            final(self).wf(),
            match signer_of(origin) {
                Ok(who) => r is Ok && final(self)@ == (DaoView {
                    oc_requests: old(self)@.oc_requests.push(OffchainRequest::Ping(nonce, who)),
                    ..old(self)@
                }),
                Err(e) => r == Err::<(), DispatchError>(e) && final(self)@ == old(self)@,
            },
    {
        let who = ensure_signed(origin)?;
        self.oc_requests.push(OffchainRequest::Ping(nonce, who));
        proof {
            assert(self@ =~= DaoView {
                oc_requests: old(self)@.oc_requests.push(OffchainRequest::Ping(nonce, who)),
                ..old(self)@
            });
        }
        Ok(())
    }

    /// Answers a ping: acknowledged with an `Ack` event where the signer is an
    /// authority, ignored otherwise.
    pub fn pong(&mut self, origin: Origin, nonce: u64) -> (r: Result<(), DispatchError>)
        requires
            old(self).wf(),
        ensures
            final(self).wf(),
            match signer_of(origin) {
                Ok(author) => r is Ok && final(self)@ == if old(self)@.is_authority(author) {
                    old(self)@.with_event(Event::Ack(nonce, author))
                } else {
                    old(self)@
                },
                Err(e) => r == Err::<(), DispatchError>(e) && final(self)@ == old(self)@,
            },
    {
        let author = ensure_signed(origin)?;
        if self.is_authority(author) {
            self.events.push(Event::Ack(nonce, author));
            proof {
                assert(self@ =~= old(self)@.with_event(Event::Ack(nonce, author)));
            }
        }
        Ok(())
    }

    /// At the start of each block the requests of the previous one are dropped.
    pub fn on_initialize(&mut self, now: BlockNumber)
        requires
            old(self).wf(),
        ensures
            final(self).wf(),
            final(self)@ == (DaoView { oc_requests: Seq::empty(), ..old(self)@ }),
    {
        self.oc_requests = Vec::new();
        proof {
            assert(self@ =~= DaoView { oc_requests: Seq::empty(), ..old(self)@ });
        }
    }

    /// The first authority, in the order in which they were added, whose key
    /// this node holds; `local_keys` are the keys of the node's keystore.
    pub fn authority_id(&self, local_keys: &Vec<AccountId>) -> (r: Option<AccountId>)
        ensures
            r == first_local_authority(self@.authorities, local_keys@),
    {
        let ghost all = self.authorities@;
        let mut i: usize = 0;
        proof {
            assert(all.skip(0) =~= all);
        }
        while i < self.authorities.len()
            invariant
                i <= all.len(),
                all == self@.authorities,
                first_local_authority(all, local_keys@) == first_local_authority(all.skip(i as int), local_keys@),
            decreases all.len() - i,
        {
            let authority = self.authorities[i];
            let mut found = false;
            let mut j: usize = 0;
            while j < local_keys.len()
                invariant
                    j <= local_keys@.len(),
                    found == exists|k: int| 0 <= k < j && local_keys@[k] == authority,
                decreases local_keys@.len() - j,
            {
                if local_keys[j] == authority {
                    found = true;
                }
                j = j + 1;
            }
            proof {
                assert(all.skip(i as int)[0] == authority);
                assert(all.skip(i as int).drop_first() =~= all.skip(i + 1));
                if found {
                    let k = choose|k: int| 0 <= k < j && local_keys@[k] == authority;
                    assert(local_keys@.contains(authority));
                }
            }
            if found {
                return Some(authority);
            }
            i = i + 1;
        }
        None
    }

    /// The nonces of the pings to answer, in the order they came in.
    fn offchain(&self) -> (nonces: Vec<u64>)
        ensures
            nonces@ == self@.oc_requests.map_values(|r: OffchainRequest| request_nonce(r)),
    {
        let mut nonces: Vec<u64> = Vec::new();
        let mut i: usize = 0;
        while i < self.oc_requests.len()
            invariant
                i <= self.oc_requests@.len(),
                nonces@ == self.oc_requests@.take(i as int).map_values(|r: OffchainRequest| request_nonce(r)),
            decreases self.oc_requests@.len() - i,
        {
            let nonce = match self.oc_requests[i] {
                OffchainRequest::Ping(nonce, _) => nonce,
            };
            nonces.push(nonce);
            proof {
                assert(self.oc_requests@.take(i + 1) =~= self.oc_requests@.take(i as int).push(
                    self.oc_requests@[i as int],
                ));
                assert(nonces@ =~= self.oc_requests@.take(i + 1).map_values(
                    |r: OffchainRequest| request_nonce(r),
                ));
            }
            i = i + 1;
        }
        proof {
            assert(self.oc_requests@.take(i as int) =~= self.oc_requests@);
        }
        nonces
    }

    /// The work of the offchain worker after each block: where this node holds
    /// the key of an authority, that key and the nonces of the pings that it
    /// answers with a signed `pong` each, in order; nothing otherwise.
    pub fn offchain_worker(&self, now: BlockNumber, local_keys: &Vec<AccountId>) -> (r: Option<(AccountId, Vec<u64>)>)
        ensures
            match first_local_authority(self@.authorities, local_keys@) {
                Some(key) => r matches Some((k, nonces)) && k == key && nonces@ == self@.oc_requests.map_values(
                    |q: OffchainRequest| request_nonce(q),
                ),
                None => r is None,
            },
    {
        match self.authority_id(local_keys) {
            Some(key) => Some((key, self.offchain())),
            None => None,
        }
    }
}

/// `i` as an asset identifier, saturating at the largest one.
fn asset_id_saturating(i: usize) -> (id: AssetId)
    ensures
        id == saturated_asset_id(i as int),
{
    if i > u32::MAX as usize {
        u32::MAX
    } else {
        i as u32
    }
}

impl MultiDao {
    /// The module at genesis: the configured rate and owners; for each initial
    /// holding a new asset issued to its account, of which the genesis grant
    /// goes to the second owner and another to the third (a grant that the
    /// holding cannot cover is skipped); then the `i`-th initial price set for
    /// asset `i`.
    pub fn genesis(config: &GenesisConfig) -> (d: Self)
        requires
            config.assets@.len() <= u32::MAX,
        ensures
            d.wf(),
            d@ == genesis_view(*config),
    {
        let mut d = Self::initial(config.collateral_rate, config.owner_a, config.owner_b, config.owner_c);
        let ghost start = d@;
        let mut i: usize = 0;
        while i < config.assets.len()
            invariant
                d.wf(),
                i <= config.assets@.len(),
                config.assets@.len() <= u32::MAX,
                start == DaoView::initial(config.collateral_rate, config.owner_a, config.owner_b, config.owner_c),
                d@ == start.genesis_assets(config.assets@, i as nat),
                d@.next_asset_id == i,
                d@.owner_b == config.owner_b,
                d@.owner_c == config.owner_c,
                forall|k: (AssetId, AccountId)| #[trigger] d@.balances.contains_key(k) ==> k.0 < d@.next_asset_id,
            decreases config.assets@.len() - i,
        {
            let (account, amount) = config.assets[i];
            let id = d.next_asset_id;
            let ghost v0 = d@;
            d._issue(account, amount);
            let ghost v1 = d@;
            proof {
                assert(!v0.balances.contains_key((id, config.owner_b)));
                assert(!v0.balances.contains_key((id, config.owner_c)));
            }
            let _ = d.transfer(account, id, config.owner_b, GENESIS_GRANT);
            let ghost v2 = d@;
            proof {
                if account != config.owner_c {
                    assert(v2.balance_of(id, config.owner_c) == 0 || v2.balance_of(id, config.owner_c)
                        == GENESIS_GRANT);
                }
            }
            let _ = d.transfer(account, id, config.owner_c, GENESIS_GRANT);
            proof {
                assert(d@ == v0.genesis_asset(account, amount));
                assert forall|k: (AssetId, AccountId)| #[trigger] d@.balances.contains_key(k) implies k.0
                    < d@.next_asset_id by {
                    if !v0.balances.contains_key(k) {
                        assert(k.0 == id);
                    }
                }
            }
            i = i + 1;
        }
        let ghost with_assets = d@;
        let mut j: usize = 0;
        while j < config.prices.len()
            invariant
                d.wf(),
                j <= config.prices@.len(),
                d@ == with_assets.genesis_prices(config.prices@, j as nat),
            decreases config.prices@.len() - j,
        {
            let asset_id = asset_id_saturating(j);
            d.prices.insert(asset_id, config.prices[j]);
            proof {
                assert(d@ =~= with_assets.genesis_prices(config.prices@, (j + 1) as nat));
            }
            j = j + 1;
        }
        d
    }
}

impl MultiDao {
    pub(crate) proof fn lemma_wf_authorities(&self)
        requires
            self.wf(),
        ensures
            self@.authorities.no_duplicates(),
    {
    }

    /// Only finitely many holdings are ever stored.
    pub proof fn lemma_holdings_finite(&self)
        ensures
            self@.balances.dom().finite(),
    {
        self.balances.lemma_view_finite();
    }
}

/// The number that a block header carries after its parent hash, where it
/// carries one.
pub fn header_number(header: &Vec<u8>) -> (r: Option<BlockNumber>)
    ensures
        r == header_number_of(header@),
        r matches Some(n) ==> header_encodes_number(header@, n),
        r is None ==> forall|n: u32| !header_encodes_number(header@, n),
{
    let r = decode_header_number(header.as_slice());
    proof {
        if let Some(n) = r {
            let c = choose|m: u32| header_encodes_number(header@, m);
            crate::scale::lemma_header_number_unique(header@, n, c);
        }
    }
    r
}

impl MultiDao {
    /// `update_client` where it runs without panicking: `None`, with nothing
    /// changed, where the origin is signed but the header carries no number,
    /// or the update at that number is out of range (see
    /// `client_update_in_range`).
    pub fn try_update_client(&mut self, origin: Origin, id: Identifier, header: Vec<u8>, verdicts: &Vec<bool>) -> (r:
        Option<Result<(), DispatchError>>)
        requires
            old(self).wf(),
        ensures
            final(self).wf(),
            match signer_of(origin) {
                Err(e) => r == Some(Err::<(), DispatchError>(e)) && final(self)@ == old(self)@,
                Ok(_) => match header_number_of(header@) {
                    Some(n) => if old(self)@.client_update_in_range(n, verdicts@) {
                        r == Some(Ok::<(), DispatchError>(())) && final(self)@ == old(self)@.client_updated(
                            n,
                            header,
                            verdicts@,
                        )
                    } else {
                        r is None && final(self)@ == old(self)@
                    },
                    None => r is None && final(self)@ == old(self)@,
                },
            },
    {
        if let Err(e) = ensure_signed(origin) {
            return Some(Err(e));
        }
        let number = match header_number(&header) {
            Some(n) => n,
            None => {
                return None;
            },
        };
        if !self.client_update_is_in_range(number, verdicts) {
            return None;
        }
        let ghost h = header;
        let r = self.update_client(origin, id, header, verdicts);
        proof {
            assert(header_number_of(h@) == Some(number));
        }
        match r {
            Ok(_) => Some(Ok(())),
            Err(e) => Some(Err(e)),
        }
    }
}

} // verus!
