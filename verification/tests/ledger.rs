use multidao::dispatch::{DispatchError, Origin};
use multidao::multidao::{header_number, Event, GenesisConfig, MultiDao, OffchainRequest};

fn config(assets: Vec<(u64, u128)>, prices: Vec<u64>) -> GenesisConfig {
    GenesisConfig {
        collateral_rate: 150,
        owner_a: 10,
        owner_b: 11,
        owner_c: 12,
        assets,
        prices,
    }
}

/// A block header: a zero parent hash, then the number, compact.
fn header(number: u32) -> Vec<u8> {
    let mut h = vec![0u8; 32];
    if number < 64 {
        h.push((number * 4) as u8);
    } else {
        h.extend_from_slice(&((number * 4 + 1) as u16).to_le_bytes());
    }
    h.extend_from_slice(&[7, 7, 7]);
    h
}

fn empty_dao() -> MultiDao {
    MultiDao::genesis(&config(vec![], vec![]))
}

#[test]
fn genesis_grants_to_second_and_third_owner() {
    let dao = MultiDao::genesis(&config(vec![(1, 200_000), (2, 70_000)], vec![7, 8]));
    assert_eq!(dao.next_asset_id(), 2);
    assert_eq!(dao.get_asset_balance((0, 1)), 100_000);
    assert_eq!(dao.get_asset_balance((0, 11)), 50_000);
    assert_eq!(dao.get_asset_balance((0, 12)), 50_000);
    assert_eq!(dao.get_asset_total_supply(0), 200_000);
    // The second grant cannot be covered: 20_000 left after the first one.
    assert_eq!(dao.get_asset_balance((1, 2)), 20_000);
    assert_eq!(dao.get_asset_balance((1, 11)), 50_000);
    assert_eq!(dao.get_asset_balance((1, 12)), 0);
    assert_eq!(dao.get_asset_price(0), 7);
    assert_eq!(dao.get_asset_price(1), 8);
    assert_eq!(dao.get_asset_price(2), 0);
    assert_eq!(dao.rate(), 150);
    assert_eq!(dao.owner_a(), 10);
    assert_eq!(dao.owner_b(), 11);
    assert_eq!(dao.owner_c(), 12);
    assert_eq!(dao.inherent_asset_id(), 0);
    assert_eq!(
        dao.events().clone(),
        vec![
            Event::Issued(0, 1, 200_000),
            Event::Transferred(0, 1, 11, 50_000),
            Event::Transferred(0, 1, 12, 50_000),
            Event::Issued(1, 2, 70_000),
            Event::Transferred(1, 2, 11, 50_000),
        ]
    );
}

#[test]
fn issue_gives_fresh_ids() {
    let mut dao = empty_dao();
    assert_eq!(dao.issue(Origin::Signed(5), 1000), Ok(()));
    assert_eq!(dao.issue(Origin::Signed(6), 2000), Ok(()));
    assert_eq!(dao.next_asset_id(), 2);
    assert_eq!(dao.get_asset_balance((0, 5)), 1000);
    assert_eq!(dao.get_asset_balance((1, 6)), 2000);
    assert_eq!(dao.get_asset_total_supply(1), 2000);
    assert_eq!(dao.issue(Origin::Unsigned, 1), Err(DispatchError::NotSigned));
    assert_eq!(dao.issue(Origin::Root, 1), Err(DispatchError::NotSigned));
    assert_eq!(dao.next_asset_id(), 2);
}

#[test]
fn transfer_moves_and_refuses() {
    let mut dao = empty_dao();
    dao.issue(Origin::Signed(5), 1000).unwrap();
    assert_eq!(dao.transfer(5, 0, 6, 0), Err(DispatchError::ZeroAmount));
    assert_eq!(dao.transfer(5, 0, 6, 1001), Err(DispatchError::InsufficientBalance));
    assert_eq!(dao.transfer(5, 0, 6, 400), Ok(()));
    assert_eq!(dao.get_asset_balance((0, 5)), 600);
    assert_eq!(dao.get_asset_balance((0, 6)), 400);
    assert_eq!(dao.get_asset_total_supply(0), 1000);
    // A transfer to oneself changes nothing but the events.
    assert_eq!(dao.transfer(5, 0, 5, 600), Ok(()));
    assert_eq!(dao.get_asset_balance((0, 5)), 600);
    assert_eq!(dao.events().last(), Some(&Event::Transferred(0, 5, 5, 600)));
}

#[test]
fn transfer_asset_succeeds_even_when_refused() {
    let mut dao = empty_dao();
    dao.issue(Origin::Signed(5), 10).unwrap();
    assert_eq!(dao.transfer_asset(Origin::Signed(5), 0, 6, 11), Ok(()));
    assert_eq!(dao.get_asset_balance((0, 5)), 10);
    assert_eq!(dao.get_asset_balance((0, 6)), 0);
    assert_eq!(dao.transfer_asset(Origin::Signed(5), 0, 6, 3), Ok(()));
    assert_eq!(dao.get_asset_balance((0, 6)), 3);
    assert_eq!(dao.transfer_asset(Origin::Root, 0, 6, 3), Err(DispatchError::NotSigned));
}

#[test]
fn destroy_takes_holding_off_supply() {
    let mut dao = empty_dao();
    dao.issue(Origin::Signed(5), 1000).unwrap();
    dao.transfer(5, 0, 6, 250).unwrap();
    assert_eq!(dao.destroy(Origin::Signed(7), 0), Err(DispatchError::ZeroBalance));
    assert_eq!(dao.destroy(Origin::Signed(6), 0), Ok(()));
    assert_eq!(dao.get_asset_balance((0, 6)), 0);
    assert_eq!(dao.get_asset_total_supply(0), 750);
    assert_eq!(dao.events().last(), Some(&Event::Destroyed(0, 6, 250)));
    assert_eq!(dao.destroy(Origin::Signed(6), 0), Err(DispatchError::ZeroBalance));
}

#[test]
fn issue_then_destroy_leaves_nothing() {
    let mut dao = empty_dao();
    dao.issue(Origin::Signed(5), 1234).unwrap();
    dao.destroy(Origin::Signed(5), 0).unwrap();
    assert_eq!(dao.get_asset_total_supply(0), 0);
    assert_eq!(dao.get_asset_balance((0, 5)), 0);
}

#[test]
fn make_cdp_credits_cdai() {
    let mut dao = empty_dao();
    dao.issue(Origin::Signed(5), 1000).unwrap(); // asset 0, the inherent asset
    dao.issue(Origin::Signed(5), 1000).unwrap(); // asset 1
    dao.set_price(Origin::Signed(9), 1, 10_000).unwrap();
    assert!(dao.cdp_is_in_range(5, 1, 300));
    assert_eq!(dao.make_cdp(Origin::Signed(5), 1, 300), Ok(()));
    // 300 * 10000 / (150 * 100) = 200
    assert_eq!(dao.cdai_by_account_and_asset((5, 1)), (300, 200));
    assert_eq!(dao.get_asset_balance((1, 5)), 700);
    assert_eq!(dao.get_asset_balance((0, 5)), 1200);
    assert_eq!(dao.events().last(), Some(&Event::MadeCDP(5, 1, 300, 200)));
    assert_eq!(dao.make_cdp(Origin::Signed(5), 1, 7), Ok(()));
    // 7 * 10000 / 15000 = 4
    assert_eq!(dao.cdai_by_account_and_asset((5, 1)), (307, 204));
    assert!(!dao.cdp_is_in_range(5, 1, 701));
    assert_eq!(dao.make_cdp(Origin::Unsigned, 1, 1), Err(DispatchError::NotSigned));
}

#[test]
fn make_cdp_out_of_range_without_rate() {
    let mut dao = empty_dao();
    dao.issue(Origin::Signed(5), 1000).unwrap();
    dao.set_collateral_rate(Origin::Signed(1), 0).unwrap();
    assert_eq!(dao.rate(), 0);
    assert!(!dao.cdp_is_in_range(5, 0, 1));
    assert_eq!(dao.set_collateral_rate(Origin::Root, 3), Err(DispatchError::NotSigned));
}

fn amount_bytes(amount: u128) -> Vec<u8> {
    amount.to_le_bytes().to_vec()
}

#[test]
fn relayed_packets_mint_after_header() {
    let mut dao = empty_dao();
    assert_eq!(dao.initialize_plugin(Origin::Signed(1), 0, vec![0, 97, 115, 109]), Err(DispatchError::NotRoot));
    assert_eq!(dao.initialize_plugin(Origin::Root, 0, vec![0, 97, 115, 109]), Ok(()));
    assert_eq!(dao.plugin(0), Some(&vec![0, 97, 115, 109]));
    let mut first = amount_bytes(1000);
    first.push(99); // bytes after the amount are not read
    dao.recv_packet(Origin::Signed(3), first.clone(), vec![vec![1, 2]], 7).unwrap();
    dao.recv_packet(Origin::Signed(3), amount_bytes(500), vec![], 7).unwrap();
    dao.recv_packet(Origin::Signed(3), amount_bytes(20), vec![], 7).unwrap();
    assert_eq!(dao.queued_packets(7).map(|q| q.len()), Some(3));
    assert_eq!(dao.events().last(), Some(&Event::PacketReceived(amount_bytes(20))));
    let verdicts = vec![true, false, true];
    assert!(dao.client_update_is_in_range(7, &verdicts));
    assert_eq!(dao.update_client(Origin::Signed(4), 0, header(7), &verdicts), Ok(()));
    // Minted for the first owner, whoever relayed.
    assert_eq!(dao.get_asset_balance((2, 10)), 1020);
    assert_eq!(dao.get_asset_balance((2, 4)), 0);
    assert_eq!(dao.get_asset_total_supply(2), 1020);
    assert!(dao.queued_packets(7).is_none());
    assert_eq!(dao.head(7), Some(&header(7)));
}

#[test]
fn header_without_packets_is_only_stored() {
    let mut dao = empty_dao();
    assert_eq!(dao.update_client(Origin::Signed(4), 0, header(3), &vec![]), Ok(()));
    assert_eq!(dao.head(3), Some(&header(3)));
    assert_eq!(dao.update_client(Origin::Signed(4), 0, header(300), &vec![]), Ok(()));
    assert_eq!(dao.head(300), Some(&header(300)));
    assert_eq!(dao.get_asset_total_supply(2), 0);
    assert_eq!(dao.update_client(Origin::Root, 0, header(4), &vec![]), Err(DispatchError::NotSigned));
    assert_eq!(dao.head(4), None);
}

#[test]
fn client_update_range_checks() {
    let mut dao = empty_dao();
    dao.recv_packet(Origin::Signed(3), vec![1, 2, 3], vec![], 5).unwrap();
    // No plugin installed yet.
    assert!(!dao.client_update_is_in_range(5, &vec![false]));
    dao.initialize_plugin(Origin::Root, 0, vec![]).unwrap();
    assert!(dao.client_update_is_in_range(5, &vec![false]));
    // Too short to carry an amount.
    assert!(!dao.client_update_is_in_range(5, &vec![true]));
    // One result per queued packet.
    assert!(!dao.client_update_is_in_range(5, &vec![false, false]));
    assert!(dao.client_update_is_in_range(6, &vec![true, true]));
}

#[test]
fn authorities_answer_pings() {
    let mut dao = empty_dao();
    assert_eq!(dao.add_authority(Origin::Signed(1), 21), Err(DispatchError::NotRoot));
    assert_eq!(dao.add_authority(Origin::Root, 21), Ok(()));
    assert_eq!(dao.add_authority(Origin::Root, 22), Ok(()));
    assert_eq!(dao.add_authority(Origin::Root, 21), Ok(()));
    assert_eq!(dao.authorities().clone(), vec![21, 22]);
    assert!(dao.is_authority(22));
    assert!(!dao.is_authority(23));
    dao.ping(Origin::Signed(30), 5).unwrap();
    dao.ping(Origin::Signed(31), 6).unwrap();
    assert_eq!(dao.oc_requests().clone(), vec![OffchainRequest::Ping(5, 30), OffchainRequest::Ping(6, 31)]);
    assert_eq!(dao.authority_id(&vec![40, 22, 21]), Some(21));
    assert_eq!(dao.authority_id(&vec![40]), None);
    assert_eq!(dao.offchain_worker(1, &vec![22]), Some((22, vec![5, 6])));
    assert_eq!(dao.offchain_worker(1, &vec![]), None);
    assert_eq!(dao.pong(Origin::Signed(23), 5), Ok(()));
    assert!(dao.events().is_empty());
    assert_eq!(dao.pong(Origin::Signed(22), 5), Ok(()));
    assert_eq!(dao.events().clone(), vec![Event::Ack(5, 22)]);
    dao.on_initialize(2);
    assert!(dao.oc_requests().is_empty());
    assert_eq!(dao.ping(Origin::Unsigned, 1), Err(DispatchError::NotSigned));
}

#[test]
fn error_messages() {
    assert_eq!(DispatchError::NotSigned.message(), "bad origin: expected to be a signed origin");
    assert_eq!(DispatchError::ZeroBalance.message(), "origin balance should be non-zero");
}

#[test]
fn header_numbers_are_read_after_the_parent_hash() {
    assert_eq!(header_number(&header(7)), Some(7));
    assert_eq!(header_number(&header(300)), Some(300));
    assert_eq!(header_number(&vec![0u8; 32]), None);
    // Not the shortest encoding of 7: refused.
    let mut long = vec![0u8; 32];
    long.extend_from_slice(&[29, 0]);
    assert_eq!(header_number(&long), None);
}

#[test]
fn try_update_client_refuses_what_would_panic() {
    let mut dao = empty_dao();
    dao.recv_packet(Origin::Signed(3), vec![1, 2, 3], vec![], 5).unwrap();
    assert_eq!(dao.try_update_client(Origin::Signed(4), 0, vec![1, 2], &vec![]), None);
    // No plugin installed for the packet waiting at block 5.
    assert_eq!(dao.try_update_client(Origin::Signed(4), 0, header(5), &vec![false]), None);
    assert_eq!(dao.head(5), None);
    dao.initialize_plugin(Origin::Root, 0, vec![]).unwrap();
    assert_eq!(dao.try_update_client(Origin::Signed(4), 0, header(5), &vec![false]), Some(Ok(())));
    assert!(dao.queued_packets(5).is_none());
    assert_eq!(dao.try_update_client(Origin::Unsigned, 0, vec![], &vec![]), Some(Err(DispatchError::NotSigned)));
}

#[test]
fn relayed_amounts_are_not_minted_into_an_issued_asset() {
    // Genesis issues assets 0, 1 and 2: the relayed asset already has its fixed total.
    let mut dao = MultiDao::genesis(&config(vec![(1, 200_000), (2, 200_000), (3, 200_000)], vec![]));
    dao.initialize_plugin(Origin::Root, 0, vec![]).unwrap();
    dao.recv_packet(Origin::Signed(3), 77u128.to_le_bytes().to_vec(), vec![], 9).unwrap();
    assert!(dao.client_update_is_in_range(9, &vec![true]));
    dao.update_client(Origin::Signed(3), 0, header(9), &vec![true]).unwrap();
    assert_eq!(dao.get_asset_total_supply(2), 200_000);
    assert_eq!(dao.get_asset_balance((2, 10)), 0);
    assert!(dao.queued_packets(9).is_none());
    assert_eq!(dao.head(9), Some(&header(9)));
}

#[test]
fn mint_refused_into_issued_asset() {
    let mut dao = empty_dao();
    dao._issue(5, 1000);
    assert_eq!(dao.mint_asset(6, 0, 10), Err(DispatchError::SupplyFixed));
    assert_eq!(dao.get_asset_total_supply(0), 1000);
    assert_eq!(dao.get_asset_balance((0, 10)), 0);
    assert_eq!(dao.mint_asset(6, 1, 10), Ok(()));
    assert_eq!(dao.get_asset_total_supply(1), 10);
    assert_eq!(dao.get_asset_balance((1, 10)), 10);
    assert_eq!(dao.get_asset_balance((1, 6)), 0);
    assert_eq!(DispatchError::SupplyFixed.message(), "an issued asset has a fixed supply");
}

#[test]
fn transferring_back_restores_holdings() {
    let mut dao = empty_dao();
    dao.issue(Origin::Signed(5), 1000).unwrap();
    dao.transfer(5, 0, 6, 300).unwrap();
    dao.transfer(6, 0, 5, 300).unwrap();
    assert_eq!(dao.get_asset_balance((0, 5)), 1000);
    assert_eq!(dao.get_asset_balance((0, 6)), 0);
}
