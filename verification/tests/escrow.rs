use multidao::calls::{ModuleCalls, ModuleMetadata, NodeRuntime};
use multidao::multidao::{GenesisConfig, MultiDao};
use multidao::dispatch::{DispatchError, Origin};
use multidao::exchangeable::{plugin_accepted, ExchangeableFunction};
use multidao::template::{DotEvent, TemplateModule};

#[test]
fn transfer_dot_locks_amount_and_reports_block() {
    let mut module = TemplateModule::new();
    module.initialize_block(42);
    assert_eq!(module.transfer_dot(Origin::Signed(1), 100), Ok(()));
    assert_eq!(module.escrow_account(1), Some(100));
    module.initialize_block(43);
    assert_eq!(module.transfer_dot(Origin::Signed(1), 7), Ok(()));
    assert_eq!(module.escrow_account(1), Some(7));
    assert_eq!(module.escrow_account(2), None);
    assert_eq!(module.block_number(), 43);
    assert_eq!(module.events().clone(), vec![DotEvent::DotTransferred(1, 100, 42), DotEvent::DotTransferred(1, 7, 43)]);
    assert_eq!(module.transfer_dot(Origin::Root, 5), Err(DispatchError::NotSigned));
}

#[test]
fn replaced_implementation_is_put_back() {
    let mut f = ExchangeableFunction::new(1u32);
    assert_eq!(f.get(), 1);
    let restore = f.replace_implementation(2);
    assert_eq!(f.get(), 2);
    restore.restore(&mut f);
    assert_eq!(f.get(), 1);
    let restore = f.replace_implementation(3);
    assert_eq!(f.get(), 3);
    restore.restore(&mut f);
    assert_eq!(f.get(), 1);
}

#[test]
fn plugin_status_zero_is_success() {
    assert!(plugin_accepted(0));
    assert!(!plugin_accepted(1));
}

#[test]
fn escrowed_amount_relayed_is_minted_on_the_other_chain() {
    let module = ModuleMetadata { index: 1, name: "TemplateModule".to_string(), calls: vec![("transfer_dot".to_string(), 0)] };
    let calls: ModuleCalls<NodeRuntime> = ModuleCalls::new(module);
    let encoded = calls.transfer_dot(123_456_789).unwrap();
    let packet = encoded.0[2..].to_vec();
    let mut dao = MultiDao::genesis(&GenesisConfig {
        collateral_rate: 150,
        owner_a: 10,
        owner_b: 11,
        owner_c: 12,
        assets: vec![],
        prices: vec![],
    });
    dao.initialize_plugin(Origin::Root, 0, vec![1]).unwrap();
    dao.recv_packet(Origin::Signed(3), packet, vec![], 9).unwrap();
    let mut header = vec![0u8; 32];
    header.push(9 * 4);
    dao.update_client(Origin::Signed(3), 0, header, &vec![true]).unwrap();
    assert_eq!(dao.get_asset_balance((2, 10)), 123_456_789);
}
