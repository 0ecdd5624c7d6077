use multidao::calls::{Metadata, MetadataError, ModuleCalls, ModuleMetadata, NodeRuntime, IBC_MODULE};

fn ibc_module() -> ModuleMetadata {
    ModuleMetadata {
        index: 7,
        name: IBC_MODULE.to_string(),
        calls: vec![
            ("update_client".to_string(), 3),
            ("recv_packet".to_string(), 4),
            ("recv_packet".to_string(), 9),
        ],
    }
}

#[test]
fn recv_packet_encodes_module_call_and_arguments() {
    let calls: ModuleCalls<NodeRuntime> = ModuleCalls::new(ibc_module());
    let encoded = calls.recv_packet(vec![1, 2, 3], vec![vec![4], vec![5, 6]], 7).unwrap();
    assert_eq!(encoded.0, vec![7, 4, 12, 1, 2, 3, 8, 4, 4, 8, 5, 6, 7, 0, 0, 0]);
}

#[test]
fn update_client_encodes_module_call_and_arguments() {
    let calls: ModuleCalls<NodeRuntime> = ModuleCalls::new(ibc_module());
    let encoded = calls.update_client(0x0102, vec![9, 8]).unwrap();
    assert_eq!(encoded.0, vec![7, 3, 2, 1, 0, 0, 8, 9, 8]);
}

#[test]
fn transfer_dot_encodes_amount_little_endian() {
    let module = ModuleMetadata { index: 5, name: "TemplateModule".to_string(), calls: vec![("transfer_dot".to_string(), 0)] };
    let calls: ModuleCalls<NodeRuntime> = ModuleCalls::new(module);
    let encoded = calls.transfer_dot(0x0201).unwrap();
    let mut expected = vec![5, 0, 1, 2];
    expected.extend(vec![0u8; 14]);
    assert_eq!(encoded.0, expected);
}

#[test]
fn missing_call_is_reported() {
    let calls: ModuleCalls<NodeRuntime> = ModuleCalls::new(ibc_module());
    assert_eq!(calls.transfer_dot(1).err(), Some(MetadataError::CallNotFound("transfer_dot")));
}

#[test]
fn modules_are_found_by_name() {
    let metadata = Metadata { modules: vec![ibc_module()] };
    assert_eq!(metadata.module("MultiDAO").map(|m| m.index), Ok(7));
    assert_eq!(
        metadata.module("TemplateModule").map(|m| m.index),
        Err(MetadataError::ModuleNotFound("TemplateModule".to_string()))
    );
    let module = metadata.module("MultiDAO").unwrap();
    assert_eq!(module.call_index("recv_packet"), Ok(4));
    assert_eq!(module.call("update_client", vec![1]).map(|e| e.0), Ok(vec![7, 3, 1]));
}

#[test]
fn long_header_gets_two_byte_length() {
    let calls: ModuleCalls<NodeRuntime> = ModuleCalls::new(ibc_module());
    let encoded = calls.update_client(1, vec![5u8; 100]).unwrap();
    let mut expected = vec![7, 3, 1, 0, 0, 0, 0x91, 0x01];
    expected.extend(vec![5u8; 100]);
    assert_eq!(encoded.0, expected);
}

#[test]
fn module_calls_are_taken_from_metadata() {
    let metadata = Metadata { modules: vec![ibc_module()] };
    let calls: ModuleCalls<NodeRuntime> = metadata.clone().module_calls("MultiDAO").unwrap();
    assert_eq!(calls.module.index, 7);
    let missing: Result<ModuleCalls<NodeRuntime>, MetadataError> = metadata.module_calls("Nope");
    assert_eq!(missing.err(), Some(MetadataError::ModuleNotFound("Nope".to_string())));
}
