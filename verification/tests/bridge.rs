use hyperplane::bridge::{BridgeError, GeyserBridgePlugin};

#[test]
fn bridge_forwards_only_with_a_ring_buffer() {
    let mut plugin = GeyserBridgePlugin::default();
    assert_eq!(plugin.name(), "SynapseHyperplaneGeyserBridge");
    assert!(!plugin.has_ring_buffer());
    let key = [7u8; 32];
    assert_eq!(plugin.update_account(&key), Ok(None));
    plugin.init_ring_buffer();
    assert!(plugin.has_ring_buffer());
    assert_eq!(plugin.update_account(&key), Ok(Some(key)));
}

#[test]
fn bridge_rejects_short_pubkeys() {
    let mut plugin = GeyserBridgePlugin::new();
    plugin.init_ring_buffer();
    assert_eq!(plugin.update_account(&[1u8; 31]), Err(BridgeError::InvalidPubkeyLength));
    assert_eq!(plugin.update_account(&[]), Err(BridgeError::InvalidPubkeyLength));
}
