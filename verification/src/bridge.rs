//! The validator-side bridge: what it does with each account update the validator
//! reports. The caller writes each forwarded update to the shared-memory ring buffer.
use crate::pubkey::Pubkey;
use vstd::prelude::*;

verus! {

/// Errors reported back to the validator.
#[derive(Debug, Clone, Copy, PartialEq, Eq, Structural)]
pub enum BridgeError {
    /// The update's pubkey is not 32 bytes long.
    InvalidPubkeyLength,
}

/// Forwards account updates once its ring buffer is set up; must never block the validator.
#[derive(Debug)]
pub struct GeyserBridgePlugin {
    ring_buffer_ready: bool,
}

impl Default for GeyserBridgePlugin {
    fn default() -> (p: Self)
        ensures
            !p.ready(),
    {
        GeyserBridgePlugin::new()
    }
}

impl GeyserBridgePlugin {
    /// Whether the ring buffer has been set up.
    pub closed spec fn ready(&self) -> bool {
        self.ring_buffer_ready
    }

    /// A bridge without a ring buffer yet.
    pub fn new() -> (p: Self)
        ensures
            !p.ready(),
    {
        GeyserBridgePlugin { ring_buffer_ready: false }
    }

    /// Records that the ring buffer was created; updates are forwarded from now on.
    pub fn init_ring_buffer(&mut self)
        ensures
            final(self).ready(),
    {
        self.ring_buffer_ready = true;
    }

    /// Whether updates are forwarded.
    pub fn has_ring_buffer(&self) -> (r: bool)
        ensures
            r == self.ready(),
    {
        self.ring_buffer_ready
    }

    /// The plugin's name.
    pub fn name(&self) -> (n: &'static str)
        ensures
            n@ == "SynapseHyperplaneGeyserBridge"@,
    {
        "SynapseHyperplaneGeyserBridge"
    }

    /// The pubkey of an update to forward: fails on a pubkey that is not 32 bytes long,
    /// and forwards nothing while there is no ring buffer.
    pub fn update_account(&self, pubkey: &[u8]) -> (r: Result<Option<[u8; 32]>, BridgeError>)
        ensures
            r is Err <==> pubkey@.len() != 32,
            r matches Ok(fw) ==> (fw is Some <==> self.ready()),
            r matches Ok(Some(k)) ==> k@ == pubkey@,
    {
        match Pubkey::try_from_slice(pubkey) {
            None => Err(BridgeError::InvalidPubkeyLength),
            Some(key) => {
                if self.ring_buffer_ready {
                    Ok(Some(key.0))
                } else {
                    Ok(None)
                }
            },
        }
    }
}

} // verus!
