//! The runtime's index manager, which feeds each account update to the secondary
//! indexes, and the runtime's configuration and counters.
use crate::account::AccountView;
use crate::index::data_size_index::DataSizeIndex;
use crate::index::discriminator_index::{Discriminator, DiscriminatorIndex};
use crate::index::token_mint_index::TokenMintIndex;
use crate::index::token_owner_index::TokenOwnerIndex;
use crate::index::{path_from, path_join};
use crate::clock::{instant_now, secs_since};
use crate::pubkey::Pubkey;
use crate::reconciler::SlotReconciler;
use std::path::PathBuf;
use std::time::Instant;
use vstd::prelude::*;
use vstd::string::StringExecFns;

verus! {

/// Which indexes the manager keeps, and where.
#[derive(Debug, Clone)]
pub struct IndexManagerConfig {
    /// Directory of the index files.
    pub index_path: PathBuf,
    pub enable_program_index: bool,
    pub enable_token_owner: bool,
    pub enable_token_mint: bool,
    pub enable_data_size: bool,
    pub enable_memcmp: bool,
    pub enable_discriminator: bool,
}

impl Default for IndexManagerConfig {
    fn default() -> (c: Self)
        ensures
            c.enable_program_index && c.enable_token_owner && c.enable_token_mint,
            c.enable_data_size && c.enable_memcmp && c.enable_discriminator,
    {
        IndexManagerConfig {
            index_path: path_from("/tmp/synapse/indexes"),
            enable_program_index: true,
            enable_token_owner: true,
            enable_token_mint: true,
            enable_data_size: true,
            enable_memcmp: true,
            enable_discriminator: true,
        }
    }
}

/// Counters of the index manager.
#[derive(Debug, Clone, Copy)]
pub struct IndexManagerState {
    /// Updates fed to the indexes in full.
    pub total_indexed: u64,
    /// Updates received.
    pub total_updates: u64,
}

/// The address of the SPL token program, owner of every token account.
pub open spec fn token_program_id() -> Pubkey {
    Pubkey(
        [
            6, 167, 213, 23, 166, 155, 76, 121, 104, 160, 73, 198, 153, 124, 57, 121, 87, 101,
            152, 199, 246, 121, 126, 178, 126, 126, 39, 39, 34, 118, 153, 81,
        ],
    )
}

fn token_program() -> (pk: Pubkey)
    ensures
        pk == token_program_id(),
{
    Pubkey(
        [
            6, 167, 213, 23, 166, 155, 76, 121, 104, 160, 73, 198, 153, 124, 57, 121, 87, 101,
            152, 199, 246, 121, 126, 178, 126, 126, 39, 39, 34, 118, 153, 81,
        ],
    )
}

/// Whether the account is a token account: owned by the token program, with at least the
/// 72 bytes of mint, owner and amount.
pub open spec fn is_token_account(account: AccountView) -> bool {
    account.owner == token_program_id() && account.data@.len() >= 72
}

fn read_pubkey(data: &Vec<u8>, from: usize) -> (pk: Pubkey)
    requires
        from + 32 <= data@.len(),
    ensures
        pk.0@ == data@.subrange(from as int, from + 32),
{
    let n = data.len();
    let mut a = [0u8; 32];
    let mut i: usize = 0;
    while i < 32
        invariant
            n == data@.len(),
            from + 32 <= data@.len(),
            i <= 32,
            a@.len() == 32,
            forall|j: int| 0 <= j < i ==> a@[j] == data@[from + j],
        decreases 32 - i,
    {
        a[i] = data[from + i];
        i = i + 1;
    }
    assert(a@ =~= data@.subrange(from as int, from + 32));
    Pubkey(a)
}

/// Feeds account updates to the token owner, token mint, data size and discriminator
/// indexes, each kept only where the configuration enables it. No program index and no
/// memcmp index are kept here: `enable_program_index` and `enable_memcmp` are carried in
/// the configuration and read by nothing.
pub struct IndexManager {
    config: IndexManagerConfig,
    token_owner_index: Option<TokenOwnerIndex>,
    token_mint_index: Option<TokenMintIndex>,
    data_size_index: Option<DataSizeIndex>,
    discriminator_index: Option<DiscriminatorIndex>,
    state: IndexManagerState,
}

impl IndexManager {
    pub closed spec fn owners(&self) -> Option<TokenOwnerIndex> {
        self.token_owner_index
    }

    pub closed spec fn mints(&self) -> Option<TokenMintIndex> {
        self.token_mint_index
    }

    pub closed spec fn sizes(&self) -> Option<DataSizeIndex> {
        self.data_size_index
    }

    pub closed spec fn tags(&self) -> Option<DiscriminatorIndex> {
        self.discriminator_index
    }

    pub closed spec fn counters(&self) -> IndexManagerState {
        self.state
    }

    /// Every index kept is well formed.
    pub open spec fn wf(&self) -> bool {
        &&& self.owners() matches Some(ix) ==> ix.wf()
        &&& self.mints() matches Some(ix) ==> ix.wf()
        &&& self.sizes() matches Some(ix) ==> ix.wf()
        &&& self.tags() matches Some(ix) ==> ix.wf()
    }

    /// Every index kept, and the counters, can take one more account.
    pub open spec fn has_room(&self) -> bool {
        &&& self.counters().total_updates < u64::MAX
        &&& self.counters().total_indexed < u64::MAX
        &&& self.owners() matches Some(ix) ==> ix.total() < u64::MAX && ix.ids().len() < u64::MAX
        &&& self.mints() matches Some(ix) ==> ix.total() < u64::MAX && ix.ids().len() < u64::MAX
        &&& self.sizes() matches Some(ix) ==> ix.total() < u64::MAX && ix.ids().len() < u64::MAX
        &&& self.tags() matches Some(ix) ==> ix.total() < u64::MAX && ix.ids().len() < u64::MAX
    }

    /// A manager with an empty index under `{index_path}/{name}` for each index enabled;
    /// the program and memcmp flags make no index here.
    pub fn new(config: IndexManagerConfig) -> (m: Self)
        ensures
            m.wf(),
            m.owners() is Some <==> config.enable_token_owner,
            m.mints() is Some <==> config.enable_token_mint,
            m.sizes() is Some <==> config.enable_data_size,
            m.tags() is Some <==> config.enable_discriminator,
            m.owners() matches Some(ix) ==> ix.total() == 0 && ix.ids().len() == 0,
            m.mints() matches Some(ix) ==> ix.total() == 0 && ix.ids().len() == 0,
            m.sizes() matches Some(ix) ==> ix.total() == 0 && ix.ids().len() == 0,
            m.tags() matches Some(ix) ==> ix.total() == 0 && ix.ids().len() == 0,
            m.counters().total_indexed == 0,
            m.counters().total_updates == 0,
    {
        let token_owner_index = if config.enable_token_owner {
            Some(TokenOwnerIndex::new(path_join(&config.index_path, "token_owner_index")))
        } else {
            None
        };
        let token_mint_index = if config.enable_token_mint {
            Some(TokenMintIndex::new(path_join(&config.index_path, "token_mint_index")))
        } else {
            None
        };
        let data_size_index = if config.enable_data_size {
            Some(DataSizeIndex::new(path_join(&config.index_path, "data_size_index")))
        } else {
            None
        };
        let discriminator_index = if config.enable_discriminator {
            Some(DiscriminatorIndex::new(path_join(&config.index_path, "discriminator_index")))
        } else {
            None
        };
        IndexManager {
            config,
            token_owner_index,
            token_mint_index,
            data_size_index,
            discriminator_index,
            state: IndexManagerState { total_indexed: 0, total_updates: 0 },
        }
    }
}

fn read_discriminator(data: &Vec<u8>) -> (d: Discriminator)
    requires
        8 <= data@.len(),
    ensures
        d@ == data@.take(8),
{
    let mut a = [0u8; 8];
    let mut i: usize = 0;
    while i < 8
        invariant
            8 <= data@.len(),
            i <= 8,
            a@.len() == 8,
            forall|j: int| 0 <= j < i ==> a@[j] == data@[j],
        decreases 8 - i,
    {
        a[i] = data[i];
        i = i + 1;
    }
    assert(a@ =~= data@.take(8));
    a
}

impl IndexManager {
    /// Feeds one account update to the indexes. A token account (owned by the token
    /// program, 72 bytes or more) is filed under the owner in bytes 32..64 and the mint in
    /// bytes 0..32; every account is filed under its data size, and one of 8 bytes or more
    /// under its first 8 bytes. Both counters go up by one. No program or memcmp index is
    /// updated, as the manager keeps none.
    pub fn update_account(&mut self, account: &AccountView, slot: u64)
        requires
            old(self).wf(),
            old(self).has_room(),
        ensures
            final(self).wf(),
            final(self).counters().total_updates == old(self).counters().total_updates + 1,
            final(self).counters().total_indexed == old(self).counters().total_indexed + 1,
            final(self).owners() is Some <==> old(self).owners() is Some,
            final(self).mints() is Some <==> old(self).mints() is Some,
            final(self).sizes() is Some <==> old(self).sizes() is Some,
            final(self).tags() is Some <==> old(self).tags() is Some,
            old(self).owners() matches Some(o) ==> final(self).owners() matches Some(n) && if is_token_account(*account) {
                &&& n.owner_of().remove(account.pubkey) == o.owner_of().remove(account.pubkey)
                &&& n.owner_of().contains_key(account.pubkey)
                &&& n.owner_of()[account.pubkey].0@ == account.data@.subrange(32, 64)
                &&& n.total() == (if o.owner_of().contains_key(account.pubkey) {
                    o.total()
                } else {
                    (o.total() + 1) as u64
                })
            } else {
                n == o
            },
            old(self).mints() matches Some(o) ==> final(self).mints() matches Some(n) && if is_token_account(*account) {
                &&& n.mint_of().remove(account.pubkey) == o.mint_of().remove(account.pubkey)
                &&& n.mint_of().contains_key(account.pubkey)
                &&& n.mint_of()[account.pubkey].0@ == account.data@.subrange(0, 32)
                &&& n.total() == (if o.mint_of().contains_key(account.pubkey) {
                    o.total()
                } else {
                    (o.total() + 1) as u64
                })
            } else {
                n == o
            },
            old(self).sizes() matches Some(o) ==> final(self).sizes() matches Some(n)
                && n.size_of() == o.size_of().insert(account.pubkey, account.data@.len() as u64)
                && n.total() == (if o.size_of().contains_key(account.pubkey) {
                    o.total()
                } else {
                    (o.total() + 1) as u64
                }),
            old(self).tags() matches Some(o) ==> final(self).tags() matches Some(n) && if account.data@.len() >= 8 {
                &&& n.discriminator_of().remove(account.pubkey) == o.discriminator_of().remove(account.pubkey)
                &&& n.discriminator_of().contains_key(account.pubkey)
                &&& n.discriminator_of()[account.pubkey]@ == account.data@.take(8)
                &&& n.total() == (if o.discriminator_of().contains_key(account.pubkey) {
                    o.total()
                } else {
                    (o.total() + 1) as u64
                })
            } else {
                n == o
            },
    {
        self.state.total_updates = self.state.total_updates + 1;
        let pubkey = account.pubkey;
        let data: &Vec<u8> = &account.data;
        let len = data.len();
        if account.owner.eq_key(&token_program()) && len >= 72 {
            let mint = read_pubkey(data, 0);
            let token_owner = read_pubkey(data, 32);
            match self.token_owner_index.take() {
                Some(mut ix) => {
                    ix.add_token_account(pubkey, token_owner, slot);
                    self.token_owner_index = Some(ix);
                },
                None => {},
            }
            match self.token_mint_index.take() {
                Some(mut ix) => {
                    ix.add_token_account(pubkey, mint, slot);
                    self.token_mint_index = Some(ix);
                },
                None => {},
            }
        }
        match self.data_size_index.take() {
            Some(mut ix) => {
                ix.add_account(pubkey, len as u64, slot);
                self.data_size_index = Some(ix);
            },
            None => {},
        }
        if len >= 8 {
            let disc = read_discriminator(data);
            match self.discriminator_index.take() {
                Some(mut ix) => {
                    ix.add_account(pubkey, disc, slot);
                    self.discriminator_index = Some(ix);
                },
                None => {},
            }
        }
        self.state.total_indexed = self.state.total_indexed + 1;
    }

    /// Takes the account out of the token owner, token mint and data size indexes.
    pub fn remove_account(&mut self, pubkey: &Pubkey)
        requires
            old(self).wf(),
        ensures
            final(self).wf(),
            final(self).counters() == old(self).counters(),
            final(self).tags() == old(self).tags(),
            final(self).owners() is Some <==> old(self).owners() is Some,
            final(self).mints() is Some <==> old(self).mints() is Some,
            final(self).sizes() is Some <==> old(self).sizes() is Some,
            old(self).owners() matches Some(o) ==> final(self).owners() matches Some(n)
                && n.owner_of() == o.owner_of().remove(*pubkey),
            old(self).mints() matches Some(o) ==> final(self).mints() matches Some(n)
                && n.mint_of() == o.mint_of().remove(*pubkey),
            old(self).sizes() matches Some(o) ==> final(self).sizes() matches Some(n)
                && n.size_of() == o.size_of().remove(*pubkey),
    {
        match self.token_owner_index.take() {
            Some(mut ix) => {
                ix.remove_token_account(pubkey);
                self.token_owner_index = Some(ix);
            },
            None => {},
        }
        match self.token_mint_index.take() {
            Some(mut ix) => {
                ix.remove_token_account(pubkey);
                self.token_mint_index = Some(ix);
            },
            None => {},
        }
        match self.data_size_index.take() {
            Some(mut ix) => {
                ix.remove_account(pubkey);
                self.data_size_index = Some(ix);
            },
            None => {},
        }
    }

    /// The counters.
    pub fn stats(&self) -> (s: IndexManagerState)
        ensures
            s == self.counters(),
    {
        self.state
    }

    /// The data size index, where kept.
    pub fn data_size_index(&self) -> (r: Option<&DataSizeIndex>)
        ensures
            r matches Some(ix) ==> self.sizes() == Some(*ix),
            r is None <==> self.sizes() is None,
    {
        match &self.data_size_index {
            Some(ix) => Some(ix),
            None => None,
        }
    }

    /// The discriminator index, where kept.
    pub fn discriminator_index(&self) -> (r: Option<&DiscriminatorIndex>)
        ensures
            r matches Some(ix) ==> self.tags() == Some(*ix),
            r is None <==> self.tags() is None,
    {
        match &self.discriminator_index {
            Some(ix) => Some(ix),
            None => None,
        }
    }
}

/// Configuration of the runtime.
#[derive(Debug, Clone)]
pub struct RuntimeConfig {
    /// Path of the update ring buffer.
    pub ring_buffer_path: String,
    /// Directory of delta segments.
    pub delta_path: PathBuf,
    /// Directory of the indexes.
    pub index_path: PathBuf,
    /// Directory of the base locator.
    pub base_locator_path: PathBuf,
    /// Query worker threads.
    pub query_workers: usize,
    /// Index update threads.
    pub index_workers: usize,
    /// Address the RPC server binds to.
    pub rpc_bind: String,
    pub enable_metrics: bool,
    pub metrics_port: u16,
}

impl Default for RuntimeConfig {
    fn default() -> (c: Self)
        ensures
            c.ring_buffer_path@ == "/dev/shm/synapse-geyser.ring"@,
            c.query_workers == 8,
            c.index_workers == 4,
            c.rpc_bind@ == "0.0.0.0:8898"@,
            c.enable_metrics,
            c.metrics_port == 9090,
    {
        RuntimeConfig {
            ring_buffer_path: String::from_str("/dev/shm/synapse-geyser.ring"),
            delta_path: path_from("/tmp/synapse/delta"),
            index_path: path_from("/tmp/synapse/indexes"),
            base_locator_path: path_from("/tmp/synapse/base-locator"),
            query_workers: 8,
            index_workers: 4,
            rpc_bind: String::from_str("0.0.0.0:8898"),
            enable_metrics: true,
            metrics_port: 9090,
        }
    }
}

/// Counters of the runtime.
#[derive(Debug, Clone, Copy)]
pub struct RuntimeStats {
    /// Updates read from the ring buffer.
    pub geysers_processed: u64,
    /// Updates fed to the indexes.
    pub accounts_indexed: u64,
    pub queries_executed: u64,
    /// Latest processed slot.
    pub current_slot: u64,
    /// Latest rooted slot.
    pub root_slot: u64,
    pub uptime_secs: u64,
}

/// The error type of the `anyhow` crate; opaque.
#[verifier::external_type_specification]
#[verifier::external_body]
pub struct ExAnyhowError(anyhow::Error);

/// The runtime's slot reconciler, index manager and counters. The worker threads that
/// feed it run outside.
pub struct SynapseRuntime {
    config: RuntimeConfig,
    slot_reconciler: SlotReconciler,
    index_manager: IndexManager,
    running: bool,
    start_time: Instant,
    geysers_processed: u64,
    queries_executed: u64,
}

impl SynapseRuntime {
    pub closed spec fn spec_reconciler(&self) -> SlotReconciler {
        self.slot_reconciler
    }

    pub closed spec fn spec_index_manager(&self) -> IndexManager {
        self.index_manager
    }

    pub closed spec fn spec_running(&self) -> bool {
        self.running
    }

    pub closed spec fn spec_geysers(&self) -> u64 {
        self.geysers_processed
    }

    pub closed spec fn spec_queries(&self) -> u64 {
        self.queries_executed
    }

    /// A stopped runtime: the reconciler rooted at slot 0, every index enabled under the
    /// configured index directory, nothing counted.
    pub fn new(config: RuntimeConfig) -> (r: Result<Self, anyhow::Error>)
        ensures
            r matches Ok(rt) && !rt.spec_running() && rt.spec_geysers() == 0 && rt.spec_queries() == 0
                && rt.spec_reconciler().spec_state().processed_slot == 0
                && rt.spec_reconciler().spec_state().root_slot == 0
                && rt.spec_index_manager().wf()
                && rt.spec_index_manager().counters().total_indexed == 0,
    {
        let index_config = IndexManagerConfig {
            index_path: config.index_path.clone(),
            enable_program_index: true,
            enable_token_owner: true,
            enable_token_mint: true,
            enable_data_size: true,
            enable_memcmp: true,
            enable_discriminator: true,
        };
        let index_manager = IndexManager::new(index_config);
        Ok(
            SynapseRuntime {
                config,
                slot_reconciler: SlotReconciler::new(0),
                index_manager,
                running: false,
                start_time: instant_now(),
                geysers_processed: 0,
                queries_executed: 0,
            },
        )
    }

    /// One update read from the ring buffer: its slot becomes the processed slot and the
    /// update is counted (wrapping at `u64::MAX`).
    pub fn record_geyser_update(&mut self, slot: u64)
        ensures
            final(self).spec_geysers() == old(self).spec_geysers().wrapping_add(1),
            final(self).spec_reconciler().spec_state() == (crate::reconciler::SlotReconcilerState {
                processed_slot: slot,
                ..old(self).spec_reconciler().spec_state()
            }),
            final(self).spec_index_manager() == old(self).spec_index_manager(),
            final(self).spec_queries() == old(self).spec_queries(),
            final(self).spec_running() == old(self).spec_running(),
    {
        self.slot_reconciler.update_processed(slot);
        self.geysers_processed = self.geysers_processed.wrapping_add(1);
    }

    /// Marks the runtime as running; the caller starts its threads.
    pub fn mark_started(&mut self)
        ensures
            final(self).spec_running(),
            final(self).spec_geysers() == old(self).spec_geysers(),
            final(self).spec_queries() == old(self).spec_queries(),
            final(self).spec_reconciler() == old(self).spec_reconciler(),
            final(self).spec_index_manager() == old(self).spec_index_manager(),
    {
        self.running = true;
    }

    /// Asks the threads to stop.
    pub fn stop(&mut self)
        ensures
            !final(self).spec_running(),
            final(self).spec_geysers() == old(self).spec_geysers(),
            final(self).spec_queries() == old(self).spec_queries(),
            final(self).spec_reconciler() == old(self).spec_reconciler(),
            final(self).spec_index_manager() == old(self).spec_index_manager(),
    {
        self.running = false;
    }

    /// Whether the runtime runs.
    pub fn is_running(&self) -> (r: bool)
        ensures
            r == self.spec_running(),
    {
        self.running
    }

    /// The counters: updates read, accounts indexed, queries run, the processed and root
    /// slots, and whole seconds since the runtime was made (a clock reading).
    pub fn stats(&self) -> (s: RuntimeStats)
        ensures
            s.geysers_processed == self.spec_geysers(),
            s.accounts_indexed == self.spec_index_manager().counters().total_indexed,
            s.queries_executed == self.spec_queries(),
            s.current_slot == self.spec_reconciler().spec_state().processed_slot,
            s.root_slot == self.spec_reconciler().spec_state().root_slot,
    {
        let index_stats = self.index_manager.stats();
        let slot_stats = self.slot_reconciler.stats();
        RuntimeStats {
            geysers_processed: self.geysers_processed,
            accounts_indexed: index_stats.total_indexed,
            queries_executed: self.queries_executed,
            current_slot: slot_stats.processed_slot,
            root_slot: slot_stats.root_slot,
            uptime_secs: secs_since(&self.start_time),
        }
    }

    /// The slot reconciler.
    pub fn slot_reconciler(&self) -> (r: &SlotReconciler)
        ensures
            *r == self.spec_reconciler(),
    {
        &self.slot_reconciler
    }

    /// The index manager.
    pub fn index_manager(&self) -> (r: &IndexManager)
        ensures
            *r == self.spec_index_manager(),
    {
        &self.index_manager
    }

    /// The index manager, to feed it.
    pub fn index_manager_mut(&mut self) -> (r: &mut IndexManager)
        ensures
            *r == old(self).spec_index_manager(),
            final(self).spec_index_manager() == *final(r),
            final(self).spec_geysers() == old(self).spec_geysers(),
            final(self).spec_queries() == old(self).spec_queries(),
            final(self).spec_reconciler() == old(self).spec_reconciler(),
            final(self).spec_running() == old(self).spec_running(),
    {
        &mut self.index_manager
    }
}

} // verus!
