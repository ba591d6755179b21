//! The decisions of the delta consumer: when it may start, when a segment must be
//! opened or flushed, and what it has counted. Reading the ring buffer, writing
//! segment files and sleeping between polls are done by the caller, which reports
//! each step back here.
use crate::index::path_from;
use crate::delta::update_reducer::{same_update, UpdateReducer};
use crate::location::{AccountLocation, StorageType};
use crate::pubkey::Pubkey;
use std::path::PathBuf;
use vstd::prelude::*;
use vstd::string::StringExecFns;

verus! {

/// Delta consumer configuration.
#[derive(Debug, Clone)]
pub struct DeltaConsumerConfig {
    /// Path of the ring buffer file.
    pub ring_buffer_path: String,
    /// Directory of the delta segments.
    pub delta_path: PathBuf,
    /// Largest segment size before a flush.
    pub max_segment_size: u64,
    /// Ring buffer polling interval.
    pub poll_interval_ms: u64,
    /// Entries per segment before it is flushed.
    pub flush_batch_size: usize,
}

impl Default for DeltaConsumerConfig {
    fn default() -> (c: Self)
        ensures
            c.ring_buffer_path@ == "/tmp/synapse/ring_buffer.bin"@,
            c.max_segment_size == 100 * 1024 * 1024,
            c.poll_interval_ms == 10,
            c.flush_batch_size == 1000,
    {
        DeltaConsumerConfig {
            ring_buffer_path: String::from_str("/tmp/synapse/ring_buffer.bin"),
            delta_path: path_from("/tmp/synapse/delta"),
            max_segment_size: 100 * 1024 * 1024,
            poll_interval_ms: 10,
            flush_batch_size: 1000,
        }
    }
}

/// Delta consumer state.
#[derive(Debug, Clone, Copy, PartialEq, Eq, Structural)]
pub struct DeltaConsumerState {
    /// Whether the consumer runs.
    pub running: bool,
    /// First slot of the open segment; none when no segment is open.
    pub current_segment_start_slot: Option<u64>,
    /// Entries written to the open segment.
    pub current_segment_entries: u64,
    /// Updates processed in all.
    pub total_processed: u64,
    /// Failed processing rounds.
    pub total_errors: u64,
}

impl Default for DeltaConsumerState {
    fn default() -> (s: Self)
        ensures
            s == (DeltaConsumerState {
                running: false,
                current_segment_start_slot: None,
                current_segment_entries: 0,
                total_processed: 0,
                total_errors: 0,
            }),
    {
        DeltaConsumerState {
            running: false,
            current_segment_start_slot: None,
            current_segment_entries: 0,
            total_processed: 0,
            total_errors: 0,
        }
    }
}

/// Delta consumer statistics.
#[derive(Debug, Clone, Copy, PartialEq, Eq, Structural)]
pub struct DeltaConsumerStats {
    pub running: bool,
    pub total_processed: u64,
    pub total_errors: u64,
    pub current_segment_entries: u64,
    pub pending_updates: usize,
}

/// Delta consumer errors.
#[derive(Debug)]
pub enum DeltaConsumerError {
    /// A file operation failed.
    Io(std::io::Error),
    /// The consumer was started twice.
    AlreadyRunning,
    /// A ring buffer entry carried a pubkey that is not 32 bytes long.
    InvalidPubkey,
}

/// The delta consumer's configuration and state.
pub struct DeltaConsumer {
    config: DeltaConsumerConfig,
    state: DeltaConsumerState,
}

/// The delta-layer location of an update before the segment writer places it:
/// file and offsets 0, sizes the data length cut to 32 bits.
pub open spec fn delta_location_spec(slot: u64, write_version: u64, data_len: usize) -> AccountLocation {
    AccountLocation {
        file_id: 0,
        offset: 0,
        stored_size: data_len as u32,
        data_offset: 0,
        data_len: data_len as u32,
        slot,
        write_version,
        storage_type: StorageType::Delta,
    }
}

/// The state after writing one entry at `slot`: a new segment starting at `slot` is
/// opened when none is open, and the open segment counts one more entry.
pub open spec fn after_write(s: DeltaConsumerState, slot: u64) -> DeltaConsumerState {
    if s.current_segment_start_slot.is_none() {
        DeltaConsumerState { current_segment_start_slot: Some(slot), current_segment_entries: 1, ..s }
    } else {
        DeltaConsumerState { current_segment_entries: (s.current_segment_entries + 1) as u64, ..s }
    }
}

/// The location an update read from the ring buffer is filed under.
pub fn delta_location(slot: u64, write_version: u64, data_len: usize) -> (loc: AccountLocation)
    ensures
        loc == delta_location_spec(slot, write_version, data_len),
{
    AccountLocation {
        file_id: 0,
        offset: 0,
        stored_size: data_len as u32,
        data_offset: 0,
        data_len: data_len as u32,
        slot,
        write_version,
        storage_type: StorageType::Delta,
    }
}

impl DeltaConsumer {
    pub closed spec fn spec_config(&self) -> &DeltaConsumerConfig {
        &self.config
    }

    pub closed spec fn spec_state(&self) -> DeltaConsumerState {
        self.state
    }

    /// A stopped consumer with nothing counted.
    pub fn new(config: DeltaConsumerConfig) -> (c: Self)
        ensures
            c.spec_state() == (DeltaConsumerState {
                running: false,
                current_segment_start_slot: None,
                current_segment_entries: 0,
                total_processed: 0,
                total_errors: 0,
            }),
            c.spec_config().flush_batch_size == config.flush_batch_size,
    {
        DeltaConsumer { config, state: DeltaConsumerState::default() }
    }

    /// The configuration.
    pub fn config(&self) -> (c: &DeltaConsumerConfig)
        ensures
            c == self.spec_config(),
    {
        &self.config
    }

    /// The state.
    pub fn state(&self) -> (s: DeltaConsumerState)
        ensures
            s == self.spec_state(),
    {
        self.state
    }

    /// Starts the consumer; a running consumer refuses.
    pub fn start(&mut self) -> (r: Result<(), DeltaConsumerError>)
        ensures
            old(self).spec_state().running ==> (r matches Err(DeltaConsumerError::AlreadyRunning))
                && final(self).spec_state() == old(self).spec_state(),
            !old(self).spec_state().running ==> r is Ok && final(self).spec_state() == (
            DeltaConsumerState { running: true, ..old(self).spec_state() }),
            final(self).spec_config() == old(self).spec_config(),
    {
        if self.state.running {
            return Err(DeltaConsumerError::AlreadyRunning);
        }
        self.state.running = true;
        Ok(())
    }

    /// Stops the consumer and closes the open segment. Returns the first slot of the
    /// segment that was open, which the caller finalizes.
    pub fn stop(&mut self) -> (closed: Option<u64>)
        ensures
            closed == old(self).spec_state().current_segment_start_slot,
            final(self).spec_state() == (DeltaConsumerState {
                running: false,
                current_segment_start_slot: None,
                ..old(self).spec_state()
            }),
            final(self).spec_config() == old(self).spec_config(),
    {
        self.state.running = false;
        let closed = self.state.current_segment_start_slot;
        self.state.current_segment_start_slot = None;
        closed
    }

    /// Whether the consumer runs.
    pub fn is_running(&self) -> (r: bool)
        ensures
            r == self.spec_state().running,
    {
        self.state.running
    }

    /// Whether a write at `slot` must first open a new segment, named by its first slot.
    pub fn needs_new_segment(&self) -> (r: bool)
        ensures
            r == self.spec_state().current_segment_start_slot.is_none(),
    {
        self.state.current_segment_start_slot.is_none()
    }

    /// Records a write of one entry at `slot` (see `after_write`).
    pub fn record_write(&mut self, slot: u64)
        requires
            old(self).spec_state().current_segment_start_slot.is_none()
                || old(self).spec_state().current_segment_entries < u64::MAX,
        ensures
            final(self).spec_config() == old(self).spec_config(),
            final(self).spec_state() == after_write(old(self).spec_state(), slot),
    {
        if self.state.current_segment_start_slot.is_none() {
            self.state.current_segment_start_slot = Some(slot);
            self.state.current_segment_entries = 0;
        }
        self.state.current_segment_entries = self.state.current_segment_entries + 1;
    }

    /// Adds a round's processed count to the total.
    pub fn record_processed(&mut self, processed: u64)
        requires
            old(self).spec_state().total_processed + processed <= u64::MAX,
        ensures
            final(self).spec_config() == old(self).spec_config(),
            final(self).spec_state() == (DeltaConsumerState {
                total_processed: (old(self).spec_state().total_processed + processed) as u64,
                ..old(self).spec_state()
            }),
    {
        self.state.total_processed = self.state.total_processed + processed;
    }

    /// Ends a processing round that took in `processed` entries: counts them, then closes
    /// the open segment when it has reached the flush batch size. Returns the start slot
    /// of the segment closed, if one was.
    pub fn finish_round(&mut self, processed: u64) -> (flushed: Option<u64>)
        requires
            old(self).spec_state().total_processed + processed <= u64::MAX,
        ensures
            final(self).spec_config() == old(self).spec_config(),
            ({
                let s = old(self).spec_state();
                let full = s.current_segment_start_slot.is_some() && s.current_segment_entries
                    >= old(self).spec_config().flush_batch_size;
                &&& flushed == (if full {
                    s.current_segment_start_slot
                } else {
                    None
                })
                &&& final(self).spec_state() == (DeltaConsumerState {
                    total_processed: (s.total_processed + processed) as u64,
                    current_segment_start_slot: if full {
                        None
                    } else {
                        s.current_segment_start_slot
                    },
                    current_segment_entries: if full {
                        0
                    } else {
                        s.current_segment_entries
                    },
                    ..s
                })
            }),
    {
        self.record_processed(processed);
        self.maybe_flush_segment()
    }

    /// Counts a failed processing round.
    pub fn record_error(&mut self)
        requires
            old(self).spec_state().total_errors < u64::MAX,
        ensures
            final(self).spec_config() == old(self).spec_config(),
            final(self).spec_state() == (DeltaConsumerState {
                total_errors: (old(self).spec_state().total_errors + 1) as u64,
                ..old(self).spec_state()
            }),
    {
        self.state.total_errors = self.state.total_errors + 1;
    }

    /// Whether the open segment holds at least a flush batch of entries.
    pub fn should_flush_segment(&self) -> (r: bool)
        ensures
            r == (self.spec_state().current_segment_start_slot.is_some()
                && self.spec_state().current_segment_entries >= self.spec_config().flush_batch_size),
    {
        self.state.current_segment_start_slot.is_some()
            && self.state.current_segment_entries >= self.config.flush_batch_size as u64
    }

    /// Closes the open segment when it holds a flush batch. Returns its first slot,
    /// under which the caller finalizes and registers it; otherwise nothing changes.
    pub fn maybe_flush_segment(&mut self) -> (flushed: Option<u64>)
        ensures
            final(self).spec_config() == old(self).spec_config(),
            (old(self).spec_state().current_segment_start_slot.is_some()
                && old(self).spec_state().current_segment_entries
                >= old(self).spec_config().flush_batch_size) ==> flushed
                == old(self).spec_state().current_segment_start_slot && final(self).spec_state() == (
            DeltaConsumerState {
                current_segment_start_slot: None,
                current_segment_entries: 0,
                ..old(self).spec_state()
            }),
            !(old(self).spec_state().current_segment_start_slot.is_some()
                && old(self).spec_state().current_segment_entries
                >= old(self).spec_config().flush_batch_size) ==> flushed.is_none()
                && final(self).spec_state() == old(self).spec_state(),
    {
        if self.should_flush_segment() {
            let start = self.state.current_segment_start_slot;
            self.state.current_segment_start_slot = None;
            self.state.current_segment_entries = 0;
            start
        } else {
            None
        }
    }

    /// Statistics, with the reducer's pending count supplied by the caller.
    pub fn stats(&self, pending_updates: usize) -> (s: DeltaConsumerStats)
        ensures
            s == (DeltaConsumerStats {
                running: self.spec_state().running,
                total_processed: self.spec_state().total_processed,
                total_errors: self.spec_state().total_errors,
                current_segment_entries: self.spec_state().current_segment_entries,
                pending_updates,
            }),
    {
        DeltaConsumerStats {
            running: self.state.running,
            total_processed: self.state.total_processed,
            total_errors: self.state.total_errors,
            current_segment_entries: self.state.current_segment_entries,
            pending_updates,
        }
    }
}

impl DeltaConsumer {
    /// Takes in one ring-buffer entry. A pubkey that is not 32 bytes long fails with
    /// `InvalidPubkey` and changes nothing. Otherwise the update goes to the reducer under
    /// its delta location (see `UpdateReducer::add_update`) and the entry is counted in
    /// the open segment (see `after_write`); the result is the slot under which the caller
    /// opens a new segment file before appending the entry, when no segment was open.
    pub fn ingest_entry(
        &mut self,
        reducer: &mut UpdateReducer,
        pubkey: &[u8],
        slot: u64,
        write_version: u64,
        data_len: usize,
    ) -> (r: Result<Option<u64>, DeltaConsumerError>)
        requires
            old(reducer).wf(),
            old(reducer).dedups() < u64::MAX,
            old(self).spec_state().current_segment_start_slot.is_none()
                || old(self).spec_state().current_segment_entries < u64::MAX,
        ensures
            final(self).spec_config() == old(self).spec_config(),
            final(reducer).wf(),
            pubkey@.len() != 32 ==> (r matches Err(DeltaConsumerError::InvalidPubkey))
                && final(self).spec_state() == old(self).spec_state() && final(reducer).pending()
                == old(reducer).pending() && final(reducer).dedups() == old(reducer).dedups(),
            pubkey@.len() == 32 ==> (r matches Ok(open) && open == (if old(
                self,
            ).spec_state().current_segment_start_slot.is_none() {
                Some(slot)
            } else {
                None
            })) && final(self).spec_state() == after_write(old(self).spec_state(), slot),
            forall|pk: Pubkey| pk.0@ == pubkey@ ==> {
                &&& final(reducer).pending().dom() == old(reducer).pending().dom().insert(pk)
                &&& forall|k: Pubkey| k != pk && #[trigger] old(reducer).pending().contains_key(k)
                    ==> final(reducer).pending()[k] == old(reducer).pending()[k]
                &&& final(reducer).pending()[pk].write_version == (if old(reducer).pending().contains_key(pk)
                    && old(reducer).pending()[pk].write_version >= write_version {
                    old(reducer).pending()[pk].write_version
                } else {
                    write_version
                })
                &&& (!old(reducer).pending().contains_key(pk) || write_version > old(reducer).pending()[pk].write_version)
                    ==> same_update(
                    final(reducer).pending()[pk],
                    slot,
                    write_version,
                    delta_location_spec(slot, write_version, data_len),
                )
                &&& (old(reducer).pending().contains_key(pk) && write_version <= old(reducer).pending()[pk].write_version)
                    ==> final(reducer).pending()[pk] == old(reducer).pending()[pk]
                &&& final(reducer).dedups() == old(reducer).dedups() + (if old(reducer).pending().contains_key(pk) {
                    1int
                } else {
                    0int
                })
            },
            final(reducer).flushed() == old(reducer).flushed(),
            final(reducer).threshold() == old(reducer).threshold(),
    {
        let pk = match Pubkey::try_from_slice(pubkey) {
            Some(pk) => pk,
            None => {
                return Err(DeltaConsumerError::InvalidPubkey);
            },
        };
        let location = delta_location(slot, write_version, data_len);
        reducer.add_update(pk, slot, write_version, location);
        let open = if self.needs_new_segment() {
            Some(slot)
        } else {
            None
        };
        self.record_write(slot);
        proof {
            assert forall|q: Pubkey| q.0@ == pubkey@ implies q == pk by {
                assert forall|i: int| 0 <= i < 32 implies q.0[i] == pk.0[i] by {
                    assert(q.0@[i] == pk.0@[i]);
                }
                assert(q.0 =~= pk.0);
            }
        }
        Ok(open)
    }
}

} // verus!
