//! Pre-built indexes of the bytes at common offsets of account data, so that a
//! byte-pattern filter is a bitmap lookup instead of a scan.
use crate::bitmap::PubkeyBitmap;
use crate::collections::KeyMap;
use crate::index::byte_order::{byte_views, lemma_ascending_distinct, lemma_byte_views, lex_ascending, sort_lex};
use crate::pubkey::Pubkey;
use std::path::PathBuf;
use vstd::prelude::*;

verus! {

/// An offset that is indexed.
#[derive(Debug, Clone, Copy, PartialEq, Eq, Structural)]
pub enum CommonOffset {
    /// Offset 0, 8 bytes.
    Discriminator,
    /// Offset 32, 32 bytes.
    Owner,
    /// Offset 64, 32 bytes.
    Mint,
    /// Offset 1, 32 bytes.
    Collection,
    /// Any other offset; its size is not fixed, so nothing is indexed at it.
    Custom(usize),
}

/// The byte offset of each kind.
pub open spec fn offset_of(o: CommonOffset) -> usize {
    match o {
        CommonOffset::Discriminator => 0,
        CommonOffset::Owner => 32,
        CommonOffset::Mint => 64,
        CommonOffset::Collection => 1,
        CommonOffset::Custom(off) => off,
    }
}

/// The number of bytes indexed at each kind of offset.
pub open spec fn size_of(o: CommonOffset) -> usize {
    match o {
        CommonOffset::Discriminator => 8,
        CommonOffset::Owner => 32,
        CommonOffset::Mint => 32,
        CommonOffset::Collection => 32,
        CommonOffset::Custom(_) => 0,
    }
}

impl CommonOffset {
    /// The byte offset.
    pub fn offset(&self) -> (o: usize)
        ensures
            o == offset_of(*self),
            *self == CommonOffset::Discriminator ==> o == 0,
            *self == CommonOffset::Owner ==> o == 32,
            *self == CommonOffset::Mint ==> o == 64,
            *self == CommonOffset::Collection ==> o == 1,
            self matches CommonOffset::Custom(off) ==> o == off,
    {
        match self {
            CommonOffset::Discriminator => 0,
            CommonOffset::Owner => 32,
            CommonOffset::Mint => 64,
            CommonOffset::Collection => 1,
            CommonOffset::Custom(offset) => *offset,
        }
    }

    /// The number of bytes indexed (0 for a custom offset).
    pub fn expected_size(&self) -> (n: usize)
        ensures
            n == size_of(*self),
            *self == CommonOffset::Discriminator ==> n == 8,
            *self == CommonOffset::Owner ==> n == 32,
            *self == CommonOffset::Mint ==> n == 32,
            *self == CommonOffset::Collection ==> n == 32,
            self is Custom ==> n == 0,
    {
        match self {
            CommonOffset::Discriminator => 8,
            CommonOffset::Owner => 32,
            CommonOffset::Mint => 32,
            CommonOffset::Collection => 32,
            CommonOffset::Custom(_) => 0,
        }
    }
}

/// The offsets of the token program: discriminator, owner, mint.
pub fn token_program() -> (v: Vec<CommonOffset>)
    ensures
        v@ == seq![CommonOffset::Discriminator, CommonOffset::Owner, CommonOffset::Mint],
{
    vec![CommonOffset::Discriminator, CommonOffset::Owner, CommonOffset::Mint]
}

/// The offsets of Metaplex NFTs: discriminator, collection.
pub fn metaplex_nft() -> (v: Vec<CommonOffset>)
    ensures
        v@ == seq![CommonOffset::Discriminator, CommonOffset::Collection],
{
    vec![CommonOffset::Discriminator, CommonOffset::Collection]
}

/// The default offsets: the discriminator alone.
pub fn default_config() -> (v: Vec<CommonOffset>)
    ensures
        v@ == seq![CommonOffset::Discriminator],
{
    vec![CommonOffset::Discriminator]
}

/// The accounts under each byte string at one offset, and the insert count.
pub struct OffsetIndex {
    index: KeyMap<Vec<u8>, PubkeyBitmap>,
    entry_count: u64,
}

/// Offset index statistics.
#[derive(Debug, Clone, Copy, PartialEq, Eq, Structural)]
pub struct OffsetIndexStats {
    pub unique_keys: u64,
    pub total_entries: u64,
}

/// The ids under each byte string, and the insert count.
pub type OffsetState = (Map<Seq<u8>, Set<u64>>, u64);

/// The ids under a byte string; none for a string not indexed.
pub open spec fn ids_under(m: Map<Seq<u8>, Set<u64>>, k: Seq<u8>) -> Set<u64> {
    if m.contains_key(k) {
        m[k]
    } else {
        Set::empty()
    }
}

/// The state after an insert of `id` under `key`.
pub open spec fn state_insert(st: OffsetState, key: Seq<u8>, id: u64) -> OffsetState {
    (st.0.insert(key, ids_under(st.0, key).insert(id)), (st.1 + 1) as u64)
}

/// The state after a removal of `id` under `key`: only a string that is indexed
/// loses the id and lowers the count (not below 0).
pub open spec fn state_remove(st: OffsetState, key: Seq<u8>, id: u64) -> OffsetState {
    if st.0.contains_key(key) {
        (st.0.insert(key, st.0[key].remove(id)), if st.1 > 0 { (st.1 - 1) as u64 } else { 0 })
    } else {
        st
    }
}

/// A count as a `u64`.
fn count_u64(n: usize) -> (r: u64)
    ensures
        r == n,
{
    n as u64
}

/// A copy of the bytes.
fn bytes_to_vec(b: &[u8]) -> (v: Vec<u8>)
    ensures
        v@ == b@,
{
    let mut v: Vec<u8> = Vec::new();
    let mut i: usize = 0;
    while i < b.len()
        invariant
            i <= b@.len(),
            v@ == b@.take(i as int),
        decreases b@.len() - i,
    {
        v.push(b[i]);
        proof {
            assert(b@.take(i + 1) =~= b@.take(i as int).push(b@[i as int]));
        }
        i = i + 1;
    }
    assert(b@.take(i as int) =~= b@);
    v
}

impl OffsetIndex {
    /// The ids under each byte string.
    pub closed spec fn keys_map(&self) -> Map<Seq<u8>, Set<u64>> {
        self.index@.map_values(|b: PubkeyBitmap| b@)
    }

    /// Inserts counted (less removals that found their string).
    pub closed spec fn entries(&self) -> u64 {
        self.entry_count
    }

    /// The ids under each byte string, and the count.
    pub open spec fn state(&self) -> OffsetState {
        (self.keys_map(), self.entries())
    }

    pub closed spec fn wf(&self) -> bool {
        &&& self.index.wf()
        &&& forall|k: Seq<u8>| #[trigger] self.index@.contains_key(k) ==> self.index@[k].wf()
    }

    /// Every bitmap of a well-formed index is finite.
    pub proof fn lemma_finite(&self)
        requires
            self.wf(),
        ensures
            forall|k: Seq<u8>| (#[trigger] ids_under(self.keys_map(), k)).finite(),
    {
        assert forall|k: Seq<u8>| (#[trigger] ids_under(self.keys_map(), k)).finite() by {
            if self.index@.contains_key(k) {
                self.index@[k].lemma_wf_finite();
            }
        }
    }

    /// An empty index.
    pub fn new() -> (ix: Self)
        ensures
            ix.wf(),
            ix.state() == (Map::<Seq<u8>, Set<u64>>::empty(), 0u64),
    {
        let ix = OffsetIndex { index: KeyMap::new(), entry_count: 0 };
        assert(ix.keys_map() =~= Map::<Seq<u8>, Set<u64>>::empty());
        ix
    }

    /// Files `account_id` under `bytes`, and counts the insert.
    pub fn insert(&mut self, bytes: &[u8], account_id: u64)
        requires
            old(self).wf(),
            old(self).entries() < u64::MAX,
            ids_under(old(self).keys_map(), bytes@).len() < u64::MAX,
        ensures
            final(self).wf(),
            final(self).state() == state_insert(old(self).state(), bytes@, account_id),
    {
        let key = bytes_to_vec(bytes);
        let mut bitmap = match self.index.remove(&key) {
            Some(b) => b,
            None => PubkeyBitmap::new(),
        };
        proof {
            assert(bitmap@ == ids_under(old(self).keys_map(), bytes@));
        }
        bitmap.insert(account_id);
        self.index.insert(key, bitmap);
        self.entry_count = self.entry_count + 1;
        proof {
            assert(self.keys_map() =~= old(self).keys_map().insert(
                bytes@,
                ids_under(old(self).keys_map(), bytes@).insert(account_id),
            ));
        }
    }

    /// Takes `account_id` out of the bitmap of `bytes`; when `bytes` is indexed the
    /// count drops by one (not below 0).
    pub fn remove(&mut self, bytes: &[u8], account_id: u64)
        requires
            old(self).wf(),
        ensures
            final(self).wf(),
            final(self).state() == state_remove(old(self).state(), bytes@, account_id),
    {
        let key = bytes_to_vec(bytes);
        match self.index.remove(&key) {
            Some(mut bitmap) => {
                bitmap.remove(account_id);
                self.index.insert(key, bitmap);
                self.entry_count = self.entry_count.saturating_sub(1);
                proof {
                    assert(self.keys_map() =~= old(self).keys_map().insert(
                        bytes@,
                        old(self).keys_map()[bytes@].remove(account_id),
                    ));
                }
            },
            None => {
                proof {
                    assert(self.index@ =~= old(self).index@);
                }
            },
        }
    }

    /// A copy of the bitmap of `bytes`, if indexed.
    pub fn get(&self, bytes: &[u8]) -> (r: Option<PubkeyBitmap>)
        requires
            self.wf(),
        ensures
            r is Some <==> self.keys_map().contains_key(bytes@),
            r matches Some(b) ==> b.wf() && b@ == self.keys_map()[bytes@],
    {
        let key = bytes_to_vec(bytes);
        match self.index.get(&key) {
            Some(b) => Some(b.clone()),
            None => None,
        }
    }

    /// Every indexed byte string, each once, in ascending byte order.
    pub fn keys(&self) -> (v: Vec<Vec<u8>>)
        requires
            self.wf(),
        ensures
            lex_ascending(v@),
            v@.len() == self.keys_map().len(),
            forall|i: int| 0 <= i < v@.len() ==> self.keys_map().contains_key((#[trigger] v@[i])@),
            forall|k: Seq<u8>| #[trigger] self.keys_map().contains_key(k) ==> exists|i: int|
                0 <= i < v@.len() && v@[i]@ == k,
            forall|i: int, j: int| 0 <= i < j < v@.len() ==> (#[trigger] v@[i])@ != (#[trigger] v@[j])@,
    {
        let n = self.index.len();
        let mut v: Vec<Vec<u8>> = Vec::new();
        let mut i: usize = 0;
        while i < n
            invariant
                self.wf(),
                n == self.index.pairs().len(),
                i <= n,
                v@.len() == i,
                forall|j: int| 0 <= j < i ==> (#[trigger] v@[j])@ == self.index.pairs()[j].0@,
            decreases n - i,
        {
            let p = self.index.pair_at(i);
            v.push(bytes_to_vec(p.0.as_slice()));
            i = i + 1;
        }
        proof {
            self.index.lemma_len();
            self.index.lemma_distinct();
            assert(self.keys_map().dom() =~= self.index@.dom());
            assert forall|i: int| 0 <= i < v@.len() implies self.keys_map().contains_key((#[trigger] v@[i])@) by {
                self.index.lemma_pair_in_map(i);
            }
            assert forall|k: Seq<u8>| #[trigger] self.keys_map().contains_key(k) implies exists|i: int|
                0 <= i < v@.len() && v@[i]@ == k by {
                let j = self.index.lemma_key_in_pairs(k);
                assert(v@[j]@ == k);
            }
            lemma_byte_views(v@);
        }
        let keys = v;
        let v = sort_lex(keys);
        proof {
            lemma_byte_views(v@);
            lemma_ascending_distinct(v@);
            assert forall|i: int| 0 <= i < v@.len() implies self.keys_map().contains_key((#[trigger] v@[i])@) by {
                assert(byte_views(v@).to_set().contains(v@[i]@));
                let j = choose|j: int| 0 <= j < keys@.len() && (#[trigger] keys@[j])@ == v@[i]@;
            }
            assert forall|k: Seq<u8>| #[trigger] self.keys_map().contains_key(k) implies exists|i: int|
                0 <= i < v@.len() && v@[i]@ == k by {
                let j = choose|j: int| 0 <= j < keys@.len() && keys@[j]@ == k;
                assert(byte_views(keys@).to_set().contains(keys@[j]@));
            }
        }
        v
    }

    /// Number of indexed byte strings.
    pub fn len(&self) -> (n: usize)
        requires
            self.wf(),
        ensures
            n == self.keys_map().len(),
    {
        proof {
            assert(self.keys_map().dom() =~= self.index@.dom());
        }
        self.index.len()
    }

    /// Indexed byte strings and the insert count.
    pub fn stats(&self) -> (s: OffsetIndexStats)
        requires
            self.wf(),
        ensures
            s == (OffsetIndexStats { unique_keys: self.keys_map().len() as u64, total_entries: self.entries() }),
    {
        OffsetIndexStats { unique_keys: count_u64(self.len()), total_entries: self.entry_count }
    }
}

impl Default for OffsetIndex {
    fn default() -> (ix: Self)
        ensures
            ix.wf(),
            ix.state() == (Map::<Seq<u8>, Set<u64>>::empty(), 0u64),
    {
        Self::new()
    }
}

/// The bytes `data[start..start + len]`.
fn slice_bytes(data: &[u8], start: usize, len: usize) -> (v: Vec<u8>)
    requires
        start + len <= data@.len(),
    ensures
        v@ == data@.subrange(start as int, start + len),
{
    let mut v: Vec<u8> = Vec::new();
    let mut i: usize = 0;
    let dl = data.len();
    while i < len
        invariant
            dl == data@.len(),
            start + len <= data@.len(),
            i <= len,
            v@ == data@.subrange(start as int, start + i),
        decreases len - i,
    {
        v.push(data[start + i]);
        proof {
            assert(data@.subrange(start as int, start + i + 1) =~= data@.subrange(start as int, start + i).push(
                data@[start + i],
            ));
        }
        i = i + 1;
    }
    v
}

/// Where an offset kind reads account data, and the bytes it reads: none when the
/// kind has no fixed size or the data is too short.
pub open spec fn key_at(o: CommonOffset, data: Seq<u8>) -> Option<(usize, Seq<u8>)> {
    if size_of(o) == 0 || data.len() < offset_of(o) + size_of(o) {
        None
    } else {
        Some((offset_of(o), data.subrange(offset_of(o) as int, offset_of(o) + size_of(o))))
    }
}

/// Each kind reads the bytes its layout puts there: the 8-byte discriminator at 0,
/// the owner at 32, the mint at 64 and the collection key at 1, 32 bytes each, when the
/// data is long enough; a custom offset is not read.
pub proof fn lemma_offset_layout(data: Seq<u8>, off: usize)
    ensures
        data.len() >= 8 ==> key_at(CommonOffset::Discriminator, data) == Some((0usize, data.subrange(0, 8))),
        data.len() >= 64 ==> key_at(CommonOffset::Owner, data) == Some((32usize, data.subrange(32, 64))),
        data.len() >= 96 ==> key_at(CommonOffset::Mint, data) == Some((64usize, data.subrange(64, 96))),
        data.len() >= 33 ==> key_at(CommonOffset::Collection, data) == Some((1usize, data.subrange(1, 33))),
        data.len() < 33 ==> key_at(CommonOffset::Collection, data) is None,
        key_at(CommonOffset::Custom(off), data) is None,
{
}

/// Inserting an account files it, at every kind's offset, under the bytes the kind
/// reads there: those bytes lead to the account whatever kinds follow.
pub proof fn lemma_inserted_account_found(
    v: Map<usize, OffsetState>,
    kinds: Seq<CommonOffset>,
    id: u64,
    data: Seq<u8>,
    i: int,
)
    requires
        0 <= i < kinds.len(),
        key_at(kinds[i], data) is Some,
    ensures
        ({
            let (off, key) = key_at(kinds[i], data)->0;
            let after = accel_insert(v, kinds, id, data);
            &&& after.contains_key(off)
            &&& after[off].0.contains_key(key)
            &&& after[off].0[key].contains(id)
        }),
    decreases kinds.len(),
{
    let (off, key) = key_at(kinds[i], data)->0;
    if i < kinds.len() - 1 {
        assert(kinds.drop_last()[i] == kinds[i]);
        lemma_inserted_account_found(v, kinds.drop_last(), id, data, i);
        let v1 = accel_insert(v, kinds.drop_last(), id, data);
        match key_at(kinds.last(), data) {
            None => {},
            Some((off2, key2)) => {
                if off2 == off {
                    assert(ids_under(state_at(v1, off).0, key).contains(id));
                }
            },
        }
    }
}

/// The state of the index at `off`; an empty one when there is none.
pub open spec fn state_at(v: Map<usize, OffsetState>, off: usize) -> OffsetState {
    if v.contains_key(off) {
        v[off]
    } else {
        (Map::empty(), 0)
    }
}

/// The indexes after an account is inserted at each of the kinds offsets, in turn.
pub open spec fn accel_insert(
    v: Map<usize, OffsetState>,
    kinds: Seq<CommonOffset>,
    id: u64,
    data: Seq<u8>,
) -> Map<usize, OffsetState>
    decreases kinds.len(),
{
    if kinds.len() == 0 {
        v
    } else {
        let v1 = accel_insert(v, kinds.drop_last(), id, data);
        match key_at(kinds.last(), data) {
            None => v1,
            Some((off, key)) => v1.insert(off, state_insert(state_at(v1, off), key, id)),
        }
    }
}

/// The indexes after an account is removed at each of the kinds offsets, in turn;
/// an offset with no index is left alone.
pub open spec fn accel_remove(
    v: Map<usize, OffsetState>,
    kinds: Seq<CommonOffset>,
    id: u64,
    data: Seq<u8>,
) -> Map<usize, OffsetState>
    decreases kinds.len(),
{
    if kinds.len() == 0 {
        v
    } else {
        let v1 = accel_remove(v, kinds.drop_last(), id, data);
        match key_at(kinds.last(), data) {
            None => v1,
            Some((off, key)) => if v1.contains_key(off) {
                v1.insert(off, state_remove(v1[off], key, id))
            } else {
                v1
            },
        }
    }
}

/// Every index can take `n` more inserts without its count or a bitmap overflowing.
pub open spec fn room(v: Map<usize, OffsetState>, n: nat) -> bool {
    &&& n < u64::MAX
    &&& forall|off: usize| #[trigger] v.contains_key(off) ==> v[off].1 + n <= u64::MAX && forall|k: Seq<u8>|
        #[trigger] ids_under(v[off].0, k).len() + n < u64::MAX
}

proof fn lemma_room_after_insert(v: Map<usize, OffsetState>, off: usize, key: Seq<u8>, id: u64, n: nat)
    requires
        n >= 1,
        room(v, n),
        forall|k: Seq<u8>| (#[trigger] ids_under(state_at(v, off).0, k)).finite(),
    ensures
        room(v.insert(off, state_insert(state_at(v, off), key, id)), (n - 1) as nat),
        forall|k: Seq<u8>| (#[trigger] ids_under(state_insert(state_at(v, off), key, id).0, k)).finite(),
{
    let st = state_at(v, off);
    let st2 = state_insert(st, key, id);
    let v2 = v.insert(off, st2);
    assert(st2.0 == st.0.insert(key, ids_under(st.0, key).insert(id)));
    assert forall|k: Seq<u8>| (#[trigger] ids_under(st2.0, k)).finite() && ids_under(st2.0, k).len()
        <= ids_under(st.0, k).len() + 1 by {
        if k == key {
            assert(ids_under(st2.0, k) == ids_under(st.0, key).insert(id));
            assert(ids_under(st.0, key).finite());
        } else {
            assert(ids_under(st2.0, k) == ids_under(st.0, k));
            assert(ids_under(st.0, k).finite());
        }
    }
    assert forall|o: usize| #[trigger] v2.contains_key(o) implies v2[o].1 + (n - 1) <= u64::MAX && forall|
        k: Seq<u8>,
    | #[trigger] ids_under(v2[o].0, k).len() + (n - 1) < u64::MAX by {
        if o == off {
            if v.contains_key(off) {
                assert(v[off].1 + n <= u64::MAX);
            }
            assert forall|k: Seq<u8>| #[trigger] ids_under(v2[o].0, k).len() + (n - 1) < u64::MAX by {
                assert(ids_under(st2.0, k).len() <= ids_under(st.0, k).len() + 1);
                if v.contains_key(off) {
                    assert(ids_under(v[off].0, k).len() + n < u64::MAX);
                } else {
                    assert(ids_under(st.0, k) =~= Set::<u64>::empty());
                }
            }
        } else {
            assert(v.contains_key(o));
            assert forall|k: Seq<u8>| #[trigger] ids_under(v2[o].0, k).len() + (n - 1) < u64::MAX by {
                assert(ids_under(v[o].0, k).len() + n < u64::MAX);
            }
        }
    }
}

/// Byte-pattern indexes of one program's accounts.
pub struct ProgramMemcmpAccelerator {
    program_id: Pubkey,
    offset_indexes: KeyMap<usize, OffsetIndex>,
    tracked_offsets: Vec<CommonOffset>,
}

impl ProgramMemcmpAccelerator {
    /// The index state at each offset.
    pub closed spec fn states(&self) -> Map<usize, OffsetState> {
        self.offset_indexes@.map_values(|ix: OffsetIndex| ix.state())
    }

    /// The offsets kinds.
    pub closed spec fn offset_kinds(&self) -> Seq<CommonOffset> {
        self.tracked_offsets@
    }

    pub closed spec fn spec_program(&self) -> Pubkey {
        self.program_id
    }

    pub closed spec fn wf(&self) -> bool {
        &&& self.offset_indexes.wf()
        &&& forall|off: usize| #[trigger] self.offset_indexes@.contains_key(off) ==> self.offset_indexes@[off].wf()
    }

    /// An accelerator with no index yet, tracking `tracked_offsets`.
    pub fn new(program_id: Pubkey, tracked_offsets: Vec<CommonOffset>) -> (a: Self)
        ensures
            a.wf(),
            a.states() == Map::<usize, OffsetState>::empty(),
            a.offset_kinds() == tracked_offsets@,
            a.spec_program() == program_id,
    {
        let a = ProgramMemcmpAccelerator { program_id, offset_indexes: KeyMap::new(), tracked_offsets };
        assert(a.states() =~= Map::<usize, OffsetState>::empty());
        a
    }

    /// Indexes the account at each kinds offset its data is long enough for (see
    /// `accel_insert`).
    pub fn insert_account(&mut self, account_id: u64, data: &[u8])
        requires
            old(self).wf(),
            room(old(self).states(), old(self).offset_kinds().len()),
        ensures
            final(self).wf(),
            final(self).states() == accel_insert(old(self).states(), old(self).offset_kinds(), account_id, data@),
            final(self).offset_kinds() == old(self).offset_kinds(),
            final(self).spec_program() == old(self).spec_program(),
    {
        let n = self.tracked_offsets.len();
        let mut i: usize = 0;
        proof {
            assert(old(self).offset_kinds().take(0) =~= Seq::<CommonOffset>::empty());
        }
        while i < n
            invariant
                self.wf(),
                n == self.tracked_offsets@.len(),
                self.tracked_offsets@ == old(self).offset_kinds(),
                self.program_id == old(self).spec_program(),
                i <= n,
                self.states() == accel_insert(old(self).states(), self.tracked_offsets@.take(i as int), account_id, data@),
                room(self.states(), (n - i) as nat),
            decreases n - i,
        {
            let def = self.tracked_offsets[i];
            let offset = def.offset();
            let size = def.expected_size();
            let ghost t = self.tracked_offsets@.take(i + 1);
            proof {
                assert(t.drop_last() =~= self.tracked_offsets@.take(i as int));
                assert(t.last() == def);
            }
            if size > 0 && data.len() >= offset && data.len() - offset >= size {
                let key = slice_bytes(data, offset, size);
                let ghost before = self.states();
                let mut ix = match self.offset_indexes.remove(&offset) {
                    Some(ix) => ix,
                    None => OffsetIndex::new(),
                };
                proof {
                    assert(ix.state() == state_at(before, offset));
                    assert(ix.wf());
                    ix.lemma_finite();
                    lemma_room_after_insert(before, offset, key@, account_id, (n - i) as nat);
                    if before.contains_key(offset) {
                        assert(ids_under(before[offset].0, key@).len() + (n - i) < u64::MAX);
                    }
                }
                ix.insert(key.as_slice(), account_id);
                self.offset_indexes.insert(offset, ix);
                proof {
                    assert(self.states() =~= before.insert(
                        offset,
                        state_insert(state_at(before, offset), key@, account_id),
                    ));
                }
            } else {
                proof {
                    assert(key_at(def, data@) is None);
                }
            }
            i = i + 1;
        }
        proof {
            assert(self.tracked_offsets@.take(i as int) =~= old(self).offset_kinds());
        }
    }

    /// Takes the account out of the index at each tracked offset (see `accel_remove`).
    pub fn remove_account(&mut self, account_id: u64, data: &[u8])
        requires
            old(self).wf(),
        ensures
            final(self).wf(),
            final(self).states() == accel_remove(old(self).states(), old(self).offset_kinds(), account_id, data@),
            final(self).offset_kinds() == old(self).offset_kinds(),
            final(self).spec_program() == old(self).spec_program(),
    {
        let n = self.tracked_offsets.len();
        let mut i: usize = 0;
        proof {
            assert(old(self).offset_kinds().take(0) =~= Seq::<CommonOffset>::empty());
        }
        while i < n
            invariant
                self.wf(),
                n == self.tracked_offsets@.len(),
                self.tracked_offsets@ == old(self).offset_kinds(),
                self.program_id == old(self).spec_program(),
                i <= n,
                self.states() == accel_remove(old(self).states(), self.tracked_offsets@.take(i as int), account_id, data@),
            decreases n - i,
        {
            let def = self.tracked_offsets[i];
            let offset = def.offset();
            let size = def.expected_size();
            let ghost t = self.tracked_offsets@.take(i + 1);
            proof {
                assert(t.drop_last() =~= self.tracked_offsets@.take(i as int));
                assert(t.last() == def);
            }
            if size > 0 && data.len() >= offset && data.len() - offset >= size {
                let key = slice_bytes(data, offset, size);
                let ghost before = self.states();
                match self.offset_indexes.remove(&offset) {
                    Some(mut ix) => {
                        ix.remove(key.as_slice(), account_id);
                        self.offset_indexes.insert(offset, ix);
                        proof {
                            assert(self.states() =~= before.insert(
                                offset,
                                state_remove(before[offset], key@, account_id),
                            ));
                        }
                    },
                    None => {
                        proof {
                            assert(!before.contains_key(offset));
                        }
                    },
                }
            }
            i = i + 1;
        }
        proof {
            assert(self.tracked_offsets@.take(i as int) =~= old(self).offset_kinds());
        }
    }

    /// A copy of the bitmap of `bytes` at `offset`, if indexed.
    pub fn query(&self, offset: usize, bytes: &[u8]) -> (r: Option<PubkeyBitmap>)
        requires
            self.wf(),
        ensures
            r is Some <==> self.states().contains_key(offset) && self.states()[offset].0.contains_key(bytes@),
            r matches Some(b) ==> b.wf() && b@ == self.states()[offset].0[bytes@],
    {
        match self.offset_indexes.get(&offset) {
            Some(ix) => ix.get(bytes),
            None => None,
        }
    }

    /// The statistics of each offset's index, each offset once.
    pub fn stats(&self) -> (v: Vec<(usize, OffsetIndexStats)>)
        requires
            self.wf(),
        ensures
            v@.len() == self.states().len(),
            forall|i: int| 0 <= i < v@.len() ==> {
                let (off, st) = #[trigger] v@[i];
                &&& self.states().contains_key(off)
                &&& st == (OffsetIndexStats {
                    unique_keys: self.states()[off].0.len() as u64,
                    total_entries: self.states()[off].1,
                })
            },
            forall|off: usize| #[trigger] self.states().contains_key(off) ==> exists|i: int|
                0 <= i < v@.len() && v@[i].0 == off,
            forall|i: int, j: int| 0 <= i < j < v@.len() ==> (#[trigger] v@[i]).0 != (#[trigger] v@[j]).0,
    {
        let n = self.offset_indexes.len();
        let mut v: Vec<(usize, OffsetIndexStats)> = Vec::new();
        let mut i: usize = 0;
        while i < n
            invariant
                self.wf(),
                n == self.offset_indexes.pairs().len(),
                i <= n,
                v@.len() == i,
                forall|j: int| 0 <= j < i ==> (#[trigger] v@[j]).0 == self.offset_indexes.pairs()[j].0 && v@[j].1
                    == (OffsetIndexStats {
                    unique_keys: self.offset_indexes.pairs()[j].1.keys_map().len() as u64,
                    total_entries: self.offset_indexes.pairs()[j].1.entries(),
                }),
            decreases n - i,
        {
            let p = self.offset_indexes.pair_at(i);
            proof {
                self.offset_indexes.lemma_pair_in_map(i as int);
            }
            v.push((p.0, p.1.stats()));
            i = i + 1;
        }
        proof {
            self.offset_indexes.lemma_len();
            self.offset_indexes.lemma_distinct();
            assert(self.states().dom() =~= self.offset_indexes@.dom());
            assert forall|i: int| 0 <= i < v@.len() implies {
                let (off, st) = #[trigger] v@[i];
                &&& self.states().contains_key(off)
                &&& st == (OffsetIndexStats {
                    unique_keys: self.states()[off].0.len() as u64,
                    total_entries: self.states()[off].1,
                })
            } by {
                self.offset_indexes.lemma_pair_in_map(i);
            }
            assert forall|off: usize| #[trigger] self.states().contains_key(off) implies exists|i: int|
                0 <= i < v@.len() && v@[i].0 == off by {
                let j = self.offset_indexes.lemma_key_in_pairs(off);
                assert(v@[j].0 == off);
            }
        }
        v
    }

    /// The insert counts of the offset indexes, in the order they were created.
    pub closed spec fn entry_counts(&self) -> Seq<OffsetState> {
        self.offset_indexes.pairs().map_values(|p: (usize, OffsetIndex)| p.1.state())
    }

    /// The sum of the insert counts of every offset index.
    pub fn total_entries(&self) -> (n: u64)
        requires
            self.wf(),
            entries_sum(self.entry_counts()) <= u64::MAX,
        ensures
            n == entries_sum(self.entry_counts()),
    {
        let ghost list = self.entry_counts();
        let len = self.offset_indexes.len();
        let mut total: u64 = 0;
        let mut i: usize = 0;
        proof {
            lemma_entries_sum_prefix(list, 0, list.len() as int);
        }
        while i < len
            invariant
                self.wf(),
                len == self.offset_indexes.pairs().len(),
                list == self.entry_counts(),
                list.len() == len,
                i <= len,
                entries_sum(list) <= u64::MAX,
                total == entries_sum(list.take(i as int)),
            decreases len - i,
        {
            let p = self.offset_indexes.pair_at(i);
            proof {
                assert(list.take(i + 1).drop_last() =~= list.take(i as int));
                assert(list.take(i + 1).last() == p.1.state());
                lemma_entries_sum_prefix(list, i + 1, list.len() as int);
                assert(list.take(list.len() as int) =~= list);
                self.offset_indexes.lemma_pair_in_map(i as int);
            }
            total = total + p.1.stats().total_entries;
            i = i + 1;
        }
        proof {
            assert(list.take(i as int) =~= list);
        }
        total
    }

    /// Number of offsets with an index.
    pub fn indexed_offset_count(&self) -> (n: usize)
        requires
            self.wf(),
        ensures
            n == self.states().len(),
    {
        proof {
            assert(self.states().dom() =~= self.offset_indexes@.dom());
        }
        self.offset_indexes.len()
    }
}

/// Global statistics of the accelerator.
#[derive(Debug, Clone, Copy, PartialEq, Eq, Structural)]
pub struct MemcmpAcceleratorStats {
    pub total_programs: u64,
    pub total_offsets: u64,
    pub total_entries: u64,
}

/// A copy of a list of offset kinds.
fn copy_offsets(v: &Vec<CommonOffset>) -> (r: Vec<CommonOffset>)
    ensures
        r@ == v@,
{
    let mut r: Vec<CommonOffset> = Vec::new();
    let mut i: usize = 0;
    while i < v.len()
        invariant
            i <= v@.len(),
            r@ == v@.take(i as int),
        decreases v@.len() - i,
    {
        r.push(v[i]);
        proof {
            assert(v@.take(i + 1) =~= v@.take(i as int).push(v@[i as int]));
        }
        i = i + 1;
    }
    assert(v@.take(i as int) =~= v@);
    r
}

/// The offsets indexed for a program with no configuration: discriminator and owner.
pub open spec fn fallback_offsets() -> Seq<CommonOffset> {
    seq![CommonOffset::Discriminator, CommonOffset::Owner]
}

/// The sum of the insert counts of a set of offset indexes.
pub open spec fn entries_sum(states: Seq<OffsetState>) -> int
    decreases states.len(),
{
    if states.len() == 0 {
        0
    } else {
        entries_sum(states.drop_last()) + states.last().1
    }
}

proof fn lemma_entries_sum_prefix(s: Seq<OffsetState>, a: int, b: int)
    requires
        0 <= a <= b <= s.len(),
    ensures
        0 <= entries_sum(s.take(a)) <= entries_sum(s.take(b)),
    decreases b - a,
{
    if a < b {
        lemma_entries_sum_prefix(s, a, b - 1);
        assert(s.take(b).drop_last() =~= s.take(b - 1));
    } else {
        lemma_entries_sum_nonneg(s.take(a));
    }
}

proof fn lemma_entries_sum_nonneg(s: Seq<OffsetState>)
    ensures
        0 <= entries_sum(s),
    decreases s.len(),
{
    if s.len() > 0 {
        lemma_entries_sum_nonneg(s.drop_last());
    }
}

/// Byte-pattern indexes of every program.
pub struct MemcmpAccelerator {
    program_accelerators: KeyMap<Pubkey, ProgramMemcmpAccelerator>,
    program_offset_configs: KeyMap<Pubkey, Vec<CommonOffset>>,
    accelerator_path: PathBuf,
}

impl MemcmpAccelerator {
    /// Where the files are kept.
    pub closed spec fn accelerator_path(&self) -> PathBuf {
        self.accelerator_path
    }

    /// The accelerator of each program.
    pub closed spec fn programs(&self) -> Map<Pubkey, ProgramMemcmpAccelerator> {
        self.program_accelerators@
    }

    /// The configured offsets of each program.
    pub closed spec fn configs(&self) -> Map<Pubkey, Seq<CommonOffset>> {
        self.program_offset_configs@.map_values(|v: Vec<CommonOffset>| v@)
    }

    pub closed spec fn wf(&self) -> bool {
        &&& self.program_accelerators.wf()
        &&& self.program_offset_configs.wf()
        &&& forall|p: Pubkey| #[trigger] self.program_accelerators@.contains_key(p) ==> self.program_accelerators@[p].wf()
            && self.program_accelerators@[p].spec_program() == p
    }

    /// No program, keeping its files under `accelerator_path`.
    pub fn new(accelerator_path: PathBuf) -> (a: Self)
        ensures
            a.accelerator_path() == accelerator_path,
            a.wf(),
            a.programs() == Map::<Pubkey, ProgramMemcmpAccelerator>::empty(),
            a.configs() == Map::<Pubkey, Seq<CommonOffset>>::empty(),
    {
        let a = MemcmpAccelerator {
            program_accelerators: KeyMap::new(),
            program_offset_configs: KeyMap::new(),
            accelerator_path,
        };
        assert(a.configs() =~= Map::<Pubkey, Seq<CommonOffset>>::empty());
        a
    }

    /// Configures the offsets of a program; a program with no accelerator gets one
    /// tracking them (an existing accelerator keeps its offsets).
    pub fn configure_program(&mut self, program_id: Pubkey, offsets: Vec<CommonOffset>)
        requires
            old(self).wf(),
        ensures
            final(self).wf(),
            final(self).configs() == old(self).configs().insert(program_id, offsets@),
            old(self).programs().contains_key(program_id) ==> final(self).programs() == old(self).programs(),
            !old(self).programs().contains_key(program_id) ==> final(self).programs().dom() == old(
                self,
            ).programs().dom().insert(program_id) && (forall|p: Pubkey| #[trigger] old(self).programs().contains_key(p)
                ==> final(self).programs()[p] == old(self).programs()[p]) && final(self).programs()[program_id].states()
                == Map::<usize, OffsetState>::empty() && final(self).programs()[program_id].offset_kinds() == offsets@,
    {
        let copy = copy_offsets(&offsets);
        self.program_offset_configs.insert(program_id, copy);
        if !self.program_accelerators.contains_key(&program_id) {
            self.program_accelerators.insert(program_id, ProgramMemcmpAccelerator::new(program_id, offsets));
        }
        proof {
            assert(self.configs() =~= old(self).configs().insert(program_id, offsets@));
        }
    }

    /// Indexes an account of a program; a program with no accelerator first gets one
    /// tracking its configured offsets, or the discriminator and owner.
    pub fn insert_account(&mut self, program_id: Pubkey, account_id: u64, data: &[u8])
        requires
            old(self).wf(),
            old(self).programs().contains_key(program_id) ==> room(
                old(self).programs()[program_id].states(),
                old(self).programs()[program_id].offset_kinds().len(),
            ),
            !old(self).programs().contains_key(program_id) && old(self).configs().contains_key(program_id)
                ==> old(self).configs()[program_id].len() < u64::MAX,
        ensures
            final(self).wf(),
            final(self).configs() == old(self).configs(),
            final(self).programs().dom() == old(self).programs().dom().insert(program_id),
            forall|p: Pubkey| #[trigger] old(self).programs().contains_key(p) && p != program_id
                ==> final(self).programs()[p] == old(self).programs()[p],
            ({
                let kinds = if old(self).programs().contains_key(program_id) {
                    old(self).programs()[program_id].offset_kinds()
                } else if old(self).configs().contains_key(program_id) {
                    old(self).configs()[program_id]
                } else {
                    fallback_offsets()
                };
                let before = if old(self).programs().contains_key(program_id) {
                    old(self).programs()[program_id].states()
                } else {
                    Map::<usize, OffsetState>::empty()
                };
                &&& final(self).programs()[program_id].offset_kinds() == kinds
                &&& final(self).programs()[program_id].states() == accel_insert(before, kinds, account_id, data@)
            }),
    {
        let mut acc = match self.program_accelerators.remove(&program_id) {
            Some(a) => a,
            None => {
                let offsets = match self.program_offset_configs.get(&program_id) {
                    Some(v) => copy_offsets(v),
                    None => vec![CommonOffset::Discriminator, CommonOffset::Owner],
                };
                ProgramMemcmpAccelerator::new(program_id, offsets)
            },
        };
        proof {
            assert(room(acc.states(), acc.offset_kinds().len()));
        }
        acc.insert_account(account_id, data);
        self.program_accelerators.insert(program_id, acc);
        proof {
            assert(self.programs().dom() =~= old(self).programs().dom().insert(program_id));
        }
    }

    /// Takes an account of a program out of its indexes; nothing changes for a
    /// program with no accelerator.
    pub fn remove_account(&mut self, program_id: Pubkey, account_id: u64, data: &[u8])
        requires
            old(self).wf(),
        ensures
            final(self).wf(),
            final(self).configs() == old(self).configs(),
            final(self).programs().dom() == old(self).programs().dom(),
            forall|p: Pubkey| #[trigger] old(self).programs().contains_key(p) && p != program_id
                ==> final(self).programs()[p] == old(self).programs()[p],
            old(self).programs().contains_key(program_id) ==> final(self).programs()[program_id].states()
                == accel_remove(
                old(self).programs()[program_id].states(),
                old(self).programs()[program_id].offset_kinds(),
                account_id,
                data@,
            ) && final(self).programs()[program_id].offset_kinds() == old(self).programs()[program_id].offset_kinds(),
    {
        match self.program_accelerators.remove(&program_id) {
            Some(mut acc) => {
                acc.remove_account(account_id, data);
                self.program_accelerators.insert(program_id, acc);
                proof {
                    assert(self.programs().dom() =~= old(self).programs().dom());
                }
            },
            None => {
                proof {
                    assert(self.program_accelerators@ =~= old(self).program_accelerators@);
                }
            },
        }
    }

    /// A copy of the bitmap of `bytes` at `offset` in the program's indexes, if any.
    pub fn query(&self, program_id: Pubkey, offset: usize, bytes: &[u8]) -> (r: Option<PubkeyBitmap>)
        requires
            self.wf(),
        ensures
            r is Some <==> self.programs().contains_key(program_id) && self.programs()[program_id].states().contains_key(
                offset,
            ) && self.programs()[program_id].states()[offset].0.contains_key(bytes@),
            r matches Some(b) ==> b.wf() && b@ == self.programs()[program_id].states()[offset].0[bytes@],
    {
        match self.program_accelerators.get(&program_id) {
            Some(acc) => acc.query(offset, bytes),
            None => None,
        }
    }

    /// The statistics of each offset index of the program, if it has an accelerator.
    pub fn get_program_stats(&self, program_id: Pubkey) -> (r: Option<Vec<(usize, OffsetIndexStats)>>)
        requires
            self.wf(),
        ensures
            r is Some <==> self.programs().contains_key(program_id),
            r matches Some(v) ==> v@.len() == self.programs()[program_id].states().len(),
    {
        match self.program_accelerators.get(&program_id) {
            Some(acc) => Some(acc.stats()),
            None => None,
        }
    }

    /// Each program's indexed offsets and inserts counted, in the order the
    /// accelerators were created.
    pub closed spec fn program_totals(&self) -> Seq<(nat, int)> {
        self.program_accelerators.pairs().map_values(
            |p: (Pubkey, ProgramMemcmpAccelerator)| (p.1.states().len(), entries_sum(p.1.entry_counts())),
        )
    }

    /// Programs, indexed offsets and inserts counted, over every program.
    pub fn global_stats(&self) -> (s: MemcmpAcceleratorStats)
        requires
            self.wf(),
            offsets_sum(self.program_totals()) <= u64::MAX,
            totals_sum(self.program_totals()) <= u64::MAX,
            forall|i: int| 0 <= i < self.program_totals().len() ==> (#[trigger] self.program_totals()[i]).1
                <= u64::MAX,
        ensures
            s.total_programs == self.programs().len(),
            s.total_offsets == offsets_sum(self.program_totals()),
            s.total_entries == totals_sum(self.program_totals()),
    {
        let ghost list = self.program_totals();
        let n = self.program_accelerators.len();
        let mut total_offsets: u64 = 0;
        let mut total_entries: u64 = 0;
        let mut i: usize = 0;
        let ghost mut gi: int = 0;
        let ghost len_i: int = seq_len(list);
        proof {
            assert forall|j: int| 0 <= j < list.len() implies 0 <= (#[trigger] list[j]).1 by {
                lemma_entries_sum_nonneg(self.program_accelerators.pairs()[j].1.entry_counts());
            }
            lemma_sums_prefix(list, 0, len_i);
            assert(list.take(len_i) =~= list);
        }
        while i < n
            invariant
                self.wf(),
                n == self.program_accelerators.pairs().len(),
                list == self.program_totals(),
                list.len() == n,
                len_i == n,
                gi == i,
                i <= n,
                offsets_sum(list) <= u64::MAX,
                totals_sum(list) <= u64::MAX,
                forall|j: int| 0 <= j < list.len() ==> (#[trigger] list[j]).1 <= u64::MAX,
                forall|j: int| 0 <= j < list.len() ==> 0 <= (#[trigger] list[j]).1,
                total_offsets == offsets_sum(list.take(gi)),
                total_entries == totals_sum(list.take(gi)),
            decreases n - i,
        {
            let p = self.program_accelerators.pair_at(i);
            proof {
                self.program_accelerators.lemma_pair_in_map(gi);
                lemma_sums_prefix(list, gi + 1, len_i);
                assert(list.take(len_i) =~= list);
                assert(list.take(gi + 1).drop_last() =~= list.take(gi));
                assert(list.take(gi + 1).last() == list[gi]);
                assert(list[gi] == (p.1.states().len(), entries_sum(p.1.entry_counts())));
            }
            total_offsets = total_offsets + count_u64(p.1.indexed_offset_count());
            total_entries = total_entries + p.1.total_entries();
            i = i + 1;
            proof {
                gi = gi + 1;
            }
        }
        proof {
            self.program_accelerators.lemma_len();
            assert(list.take(gi) =~= list);
        }
        MemcmpAcceleratorStats { total_programs: count_u64(n), total_offsets, total_entries }
    }
}

/// The length of a sequence, as an integer.
pub open spec fn seq_len<A>(s: Seq<A>) -> int {
    s.len() as int
}

/// The sum of the offset counts.
pub open spec fn offsets_sum(s: Seq<(nat, int)>) -> int
    decreases s.len(),
{
    if s.len() == 0 {
        0
    } else {
        offsets_sum(s.drop_last()) + s.last().0
    }
}

/// The sum of the insert counts.
pub open spec fn totals_sum(s: Seq<(nat, int)>) -> int
    decreases s.len(),
{
    if s.len() == 0 {
        0
    } else {
        totals_sum(s.drop_last()) + s.last().1
    }
}

proof fn lemma_sums_prefix(s: Seq<(nat, int)>, a: int, b: int)
    requires
        0 <= a <= b <= s.len(),
        forall|j: int| 0 <= j < s.len() ==> 0 <= (#[trigger] s[j]).1,
    ensures
        0 <= offsets_sum(s.take(a)) <= offsets_sum(s.take(b)),
        0 <= totals_sum(s.take(a)) <= totals_sum(s.take(b)),
    decreases b - a,
{
    if a < b {
        lemma_sums_prefix(s, a, b - 1);
        assert(s.take(b).drop_last() =~= s.take(b - 1));
        assert(s.take(b).last() == s[b - 1]);
    } else {
        lemma_sums_nonneg(s.take(a));
    }
}

proof fn lemma_sums_nonneg(s: Seq<(nat, int)>)
    requires
        forall|j: int| 0 <= j < s.len() ==> 0 <= (#[trigger] s[j]).1,
    ensures
        0 <= offsets_sum(s),
        0 <= totals_sum(s),
    decreases s.len(),
{
    if s.len() > 0 {
        lemma_sums_nonneg(s.drop_last());
        assert(s.last() == s[s.len() - 1]);
    }
}

} // verus!
