//! Discovery of a validator's account files, the registry of their mappings, and the
//! dictionary and locator built from the accounts found in them.
use crate::bitmap::PubkeyDictionary;
use crate::collections::KeyMap;
use std::collections::HashMap;
use crate::index::path_from;
use crate::location::AccountLocation;
use crate::mapper::{file_id_of_name, parse_file_id, MmapAccountFile, MmapError};
use crate::pubkey::Pubkey;
use memmap2::Mmap;
use std::path::PathBuf;
use std::sync::Arc;
use vstd::prelude::*;

verus! {

/// Failures of a scan of the accounts directory.
#[derive(Debug)]
pub enum ScannerError {
    /// Listing or reading the directory failed.
    IoError(std::io::Error),
    /// Mapping a file failed.
    MmapError(MmapError),
    /// The accounts directory does not exist.
    DirectoryNotFound(PathBuf),
    /// The directory holds no file named like an account file.
    NoAccountFiles(PathBuf),
}

/// Settings of a scan.
#[derive(Debug, Clone)]
pub struct ScannerConfig {
    /// The validator's accounts directory.
    pub accounts_path: PathBuf,
    /// Number of parallel scan threads.
    pub num_threads: usize,
    /// Whether to detect AppendVec headers.
    pub detect_appendvec: bool,
    /// Whether to validate account records.
    pub validate_accounts: bool,
    /// Progress is reported every this many files.
    pub progress_interval: usize,
}

impl ScannerConfig {
    /// The default settings (accounts under `/mnt/accounts`, no header detection, records
    /// validated, progress every 10 files) with `num_threads` scan threads; the default
    /// thread count is the machine's available parallelism.
    pub fn with_threads(num_threads: usize) -> (c: Self)
        ensures
            c.num_threads == num_threads,
            !c.detect_appendvec,
            c.validate_accounts,
            c.progress_interval == 10,
    {
        ScannerConfig {
            accounts_path: path_from("/mnt/accounts"),
            num_threads,
            detect_appendvec: false,
            validate_accounts: true,
            progress_interval: 10,
        }
    }
}

/// `(id, position)` comes before `(id2, position2)`: by id, then by position.
pub open spec fn file_before(a: (u64, usize), b: (u64, usize)) -> bool {
    a.0 < b.0 || (a.0 == b.0 && a.1 < b.1)
}

/// Each entry comes strictly before the next.
pub open spec fn in_scan_order(s: Seq<(u64, usize)>) -> bool {
    forall|i: int, j: int| 0 <= i < j < s.len() ==> file_before(#[trigger] s[i], #[trigger] s[j])
}

/// The name at `position` is that of an account file with identifier `id`.
pub open spec fn names_account_file(names: Seq<String>, position: int, id: u64) -> bool {
    0 <= position < names.len() && file_id_of_name(names[position]@) == Some(id)
}

/// The account files among `names`: each `(id, position)` with `names[position]` an account
/// file name of identifier `id`, ordered by id and, for equal ids, by position.
pub open spec fn account_files_among(names: Seq<String>, files: Seq<(u64, usize)>) -> bool {
    &&& in_scan_order(files)
    &&& forall|e: (u64, usize)| files.contains(e) <==> names_account_file(names, e.1 as int, e.0)
}

/// Whether some name is an account file name.
pub open spec fn has_account_file(names: Seq<String>) -> bool {
    exists|k: int, id: u64| names_account_file(names, k, id)
}

/// Inserts `e`, whose position is beyond every position held, keeping the scan order.
fn insert_in_scan_order(v: &mut Vec<(u64, usize)>, e: (u64, usize))
    requires
        in_scan_order(old(v)@),
        forall|i: int| 0 <= i < old(v)@.len() ==> (#[trigger] old(v)@[i]).1 < e.1,
    ensures
        in_scan_order(final(v)@),
        forall|x: (u64, usize)| final(v)@.contains(x) <==> (old(v)@.contains(x) || x == e),
        final(v)@.len() == old(v)@.len() + 1,
{
    let mut pos: usize = 0;
    while pos < v.len() && v[pos].0 <= e.0
        invariant
            pos <= v@.len(),
            v@ == old(v)@,
            forall|j: int| 0 <= j < pos ==> (#[trigger] v@[j]).0 <= e.0,
        decreases v@.len() - pos,
    {
        pos = pos + 1;
    }
    v.insert(pos, e);
    proof {
        let o = old(v)@;
        assert(v@ =~= o.take(pos as int).push(e) + o.skip(pos as int));
        assert forall|i: int, j: int| 0 <= i < j < v@.len() implies file_before(
            #[trigger] v@[i],
            #[trigger] v@[j],
        ) by {
            if j < pos {
            } else if j == pos {
                assert(o[i].0 <= e.0 && o[i].1 < e.1);
            } else if i < pos {
                assert(v@[j] == o[j - 1]);
                assert(o[pos as int].0 > e.0);
                if j - 1 > pos {
                    assert(file_before(o[pos as int], o[j - 1]));
                }
            } else if i == pos {
                assert(v@[j] == o[j - 1]);
                assert(o[pos as int].0 > e.0);
                if j - 1 > pos {
                    assert(file_before(o[pos as int], o[j - 1]));
                }
            } else {
                assert(v@[i] == o[i - 1]);
                assert(v@[j] == o[j - 1]);
            }
        }
        assert forall|x: (u64, usize)| v@.contains(x) <==> (o.contains(x) || x == e) by {
            if v@.contains(x) {
                let k = choose|k: int| 0 <= k < v@.len() && v@[k] == x;
                if k < pos {
                    assert(o[k] == x);
                } else if k > pos {
                    assert(o[k - 1] == x);
                }
            }
            if o.contains(x) {
                let k = choose|k: int| 0 <= k < o.len() && o[k] == x;
                if k < pos {
                    assert(v@[k] == x);
                } else {
                    assert(v@[k + 1] == x);
                }
            }
            if x == e {
                assert(v@[pos as int] == e);
            }
        }
    }
}

/// The account files among `names`, ordered by identifier; files with the same identifier
/// keep the order in which their names come.
fn select_account_files(names: &[String]) -> (files: Vec<(u64, usize)>)
    ensures
        account_files_among(names@, files@),
{
    let mut files: Vec<(u64, usize)> = Vec::new();
    let mut k: usize = 0;
    while k < names.len()
        invariant
            k <= names@.len(),
            in_scan_order(files@),
            forall|i: int| 0 <= i < files@.len() ==> (#[trigger] files@[i]).1 < k,
            forall|e: (u64, usize)|
                files@.contains(e) <==> (e.1 < k && names_account_file(names@, e.1 as int, e.0)),
        decreases names@.len() - k,
    {
        let name: &str = names[k].as_str();
        match parse_file_id(name) {
            Some(id) => {
                insert_in_scan_order(&mut files, (id, k));
            },
            None => {},
        }
        proof {
            assert forall|i: int| 0 <= i < files@.len() implies (#[trigger] files@[i]).1 < k + 1 by {
                assert(files@.contains(files@[i]));
            }
        }
        k = k + 1;
    }
    files
}

/// Scans a validator's accounts directory and keeps the mapping of each file it maps.
pub struct AccountFileScanner {
    config: ScannerConfig,
    mmap_files: HashMap<u64, MmapAccountFile>,
}

/// Calls `<Arc<Mmap> as Clone>::clone`: another handle on the same mapping.
#[verifier::external_body]
fn share_mapping(m: &Arc<Mmap>) -> (r: Arc<Mmap>)
    ensures
        r == *m,
{
    m.clone()
}

impl AccountFileScanner {
    /// The settings.
    pub closed spec fn config(&self) -> ScannerConfig {
        self.config
    }

    /// The mapped files kept, by identifier.
    pub closed spec fn mapped_files(&self) -> Map<u64, MmapAccountFile> {
        self.mmap_files@
    }

    /// A scanner with the settings and no mapped files.
    pub fn new(config: ScannerConfig) -> (s: Self)
        ensures
            s.config() == config,
            s.mapped_files() == Map::<u64, MmapAccountFile>::empty(),
    {
        AccountFileScanner { config, mmap_files: HashMap::new() }
    }

    /// The account files among the names of the regular files in the accounts directory,
    /// as `(id, position in file_names)`, ordered by identifier and, for equal identifiers,
    /// by position. Fails when the directory does not exist.
    pub fn discover_account_files(&self, dir_exists: bool, file_names: &[String]) -> (r: Result<
        Vec<(u64, usize)>,
        ScannerError,
    >)
        ensures
            r is Ok <==> dir_exists,
            r matches Ok(files) ==> account_files_among(file_names@, files@),
            r matches Err(e) ==> e == ScannerError::DirectoryNotFound(self.config().accounts_path),
    {
        if !dir_exists {
            return Err(ScannerError::DirectoryNotFound(self.config.accounts_path.clone()));
        }
        Ok(select_account_files(file_names))
    }

    /// The files a scan maps, in the order it maps them: the account files of the
    /// directory, or a failure when the directory does not exist or holds none.
    pub fn scan_targets(&self, dir_exists: bool, file_names: &[String]) -> (r: Result<
        Vec<(u64, usize)>,
        ScannerError,
    >)
        ensures
            r is Ok <==> dir_exists && has_account_file(file_names@),
            r matches Ok(files) ==> account_files_among(file_names@, files@) && files@.len() > 0,
            r matches Err(e) ==> if dir_exists {
                e == ScannerError::NoAccountFiles(self.config().accounts_path)
            } else {
                e == ScannerError::DirectoryNotFound(self.config().accounts_path)
            },
    {
        let files = match self.discover_account_files(dir_exists, file_names) {
            Ok(files) => files,
            Err(e) => {
                return Err(e);
            },
        };
        let n = file_names.len();
        if files.len() == 0 {
            proof {
                assert forall|k: int, id: u64| !names_account_file(file_names@, k, id) by {
                    if names_account_file(file_names@, k, id) {
                        assert(k < n);
                        let e: (u64, usize) = (id, k as usize);
                        assert(e.1 as int == k);
                        assert(files@.contains(e));
                    }
                }
            }
            return Err(ScannerError::NoAccountFiles(self.config.accounts_path.clone()));
        }
        proof {
            let e = files@[0];
            assert(files@.contains(e));
            assert(names_account_file(file_names@, e.1 as int, e.0));
        }
        Ok(files)
    }

    /// Keeps the mapping of a scanned file, replacing one kept under the same identifier.
    pub fn keep_mmap_file(&mut self, file: MmapAccountFile)
        ensures
            final(self).config() == old(self).config(),
            final(self).mapped_files() == old(self).mapped_files().insert(file.file_id, file),
    {
        broadcast use vstd::std_specs::hash::group_hash_axioms;
        let id = file.file_id;
        self.mmap_files.insert(id, file);
    }

    /// The mapped file kept under the identifier, sharing its mapping.
    pub fn get_mmap_file(&self, file_id: u64) -> (r: Option<MmapAccountFile>)
        ensures
            r is Some <==> self.mapped_files().contains_key(file_id),
            r matches Some(f) ==> f == self.mapped_files()[file_id],
    {
        broadcast use vstd::std_specs::hash::group_hash_axioms;
        match self.mmap_files.get(&file_id) {
            Some(f) => Some(
                MmapAccountFile {
                    file_id: f.file_id,
                    mmap: share_mapping(&f.mmap),
                    file_size: f.file_size,
                    path: f.path.clone(),
                },
            ),
            None => None,
        }
    }

    /// Drops every kept mapping.
    pub fn clear_mmap_cache(&mut self)
        ensures
            final(self).config() == old(self).config(),
            final(self).mapped_files() == Map::<u64, MmapAccountFile>::empty(),
    {
        broadcast use vstd::std_specs::hash::group_hash_axioms;
        self.mmap_files.clear();
    }
}

/// The ids a dictionary hands out to `pubkeys` inserted in turn: 0, 1, 2, ... in order of
/// first occurrence.
pub open spec fn ids_in_order(pubkeys: Seq<Pubkey>) -> Map<Pubkey, u64>
    decreases pubkeys.len(),
{
    if pubkeys.len() == 0 {
        Map::empty()
    } else {
        let m = ids_in_order(pubkeys.drop_last());
        if m.contains_key(pubkeys.last()) {
            m
        } else {
            m.insert(pubkeys.last(), m.len() as u64)
        }
    }
}

proof fn lemma_ids_in_order_len(pubkeys: Seq<Pubkey>)
    ensures
        ids_in_order(pubkeys).dom().finite(),
        ids_in_order(pubkeys).len() <= pubkeys.len(),
    decreases pubkeys.len(),
{
    if pubkeys.len() > 0 {
        lemma_ids_in_order_len(pubkeys.drop_last());
    }
}

/// A dictionary of the pubkeys of the scanned accounts, ids given in order of first
/// occurrence.
pub fn build_pubkey_dictionary(pubkeys: &[Pubkey]) -> (d: PubkeyDictionary)
    requires
        pubkeys@.len() <= u64::MAX,
    ensures
        d.wf(),
        d@ == ids_in_order(pubkeys@),
{
    let mut d = PubkeyDictionary::new();
    let mut k: usize = 0;
    assert(ids_in_order(pubkeys@.take(0)) =~= Map::<Pubkey, u64>::empty());
    while k < pubkeys.len()
        invariant
            k <= pubkeys@.len(),
            pubkeys@.len() <= u64::MAX,
            d.wf(),
            d@ == ids_in_order(pubkeys@.take(k as int)),
        decreases pubkeys@.len() - k,
    {
        proof {
            lemma_ids_in_order_len(pubkeys@.take(k as int));
            assert(pubkeys@.take(k + 1).drop_last() =~= pubkeys@.take(k as int));
            assert(pubkeys@.take(k + 1).last() == pubkeys@[k as int]);
        }
        d.insert(pubkeys[k]);
        k = k + 1;
    }
    assert(pubkeys@.take(k as int) =~= pubkeys@);
    d
}

/// Where each pubkey's account lies: for a pubkey met more than once, the last location.
pub open spec fn locations_in_order(accounts: Seq<(Pubkey, AccountLocation)>) -> Map<
    Pubkey,
    AccountLocation,
>
    decreases accounts.len(),
{
    if accounts.len() == 0 {
        Map::empty()
    } else {
        locations_in_order(accounts.drop_last()).insert(accounts.last().0, accounts.last().1)
    }
}

/// The base locator of the scanned accounts: each pubkey with its location.
pub fn build_base_locator(accounts: &[(Pubkey, AccountLocation)]) -> (m: KeyMap<
    Pubkey,
    AccountLocation,
>)
    ensures
        m.wf(),
        m@ == locations_in_order(accounts@),
{
    let mut m: KeyMap<Pubkey, AccountLocation> = KeyMap::new();
    let mut k: usize = 0;
    assert(locations_in_order(accounts@.take(0)) =~= Map::<Pubkey, AccountLocation>::empty());
    while k < accounts.len()
        invariant
            k <= accounts@.len(),
            m.wf(),
            m@ == locations_in_order(accounts@.take(k as int)),
        decreases accounts@.len() - k,
    {
        proof {
            assert(accounts@.take(k + 1).drop_last() =~= accounts@.take(k as int));
            assert(accounts@.take(k + 1).last() == accounts@[k as int]);
        }
        let (pubkey, location) = accounts[k];
        m.insert(pubkey, location);
        k = k + 1;
    }
    assert(accounts@.take(k as int) =~= accounts@);
    m
}

} // verus!
