//! Read-only access to validator account files mapped into memory, and the naming of
//! those files.
use crate::location::AccountLocation;
use crate::text::{chars_of, find_char, first_index, parse_u64, parse_u64_range};
use memmap2::Mmap;
use std::sync::Arc;
use vstd::prelude::*;
use vstd::slice::{slice_subrange, slice_to_vec};

verus! {

/// A read-only memory map of the `memmap2` crate; opaque.
#[verifier::external_type_specification]
#[verifier::external_body]
pub struct ExMmap(memmap2::Mmap);

/// The bytes a map shows. A mapped file is taken not to change while it is mapped, which
/// `Mmap::map` asks of its caller.
pub uninterp spec fn mapped_bytes(m: Mmap) -> Seq<u8>;

/// Calls `<Mmap as Deref>::deref`: the mapped bytes.
#[verifier::external_body]
fn mmap_bytes(m: &Mmap) -> (b: &[u8])
    ensures
        b@ == mapped_bytes(*m),
{
    &m[..]
}

/// Calls `std::io::Error::new` with `ErrorKind::NotFound` and the text
/// `File {file_id} not found`; nothing is read back from the error.
#[verifier::external_body]
fn file_not_found(file_id: u64) -> std::io::Error {
    std::io::Error::new(std::io::ErrorKind::NotFound, format!("File {} not found", file_id))
}

/// Failures of reads from mapped files.
#[derive(Debug)]
pub enum MmapError {
    /// The file could not be opened or mapped, or is not known.
    IoError(std::io::Error),
    /// The file is shorter than a record needs.
    FileTooSmall { expected: usize, actual: usize },
    /// No valid record header at the offset.
    InvalidHeader { offset: u64 },
    /// The read reaches past the end of the file.
    OutOfBounds { offset: u64, len: usize, file_size: usize },
}

/// A mapped account file.
#[derive(Debug, Clone)]
pub struct MmapAccountFile {
    /// File identifier, as in `AccountLocation::file_id`.
    pub file_id: u64,
    /// The mapping.
    pub mmap: Arc<Mmap>,
    /// File size in bytes.
    pub file_size: usize,
    /// Where the file was found.
    pub path: String,
}

/// Whether the bytes `[offset, offset + len)` lie inside a file of `file_size` bytes.
pub open spec fn fits(offset: int, len: int, file_size: usize) -> bool {
    offset + len <= file_size
}

impl MmapAccountFile {
    /// Whether the recorded size is the size of the mapping.
    pub open spec fn wf(&self) -> bool {
        self.file_size == mapped_bytes(*self.mmap).len()
    }

    /// The bytes of the file.
    pub open spec fn bytes(&self) -> Seq<u8> {
        mapped_bytes(*self.mmap)
    }

    /// A file over a finished mapping; its size is the mapping's.
    pub fn new(file_id: u64, mmap: Mmap, path: String) -> (f: Self)
        ensures
            f.wf(),
            f.file_id == file_id,
            *f.mmap == mmap,
            f.path@ == path@,
    {
        let file_size = mmap_bytes(&mmap).len();
        MmapAccountFile { file_id, mmap: Arc::new(mmap), file_size, path }
    }

    /// A copy of the stored record at the location.
    pub fn read_bytes(&self, location: &AccountLocation) -> (r: Result<Vec<u8>, MmapError>)
        requires
            self.wf(),
            location.offset + location.stored_size <= usize::MAX,
        ensures
            r is Ok <==> fits(location.offset as int, location.stored_size as int, self.file_size),
            r matches Ok(v) ==> v@ == self.bytes().subrange(
                location.offset as int,
                location.offset + location.stored_size,
            ),
            r matches Err(e) ==> e == (MmapError::OutOfBounds {
                offset: location.offset,
                len: location.stored_size as usize,
                file_size: self.file_size,
            }),
    {
        match self.get_slice(location) {
            Ok(s) => Ok(slice_to_vec(s)),
            Err(e) => Err(e),
        }
    }

    /// The stored record at the location, without a copy.
    pub fn get_slice(&self, location: &AccountLocation) -> (r: Result<&[u8], MmapError>)
        requires
            self.wf(),
            location.offset + location.stored_size <= usize::MAX,
        ensures
            r is Ok <==> fits(location.offset as int, location.stored_size as int, self.file_size),
            r matches Ok(s) ==> s@ == self.bytes().subrange(
                location.offset as int,
                location.offset + location.stored_size,
            ),
            r matches Err(e) ==> e == (MmapError::OutOfBounds {
                offset: location.offset,
                len: location.stored_size as usize,
                file_size: self.file_size,
            }),
    {
        let start = location.offset as usize;
        let end = start + location.stored_size as usize;
        if end > self.file_size {
            return Err(
                MmapError::OutOfBounds {
                    offset: location.offset,
                    len: location.stored_size as usize,
                    file_size: self.file_size,
                },
            );
        }
        let bytes = mmap_bytes(&self.mmap);
        Ok(slice_subrange(bytes, start, end))
    }

    /// A copy of the account data of the record at the location, without its header.
    pub fn get_account_data(&self, location: &AccountLocation) -> (r: Result<Vec<u8>, MmapError>)
        requires
            self.wf(),
            location.offset + location.data_offset + location.data_len <= usize::MAX,
        ensures
            r is Ok <==> fits(
                location.offset + location.data_offset,
                location.data_len as int,
                self.file_size,
            ),
            r matches Ok(v) ==> v@ == self.bytes().subrange(
                location.offset + location.data_offset,
                location.offset + location.data_offset + location.data_len,
            ),
            r matches Err(e) ==> e == (MmapError::OutOfBounds {
                offset: (location.offset + location.data_offset) as u64,
                len: location.data_len as usize,
                file_size: self.file_size,
            }),
    {
        let data_start = location.offset + location.data_offset as u64;
        let start = data_start as usize;
        let end = start + location.data_len as usize;
        if end > self.file_size {
            return Err(
                MmapError::OutOfBounds {
                    offset: data_start,
                    len: location.data_len as usize,
                    file_size: self.file_size,
                },
            );
        }
        let bytes = mmap_bytes(&self.mmap);
        Ok(slice_to_vec(slice_subrange(bytes, start, end)))
    }

    /// The file size in bytes.
    pub fn file_size(&self) -> (n: usize)
        ensures
            n == self.file_size,
    {
        self.file_size
    }

    /// Whether the stored record at the location lies inside the file.
    pub fn is_valid_location(&self, location: &AccountLocation) -> (r: bool)
        requires
            location.offset + location.stored_size <= usize::MAX,
        ensures
            r == fits(location.offset as int, location.stored_size as int, self.file_size),
    {
        let end = location.offset as usize + location.stored_size as usize;
        end <= self.file_size
    }
}

/// The position of the first file with the identifier, or `files.len()` where there is none.
pub open spec fn first_file(files: Seq<MmapAccountFile>, file_id: u64) -> int
    decreases files.len(),
{
    if files.len() == 0 {
        0
    } else if first_file(files.drop_last(), file_id) < files.len() - 1 {
        first_file(files.drop_last(), file_id)
    } else if files.last().file_id == file_id {
        files.len() - 1
    } else {
        files.len() as int
    }
}

proof fn lemma_first_file_extend(files: Seq<MmapAccountFile>, file_id: u64, j: int, k: int)
    requires
        0 <= k < j <= files.len(),
        first_file(files.take(j), file_id) == k,
    ensures
        first_file(files, file_id) == k,
    decreases files.len() - j,
{
    if j < files.len() {
        assert(files.take(j + 1).drop_last() =~= files.take(j));
        lemma_first_file_extend(files, file_id, j + 1, k);
    } else {
        assert(files.take(j) =~= files);
    }
}

/// Reads of many records over a set of mapped files.
pub struct MmapBatchReader {
    files: Vec<MmapAccountFile>,
}

impl MmapBatchReader {
    /// The mapped files.
    pub closed spec fn files(&self) -> Seq<MmapAccountFile> {
        self.files@
    }

    /// A reader over the files.
    pub fn new(files: Vec<MmapAccountFile>) -> (r: Self)
        ensures
            r.files() == files@,
    {
        MmapBatchReader { files }
    }

    /// The position of the first file with the identifier, or the number of files.
    fn find_file(&self, file_id: u64) -> (k: usize)
        ensures
            k == first_file(self.files(), file_id),
            k <= self.files().len(),
            k < self.files().len() ==> self.files()[k as int].file_id == file_id,
    {
        let ghost fs = self.files@;
        let mut k: usize = 0;
        while k < self.files.len()
            invariant
                fs == self.files@,
                k <= fs.len(),
                first_file(fs.take(k as int), file_id) == k,
            decreases fs.len() - k,
        {
            proof {
                assert(fs.take(k + 1).drop_last() =~= fs.take(k as int));
            }
            if self.files[k].file_id == file_id {
                proof {
                    assert(first_file(fs.take(k + 1), file_id) == k);
                    lemma_first_file_extend(fs, file_id, k + 1, k as int);
                }
                return k;
            }
            k = k + 1;
        }
        assert(fs.take(k as int) =~= fs);
        k
    }

    /// Reads each `(file_id, location)` from the first file with that identifier; a read
    /// from an unknown file fails with an I/O error. The results come in the order asked.
    pub fn read_batch(&self, locations: &[(u64, AccountLocation)]) -> (r: Vec<Result<Vec<u8>, MmapError>>)
        requires
            forall|i: int| 0 <= i < self.files().len() ==> #[trigger] self.files()[i].wf(),
            forall|i: int| 0 <= i < locations@.len() ==> #[trigger] locations@[i].1.offset
                + locations@[i].1.stored_size <= usize::MAX,
        ensures
            r@.len() == locations@.len(),
            forall|i: int| 0 <= i < locations@.len() ==> {
                let (file_id, loc) = #[trigger] locations@[i];
                let k = first_file(self.files(), file_id);
                if k < self.files().len() {
                    let f = self.files()[k];
                    &&& r@[i] is Ok <==> fits(loc.offset as int, loc.stored_size as int, f.file_size)
                    &&& r@[i] matches Ok(v) ==> v@ == f.bytes().subrange(
                        loc.offset as int,
                        loc.offset + loc.stored_size,
                    )
                    &&& r@[i] matches Err(e) ==> e == (MmapError::OutOfBounds {
                        offset: loc.offset,
                        len: loc.stored_size as usize,
                        file_size: f.file_size,
                    })
                } else {
                    r@[i] matches Err(MmapError::IoError(_))
                }
            },
    {
        let mut out: Vec<Result<Vec<u8>, MmapError>> = Vec::new();
        let mut i: usize = 0;
        while i < locations.len()
            invariant
                i <= locations@.len(),
                out@.len() == i,
                forall|j: int| 0 <= j < self.files().len() ==> #[trigger] self.files()[j].wf(),
                forall|j: int| 0 <= j < locations@.len() ==> #[trigger] locations@[j].1.offset
                    + locations@[j].1.stored_size <= usize::MAX,
                forall|j: int| 0 <= j < i ==> {
                    let (file_id, loc) = #[trigger] locations@[j];
                    let k = first_file(self.files(), file_id);
                    if k < self.files().len() {
                        let f = self.files()[k];
                        &&& out@[j] is Ok <==> fits(loc.offset as int, loc.stored_size as int, f.file_size)
                        &&& out@[j] matches Ok(v) ==> v@ == f.bytes().subrange(
                            loc.offset as int,
                            loc.offset + loc.stored_size,
                        )
                        &&& out@[j] matches Err(e) ==> e == (MmapError::OutOfBounds {
                            offset: loc.offset,
                            len: loc.stored_size as usize,
                            file_size: f.file_size,
                        })
                    } else {
                        out@[j] matches Err(MmapError::IoError(_))
                    }
                },
            decreases locations@.len() - i,
        {
            let (file_id, location) = locations[i];
            let k = self.find_file(file_id);
            if k < self.files.len() {
                let res = self.files[k].read_bytes(&location);
                out.push(res);
            } else {
                out.push(Err(MmapError::IoError(file_not_found(file_id))));
            }
            i = i + 1;
        }
        out
    }
}

/// The identifier in an account file's name `{id}.{version}`: the number before the first
/// `.`; none for a name without `.` or whose first part is not a `u64`.
pub open spec fn file_id_of_name(name: Seq<char>) -> Option<u64> {
    let k = first_index(name, '.');
    if k < name.len() {
        parse_u64(name.take(k))
    } else {
        None
    }
}

/// The identifier in an account file's name, such as 123456789 in `123456789.0`.
pub fn parse_file_id(file_name: &str) -> (r: Option<u64>)
    ensures
        r == file_id_of_name(file_name@),
{
    let chars = chars_of(file_name);
    let k = find_char(&chars, chars.len(), '.');
    assert(chars@.take(chars@.len() as int) =~= chars@);
    if k == chars.len() {
        return None;
    }
    assert(chars@.subrange(0, k as int) =~= chars@.take(k as int));
    parse_u64_range(&chars, 0, k)
}

} // verus!
