//! Keys and statistics of the distributed response cache.
use crate::checksum::merkle::{sha256, sha256_digest};
use crate::pubkey::{base58, Pubkey};
use crate::rpc::AccountEncoding;
use crate::slot::{commitment_rank, CommitmentLevel};
use crate::text::{chars_of, find_char, first_index, parse_u64, parse_u64_range, spells, trim, trim_bounds};
use vstd::prelude::*;
use vstd::slice::slice_subrange;
use vstd::string::{StrSliceExecFns, StringExecFns, StringSliceAdditionalSpecFns};

verus! {

/// Counters reported by the cache server's `INFO stats` command.
#[derive(Debug, Clone, Copy, PartialEq, Eq, Structural)]
pub struct DragonflyStats {
    pub hits: u64,
    pub misses: u64,
    pub keys: u64,
    pub memory_bytes: u64,
}

impl Default for DragonflyStats {
    fn default() -> (s: Self)
        ensures
            s == zero_stats(),
    {
        DragonflyStats { hits: 0, misses: 0, keys: 0, memory_bytes: 0 }
    }
}

/// All counters at zero.
pub open spec fn zero_stats() -> DragonflyStats {
    DragonflyStats { hits: 0, misses: 0, keys: 0, memory_bytes: 0 }
}

/// What one line of the report does to the counters: a line `key:value` whose trimmed key
/// names a counter sets that counter to the parsed value; any other line changes nothing.
pub open spec fn apply_line(line: Seq<char>, st: DragonflyStats) -> DragonflyStats {
    let k = first_index(line, ':');
    if k < line.len() {
        let key = trim(line.take(k));
        let v = match parse_u64(line.skip(k + 1)) {
            Some(v) => v,
            None => 0,
        };
        if key == "keyspace_hits"@ {
            DragonflyStats { hits: v, ..st }
        } else if key == "keyspace_misses"@ {
            DragonflyStats { misses: v, ..st }
        } else if key == "keys"@ {
            DragonflyStats { keys: v, ..st }
        } else if key == "used_memory"@ {
            DragonflyStats { memory_bytes: v, ..st }
        } else {
            st
        }
    } else {
        st
    }
}

/// The counters after the complete lines of `s`, and the unfinished last line.
/// Lines end at `\n`; a `\r` right before that `\n` belongs to the line ending.
pub open spec fn scan_lines(s: Seq<char>) -> (DragonflyStats, Seq<char>)
    decreases s.len(),
{
    if s.len() == 0 {
        (zero_stats(), Seq::empty())
    } else {
        let (st, line) = scan_lines(s.drop_last());
        if s.last() == '\n' {
            let body = if line.len() > 0 && line.last() == '\r' {
                line.drop_last()
            } else {
                line
            };
            (apply_line(body, st), Seq::empty())
        } else {
            (st, line.push(s.last()))
        }
    }
}

/// The counters that an `INFO stats` report states; a final line without `\n` counts too.
pub open spec fn stats_of_report(s: Seq<char>) -> DragonflyStats {
    let (st, line) = scan_lines(s);
    if line.len() > 0 {
        apply_line(line, st)
    } else {
        st
    }
}

/// What the line `line[..len]` does to the counters.
fn apply_line_exec(line: &Vec<char>, len: usize, st: DragonflyStats) -> (r: DragonflyStats)
    requires
        len <= line@.len(),
    ensures
        r == apply_line(line@.take(len as int), st),
{
    let ghost l = line@.take(len as int);
    let k = find_char(line, len, ':');
    if k == len {
        return st;
    }
    let (a, b) = trim_bounds(line, 0, k);
    assert(line@.subrange(0, k as int) =~= l.take(k as int));
    assert(line@.subrange(k + 1, len as int) =~= l.skip(k + 1));
    let v = match parse_u64_range(line, k + 1, len) {
        Some(v) => v,
        None => 0,
    };
    if spells(line, a, b, "keyspace_hits") {
        DragonflyStats { hits: v, ..st }
    } else if spells(line, a, b, "keyspace_misses") {
        DragonflyStats { misses: v, ..st }
    } else if spells(line, a, b, "keys") {
        DragonflyStats { keys: v, ..st }
    } else if spells(line, a, b, "used_memory") {
        DragonflyStats { memory_bytes: v, ..st }
    } else {
        st
    }
}

impl DragonflyStats {
    /// The counters that an `INFO stats` report states. Lines end at `\n` (a `\r` before it
    /// belongs to the ending); each line `key:value` whose trimmed key is `keyspace_hits`,
    /// `keyspace_misses`, `keys` or `used_memory` sets that counter to the value read as a
    /// `u64`, or to zero where it does not read as one; the last such line wins.
    pub fn parse(info: &str) -> (stats: DragonflyStats)
        ensures
            stats == stats_of_report(info@),
    {
        let chars = chars_of(info);
        let mut stats = DragonflyStats::default();
        let mut line: Vec<char> = Vec::new();
        let mut i: usize = 0;
        while i < chars.len()
            invariant
                chars@ == info@,
                i <= chars@.len(),
                (stats, line@) == scan_lines(chars@.take(i as int)),
            decreases chars@.len() - i,
        {
            let c = chars[i];
            proof {
                assert(chars@.take(i + 1).drop_last() =~= chars@.take(i as int));
            }
            if c == '\n' {
                let n = line.len();
                let len = if n > 0 && line[n - 1] == '\r' {
                    n - 1
                } else {
                    n
                };
                proof {
                    if n > 0 && line@.last() == '\r' {
                        assert(line@.take(len as int) =~= line@.drop_last());
                    } else {
                        assert(line@.take(len as int) =~= line@);
                    }
                }
                stats = apply_line_exec(&line, len, stats);
                line = Vec::new();
            } else {
                line.push(c);
            }
            i = i + 1;
        }
        assert(chars@.take(i as int) =~= info@);
        if line.len() > 0 {
            assert(line@.take(line@.len() as int) =~= line@);
            stats = apply_line_exec(&line, line.len(), stats);
        }
        stats
    }
}

/// The digit of value `d` (below 16), lower-case past nine.
pub open spec fn digit_char(d: int) -> char {
    "0123456789abcdef"@[d]
}

/// Lower-case hexadecimal text of a byte string, two digits per byte.
pub open spec fn hex_of(b: Seq<u8>) -> Seq<char>
    decreases b.len(),
{
    if b.len() == 0 {
        Seq::empty()
    } else {
        hex_of(b.drop_last()) + seq![digit_char((b.last() / 16) as int), digit_char((b.last() % 16) as int)]
    }
}

/// The number of an encoding in keys, its position in the declaration.
pub open spec fn encoding_code(e: AccountEncoding) -> int {
    match e {
        AccountEncoding::Base58 => 0,
        AccountEncoding::Base64 => 1,
        AccountEncoding::Base64Zstd => 2,
        AccountEncoding::Binary => 3,
        AccountEncoding::JsonParsed => 4,
    }
}

/// Key of a cached `getAccountInfo` response: `ai:{pubkey}:{encoding}:{commitment}`.
pub open spec fn account_info_key(
    pubkey: Pubkey,
    encoding: AccountEncoding,
    commitment: CommitmentLevel,
) -> Seq<char> {
    "ai:"@ + base58(pubkey.0@) + ":"@ + seq![digit_char(encoding_code(encoding))] + ":"@
        + seq![digit_char(commitment_rank(commitment))]
}

/// The bytes hashed into a `getProgramAccounts` key.
pub open spec fn program_accounts_preimage(
    program_id: Pubkey,
    filters_hash: Seq<u8>,
    encoding: AccountEncoding,
    commitment: CommitmentLevel,
    cursor: Option<Seq<u8>>,
) -> Seq<u8> {
    program_id.0@ + filters_hash + seq![encoding_code(encoding) as u8] + seq![
        commitment_rank(commitment) as u8,
    ] + match cursor {
        Some(c) => c,
        None => Seq::empty(),
    }
}

/// Key of a cached `getProgramAccounts` response:
/// `pa:{program}:{hex of the first 8 bytes of the SHA-256 of the request}:{encoding}:{commitment}`.
pub open spec fn program_accounts_key(
    program_id: Pubkey,
    filters_hash: Seq<u8>,
    encoding: AccountEncoding,
    commitment: CommitmentLevel,
    cursor: Option<Seq<u8>>,
) -> Seq<char> {
    "pa:"@ + base58(program_id.0@) + ":"@ + hex_of(
        sha256(program_accounts_preimage(program_id, filters_hash, encoding, commitment, cursor)).take(
            8,
        ),
    ) + ":"@ + seq![digit_char(encoding_code(encoding))] + ":"@ + seq![
        digit_char(commitment_rank(commitment)),
    ]
}

/// Two `getAccountInfo` keys of one address are equal only for the same encoding and
/// commitment: every cached encoding and commitment has an entry of its own.
pub proof fn lemma_account_info_keys_distinct(
    pubkey: Pubkey,
    e1: AccountEncoding,
    c1: CommitmentLevel,
    e2: AccountEncoding,
    c2: CommitmentLevel,
)
    requires
        account_info_key(pubkey, e1, c1) == account_info_key(pubkey, e2, c2),
    ensures
        e1 == e2,
        c1 == c2,
{
    reveal_strlit("0123456789abcdef");
    reveal_strlit("ai:");
    reveal_strlit(":");
    let k1 = account_info_key(pubkey, e1, c1);
    let k2 = account_info_key(pubkey, e2, c2);
    let n = k1.len();
    assert(k1[n - 3] == digit_char(encoding_code(e1)));
    assert(k2[n - 3] == digit_char(encoding_code(e2)));
    assert(k1[n - 1] == digit_char(commitment_rank(c1)));
    assert(k2[n - 1] == digit_char(commitment_rank(c2)));
}

fn digit_str(d: u8) -> (s: &'static str)
    requires
        d < 16,
    ensures
        s@ == seq![digit_char(d as int)],
{
    proof {
        reveal_strlit("0123456789abcdef");
    }
    let table = "0123456789abcdef";
    let s = table.substring_char(d as usize, d as usize + 1);
    assert(s@ =~= seq![digit_char(d as int)]);
    s
}

fn encoding_code_exec(e: AccountEncoding) -> (c: u8)
    ensures
        c == encoding_code(e),
{
    match e {
        AccountEncoding::Base58 => 0,
        AccountEncoding::Base64 => 1,
        AccountEncoding::Base64Zstd => 2,
        AccountEncoding::Binary => 3,
        AccountEncoding::JsonParsed => 4,
    }
}

fn commitment_code(c: CommitmentLevel) -> (n: u8)
    ensures
        n == commitment_rank(c),
{
    match c {
        CommitmentLevel::Processed => 0,
        CommitmentLevel::Confirmed => 1,
        CommitmentLevel::Finalized => 2,
    }
}

/// Lower-case hexadecimal text of the bytes, two digits per byte.
pub fn encode(bytes: &[u8]) -> (s: String)
    ensures
        s@ == hex_of(bytes@),
{
    assert(bytes@.take(bytes@.len() as int) =~= bytes@);
    hex_prefix(bytes, bytes.len())
}

/// Lower-case hexadecimal text of the first `n` bytes.
fn hex_prefix(bytes: &[u8], n: usize) -> (s: String)
    requires
        n <= bytes@.len(),
    ensures
        s@ == hex_of(bytes@.take(n as int)),
{
    let mut s = String::new();
    let mut i: usize = 0;
    while i < n
        invariant
            n <= bytes@.len(),
            i <= n,
            s@ == hex_of(bytes@.take(i as int)),
        decreases n - i,
    {
        let b = bytes[i];
        proof {
            assert(bytes@.take(i + 1).drop_last() =~= bytes@.take(i as int));
        }
        s.append(digit_str(b / 16));
        s.append(digit_str(b % 16));
        proof {
            assert(s@ =~= hex_of(bytes@.take(i + 1)));
        }
        i = i + 1;
    }
    s
}

/// Appends `:{encoding}:{commitment}`.
fn append_codes(s: &mut String, encoding: AccountEncoding, commitment: CommitmentLevel)
    ensures
        final(s)@ == old(s)@ + ":"@ + seq![digit_char(encoding_code(encoding))] + ":"@ + seq![
            digit_char(commitment_rank(commitment)),
        ],
{
    s.append(":");
    s.append(digit_str(encoding_code_exec(encoding)));
    s.append(":");
    s.append(digit_str(commitment_code(commitment)));
}

/// The cache key of a `getAccountInfo` response.
pub fn make_account_info_key(
    pubkey: Pubkey,
    encoding: AccountEncoding,
    commitment: CommitmentLevel,
) -> (key: String)
    ensures
        key@ == account_info_key(pubkey, encoding, commitment),
{
    let mut key = String::from_str("ai:");
    let pk = pubkey.to_string();
    key.append(pk.as_str());
    append_codes(&mut key, encoding, commitment);
    key
}

/// The cache key of a `getProgramAccounts` response.
pub fn make_program_accounts_key(
    program_id: Pubkey,
    filters_hash: &[u8],
    encoding: AccountEncoding,
    commitment: CommitmentLevel,
    cursor: Option<&str>,
) -> (key: String)
    ensures
        key@ == program_accounts_key(
            program_id,
            filters_hash@,
            encoding,
            commitment,
            match cursor {
                Some(c) => Some(c.spec_bytes()),
                None => None,
            },
        ),
{
    let ghost cur = match cursor {
        Some(c) => Some(c.spec_bytes()),
        None => None,
    };
    let mut preimage: Vec<u8> = Vec::new();
    preimage.extend_from_slice(program_id.0.as_slice());
    preimage.extend_from_slice(filters_hash);
    preimage.push(encoding_code_exec(encoding));
    preimage.push(commitment_code(commitment));
    match cursor {
        Some(c) => {
            preimage.extend_from_slice(c.as_bytes());
        },
        None => {},
    }
    assert(preimage@ =~= program_accounts_preimage(
        program_id,
        filters_hash@,
        encoding,
        commitment,
        cur,
    ));
    let hash = sha256_digest(preimage.as_slice());
    let mut key = String::from_str("pa:");
    let pk = program_id.to_string();
    key.append(pk.as_str());
    key.append(":");
    let hex = encode(slice_subrange(hash.as_slice(), 0, 8));
    key.append(hex.as_str());
    append_codes(&mut key, encoding, commitment);
    key
}

/// The stored name of an entry: `{prefix}:{method}:{key}`.
pub fn cache_key(prefix: &str, method: &str, key: &str) -> (k: String)
    ensures
        k@ == prefix@ + ":"@ + method@ + ":"@ + key@,
{
    let mut k = String::from_str(prefix);
    k.append(":");
    k.append(method);
    k.append(":");
    k.append(key);
    k
}

/// The pattern of the stored names whose key starts with `pattern`, under any method:
/// `{prefix}:*:{pattern}*`.
pub fn key_pattern(prefix: &str, pattern: &str) -> (p: String)
    ensures
        p@ == prefix@ + ":*:"@ + pattern@ + "*"@,
{
    let mut p = String::from_str(prefix);
    p.append(":*:");
    p.append(pattern);
    p.append("*");
    p
}

} // verus!
