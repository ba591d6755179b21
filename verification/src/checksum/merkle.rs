//! Merkle roots and inclusion proofs over 32-byte leaves.
//!
//! Internal nodes hash the pair of their children in byte order
//! (the smaller child first), so a proof needs no left/right markers:
//! `verify_proof` accepts every proof that `generate_proof` produces.
use vstd::prelude::*;

verus! {

/// The SHA-256 digest of a byte string.
pub uninterp spec fn sha256(data: Seq<u8>) -> Seq<u8>;

/// Calls `sha2::Sha256::digest`: the SHA-256 digest of `data`, a function of the bytes alone.
#[verifier::external_body]
pub(crate) fn sha256_digest(data: &[u8]) -> (h: [u8; 32])
    ensures
        h@ == sha256(data@),
{
    <sha2::Sha256 as sha2::Digest>::digest(data).into()
}

/// The two byte strings one after the other.
pub(crate) fn concat_bytes(a: &[u8], b: &[u8]) -> (r: Vec<u8>)
    ensures
        r@ == a@ + b@,
{
    let mut r: Vec<u8> = Vec::new();
    r.extend_from_slice(a);
    r.extend_from_slice(b);
    r
}

/// Leaf hash: the SHA-256 digest of the data.
pub fn leaf_hash(data: &[u8]) -> (h: [u8; 32])
    ensures
        h@ == sha256(data@),
{
    sha256_digest(data)
}

/// Internal node hash: the SHA-256 digest of `left` followed by `right`.
pub fn node_hash(left: [u8; 32], right: [u8; 32]) -> (h: [u8; 32])
    ensures
        h@ == sha256(left@ + right@),
{
    let bytes = concat_bytes(left.as_slice(), right.as_slice());
    sha256_digest(bytes.as_slice())
}

/// Lexicographic order on byte strings.
pub open spec fn lex_le(a: Seq<u8>, b: Seq<u8>) -> bool
    decreases a.len(),
{
    if a.len() == 0 || b.len() == 0 {
        a.len() <= b.len()
    } else if a[0] != b[0] {
        a[0] < b[0]
    } else {
        lex_le(a.drop_first(), b.drop_first())
    }
}

/// The parent of two nodes: the node hash of the pair, smaller child first.
pub open spec fn pair_hash(a: Seq<u8>, b: Seq<u8>) -> Seq<u8> {
    if lex_le(a, b) {
        sha256(a + b)
    } else {
        sha256(b + a)
    }
}

/// The next level up: each pair of neighbours hashed, an odd last node promoted.
pub open spec fn next_level(l: Seq<Seq<u8>>) -> Seq<Seq<u8>> {
    Seq::new(
        ((l.len() + 1) / 2) as nat,
        |j: int|
            if 2 * j + 1 < l.len() {
                pair_hash(l[2 * j], l[2 * j + 1])
            } else {
                l[2 * j]
            },
    )
}

/// Thirty-two zero bytes.
pub open spec fn zero_hash() -> Seq<u8> {
    Seq::new(32, |i: int| 0u8)
}

/// The Merkle root of a level: zero bytes when empty, the node itself when single.
pub open spec fn merkle_root(l: Seq<Seq<u8>>) -> Seq<u8>
    decreases l.len(),
{
    if l.len() == 0 {
        zero_hash()
    } else if l.len() == 1 {
        l[0]
    } else {
        merkle_root(next_level(l))
    }
}

/// The index of the other node of the pair that holds `idx`.
pub open spec fn sibling(idx: int) -> int {
    2 * (idx / 2) + (1 - idx % 2)
}

/// The inclusion proof for position `idx`: one sibling per level where the pair is complete.
pub open spec fn merkle_proof(l: Seq<Seq<u8>>, idx: int) -> Seq<Seq<u8>>
    decreases l.len(),
{
    if l.len() <= 1 {
        Seq::empty()
    } else {
        let here = if 2 * (idx / 2) + 1 < l.len() {
            seq![l[sibling(idx)]]
        } else {
            Seq::<Seq<u8>>::empty()
        };
        here + merkle_proof(next_level(l), idx / 2)
    }
}

/// Folding a proof into a leaf: each sibling combined with the running hash.
pub open spec fn fold_proof(cur: Seq<u8>, proof: Seq<Seq<u8>>) -> Seq<u8>
    decreases proof.len(),
{
    if proof.len() == 0 {
        cur
    } else {
        fold_proof(pair_hash(cur, proof[0]), proof.drop_first())
    }
}

/// The byte views of a sequence of 32-byte nodes.
pub open spec fn views(v: Seq<[u8; 32]>) -> Seq<Seq<u8>> {
    v.map_values(|a: [u8; 32]| a@)
}

proof fn lemma_lex_total(a: Seq<u8>, b: Seq<u8>)
    ensures
        lex_le(a, b) || lex_le(b, a),
        lex_le(a, b) && lex_le(b, a) ==> a == b,
    decreases a.len(),
{
    if a.len() != 0 && b.len() != 0 && a[0] == b[0] {
        lemma_lex_total(a.drop_first(), b.drop_first());
        if lex_le(a, b) && lex_le(b, a) {
            assert(a =~= seq![a[0]] + a.drop_first());
            assert(b =~= seq![b[0]] + b.drop_first());
        }
    }
    if a.len() == 0 && b.len() == 0 {
        assert(a =~= b);
    }
}

/// The parent hash does not depend on the order of the children.
pub proof fn lemma_pair_hash_commutes(a: Seq<u8>, b: Seq<u8>)
    ensures
        pair_hash(a, b) == pair_hash(b, a),
{
    lemma_lex_total(a, b);
}

proof fn lemma_fold_step(cur: Seq<u8>, s: Seq<u8>, rest: Seq<Seq<u8>>)
    ensures
        fold_proof(cur, seq![s] + rest) == fold_proof(pair_hash(cur, s), rest),
{
    assert((seq![s] + rest).drop_first() =~= rest);
}

/// Every leaf's proof, folded into the leaf, gives the root: for each position
/// `idx` of a non-empty level, `verify_proof(leaves[idx], generate_proof(leaves, idx),
/// compute_root(leaves))` holds.
pub proof fn lemma_proof_verifies(l: Seq<Seq<u8>>, idx: int)
    requires
        0 <= idx < l.len(),
    ensures
        fold_proof(l[idx], merkle_proof(l, idx)) == merkle_root(l),
    decreases l.len(),
{
    if l.len() > 1 {
        let n = next_level(l);
        let j = idx / 2;
        lemma_proof_verifies(n, j);
        if 2 * j + 1 < l.len() {
            lemma_fold_step(l[idx], l[sibling(idx)], merkle_proof(n, j));
            if idx % 2 == 1 {
                lemma_pair_hash_commutes(l[idx], l[sibling(idx)]);
            }
        } else {
            assert(Seq::<Seq<u8>>::empty() + merkle_proof(n, j) =~= merkle_proof(n, j));
        }
    }
}

proof fn lemma_lex_skip(a: Seq<u8>, b: Seq<u8>, i: int)
    requires
        0 <= i < a.len(),
        i < b.len(),
    ensures
        a[i] != b[i] ==> lex_le(a.skip(i), b.skip(i)) == (a[i] < b[i]),
        a[i] == b[i] ==> lex_le(a.skip(i), b.skip(i)) == lex_le(a.skip(i + 1), b.skip(i + 1)),
{
    assert(a.skip(i).drop_first() =~= a.skip(i + 1));
    assert(b.skip(i).drop_first() =~= b.skip(i + 1));
}

/// Byte-order comparison of two 32-byte nodes.
fn lex_le_exec(a: &[u8; 32], b: &[u8; 32]) -> (r: bool)
    ensures
        r == lex_le(a@, b@),
{
    let mut i: usize = 0;
    assert(a@.skip(0) =~= a@);
    assert(b@.skip(0) =~= b@);
    while i < 32
        invariant
            0 <= i <= 32,
            a@.len() == 32,
            b@.len() == 32,
            lex_le(a@, b@) == lex_le(a@.skip(i as int), b@.skip(i as int)),
        decreases 32 - i,
    {
        proof {
            lemma_lex_skip(a@, b@, i as int);
        }
        if a[i] != b[i] {
            return a[i] < b[i];
        }
        i = i + 1;
    }
    assert(a@.skip(32) =~= Seq::<u8>::empty());
    assert(b@.skip(32) =~= Seq::<u8>::empty());
    true
}

/// The parent of two nodes: the node hash of the pair, smaller child first.
fn hash_pair(a: &[u8; 32], b: &[u8; 32]) -> (h: [u8; 32])
    ensures
        h@ == pair_hash(a@, b@),
{
    if lex_le_exec(a, b) {
        node_hash(*a, *b)
    } else {
        node_hash(*b, *a)
    }
}

/// Equality of two 32-byte strings.
pub(crate) fn bytes32_eq(a: &[u8; 32], b: &[u8; 32]) -> (r: bool)
    ensures
        r == (a@ == b@),
{
    let mut i: usize = 0;
    while i < 32
        invariant
            0 <= i <= 32,
            a@.len() == 32,
            b@.len() == 32,
            forall|j: int| 0 <= j < i ==> a@[j] == b@[j],
        decreases 32 - i,
    {
        if a[i] != b[i] {
            assert(a@[i as int] != b@[i as int]);
            return false;
        }
        i = i + 1;
    }
    assert(a@ =~= b@);
    true
}

/// The next level of the tree, computed.
fn next_level_exec(level: &Vec<[u8; 32]>) -> (next: Vec<[u8; 32]>)
    ensures
        views(next@) == next_level(views(level@)),
        next.len() == (level.len() + 1) / 2,
{
    let n = level.len();
    let chunks = n / 2 + n % 2;
    let mut next: Vec<[u8; 32]> = Vec::new();
    let mut j: usize = 0;
    while j < chunks
        invariant
            n == level.len(),
            chunks == n / 2 + n % 2,
            j <= chunks,
            next.len() == j,
            forall|k: int|
                0 <= k < j ==> (#[trigger] next@[k])@ == next_level(views(level@))[k],
        decreases chunks - j,
    {
        if 2 * j + 1 < n {
            let h = hash_pair(&level[2 * j], &level[2 * j + 1]);
            next.push(h);
        } else {
            next.push(level[2 * j]);
        }
        j = j + 1;
    }
    assert(views(next@) =~= next_level(views(level@)));
    next
}

/// The Merkle root of the leaves: zero bytes when there are none, the leaf itself
/// when there is one, otherwise the root of the next level up.
pub fn compute_root(leaves: &[[u8; 32]]) -> (root: [u8; 32])
    ensures
        root@ == merkle_root(views(leaves@)),
{
    if leaves.len() == 0 {
        let z = [0u8; 32];
        assert(z@ =~= zero_hash());
        return z;
    }
    if leaves.len() == 1 {
        return leaves[0];
    }
    let mut level: Vec<[u8; 32]> = vstd::slice::slice_to_vec(leaves);
    while level.len() > 1
        invariant
            level.len() >= 1,
            merkle_root(views(level@)) == merkle_root(views(leaves@)),
        decreases level.len(),
    {
        level = next_level_exec(&level);
    }
    level[0]
}

/// The inclusion proof for the leaf at `index`: at each level, the sibling of the
/// node on the leaf's path when that node has one.
pub fn generate_proof(leaves: &[[u8; 32]], index: usize) -> (proof: Vec<[u8; 32]>)
    ensures
        views(proof@) == merkle_proof(views(leaves@), index as int),
{
    let mut proof: Vec<[u8; 32]> = Vec::new();
    let mut level: Vec<[u8; 32]> = vstd::slice::slice_to_vec(leaves);
    let mut idx: usize = index;
    assert(views(proof@) + merkle_proof(views(level@), idx as int) =~= merkle_proof(
        views(leaves@),
        index as int,
    ));
    while level.len() > 1
        invariant
            views(proof@) + merkle_proof(views(level@), idx as int) == merkle_proof(
                views(leaves@),
                index as int,
            ),
        decreases level.len(),
    {
        let ghost old_proof = views(proof@);
        let ghost l = views(level@);
        let ghost old_idx = idx as int;
        let ghost here = if 2 * (old_idx / 2) + 1 < l.len() {
            seq![l[sibling(old_idx)]]
        } else {
            Seq::<Seq<u8>>::empty()
        };
        if 2 * (idx / 2) + 1 < level.len() {
            let sib = 2 * (idx / 2) + (1 - idx % 2);
            proof.push(level[sib]);
        }
        assert(views(proof@) =~= old_proof + here);
        level = next_level_exec(&level);
        idx = idx / 2;
        assert(merkle_proof(l, old_idx) == here + merkle_proof(next_level(l), old_idx / 2));
        assert((old_proof + here) + merkle_proof(views(level@), idx as int) =~= old_proof + (here
            + merkle_proof(views(level@), idx as int)));
    }
    assert(views(proof@) + Seq::<Seq<u8>>::empty() =~= views(proof@));
    proof
}

/// Whether folding the proof into the leaf gives the root.
pub fn verify_proof(leaf: [u8; 32], proof: &[[u8; 32]], root: [u8; 32]) -> (ok: bool)
    ensures
        ok == (fold_proof(leaf@, views(proof@)) == root@),
{
    let mut current = leaf;
    let mut i: usize = 0;
    assert(views(proof@).skip(0) =~= views(proof@));
    while i < proof.len()
        invariant
            i <= proof.len(),
            fold_proof(current@, views(proof@).skip(i as int)) == fold_proof(leaf@, views(proof@)),
        decreases proof.len() - i,
    {
        let ghost rest = views(proof@).skip(i as int);
        assert(rest.drop_first() =~= views(proof@).skip(i + 1));
        current = hash_pair(&current, &proof[i]);
        i = i + 1;
    }
    assert(views(proof@).skip(i as int) =~= Seq::<Seq<u8>>::empty());
    bytes32_eq(&current, &root)
}

} // verus!
