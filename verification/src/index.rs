//! Secondary indexes over account data.
pub mod byte_order;
pub mod data_size_index;
pub mod discriminator_index;
pub mod hot_cold_index;
pub mod keyed_bitmap;
pub mod lsm_bitmap;
pub mod memcmp_accelerator;
pub mod simd_bitmap;
pub mod tiered_dictionary;
pub mod token_mint_index;
pub mod token_owner_index;

use vstd::prelude::*;

verus! {

/// Where an index keeps its files; carried, never read.
#[verifier::external_type_specification]
#[verifier::external_body]
pub struct ExPathBuf(std::path::PathBuf);

/// `PathBuf::clone`: a copy of the path, equal to it.
pub assume_specification[<std::path::PathBuf as Clone>::clone](p: &std::path::PathBuf) -> (c: std::path::PathBuf)
    ensures
        c == *p,
;

/// `PathBuf::from` on a string slice; the path is carried, never read.
#[verifier::external_body]
pub(crate) fn path_from(s: &str) -> (p: std::path::PathBuf) {
    std::path::PathBuf::from(s)
}

/// `Path::join`: the path with `part` appended; carried, never read.
#[verifier::external_body]
pub(crate) fn path_join(base: &std::path::PathBuf, part: &str) -> (p: std::path::PathBuf) {
    base.join(part)
}

/// Inserts `x` into an ascending vector of distinct values, keeping it ascending.
pub(crate) fn insert_ascending(v: &mut Vec<u64>, x: u64)
    requires
        forall|i: int, j: int| 0 <= i < j < old(v)@.len() ==> old(v)@[i] < old(v)@[j],
        !old(v)@.contains(x),
    ensures
        forall|i: int, j: int| 0 <= i < j < final(v)@.len() ==> final(v)@[i] < final(v)@[j],
        final(v)@.to_set() == old(v)@.to_set().insert(x),
        final(v)@.len() == old(v)@.len() + 1,
{
    let mut pos: usize = 0;
    while pos < v.len() && v[pos] < x
        invariant
            pos <= v@.len(),
            v@ == old(v)@,
            forall|j: int| 0 <= j < pos ==> v@[j] < x,
        decreases v@.len() - pos,
    {
        pos = pos + 1;
    }
    proof {
        if pos < v@.len() {
            assert(v@[pos as int] != x);
        }
    }
    v.insert(pos, x);
    proof {
        let o = old(v)@;
        assert(v@ =~= o.take(pos as int).push(x) + o.skip(pos as int));
        assert forall|i: int, j: int| 0 <= i < j < v@.len() implies v@[i] < v@[j] by {
            if j < pos {
            } else if j == pos {
            } else if i < pos {
                assert(v@[j] == o[j - 1]);
                assert(o[pos as int] > x);
                if j - 1 > pos {
                    assert(o[pos as int] < o[j - 1]);
                }
            } else if i == pos {
                assert(v@[j] == o[j - 1]);
                if j - 1 > pos {
                    assert(o[pos as int] < o[j - 1]);
                }
            } else {
                assert(v@[i] == o[i - 1]);
                assert(v@[j] == o[j - 1]);
            }
        }
        assert forall|y: u64| v@.to_set().contains(y) <==> o.to_set().insert(x).contains(y) by {
            if v@.to_set().contains(y) {
                let k = choose|k: int| 0 <= k < v@.len() && v@[k] == y;
                if k < pos {
                    assert(o[k] == y);
                } else if k > pos {
                    assert(o[k - 1] == y);
                }
            }
            if o.to_set().contains(y) {
                let k = choose|k: int| 0 <= k < o.len() && o[k] == y;
                if k < pos {
                    assert(v@[k] == y);
                } else {
                    assert(v@[k + 1] == y);
                }
            }
            if y == x {
                assert(v@[pos as int] == x);
            }
        }
        assert(v@.to_set() =~= o.to_set().insert(x));
    }
}

/// The distinct values sorted ascending.
pub(crate) fn sort_distinct(values: &Vec<u64>) -> (v: Vec<u64>)
    requires
        values@.no_duplicates(),
    ensures
        forall|i: int, j: int| 0 <= i < j < v@.len() ==> v@[i] < v@[j],
        v@.to_set() == values@.to_set(),
        v@.len() == values@.len(),
{
    let mut v: Vec<u64> = Vec::new();
    let mut i: usize = 0;
    while i < values.len()
        invariant
            i <= values@.len(),
            values@.no_duplicates(),
            forall|a: int, b: int| 0 <= a < b < v@.len() ==> v@[a] < v@[b],
            v@.to_set() == values@.take(i as int).to_set(),
            v@.len() == i,
        decreases values@.len() - i,
    {
        proof {
            let x = values@[i as int];
            if v@.contains(x) {
                assert(v@.to_set().contains(x));
                assert(values@.take(i as int).contains(x));
                let k = choose|k: int| 0 <= k < i && values@.take(i as int)[k] == x;
                assert(values@[k] == x);
            }
        }
        insert_ascending(&mut v, values[i]);
        proof {
            assert(values@.take(i + 1) =~= values@.take(i as int).push(values@[i as int]));
            values@.take(i as int).lemma_push_to_set_commute(values@[i as int]);
        }
        i = i + 1;
    }
    proof {
        assert(values@.take(i as int) =~= values@);
    }
    v
}

} // verus!
