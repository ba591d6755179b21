//! Word-wise operations on bitmaps stored as `u64` words, and a compressed bitmap
//! of `u32` values.
use crate::roaring_sets::{
    treemap_and_assign, treemap_clone, treemap_contains, treemap_first_n, treemap_insert, treemap_len,
    treemap_new, treemap_or_assign, treemap_remove, treemap_set, treemap_sub_assign,
};
use roaring::RoaringTreemap;
use std::sync::Arc;
use vstd::prelude::*;

verus! {

/// Operations on bitmaps stored as `u64` words, bit `b` of word `i` standing for
/// position `64 * i + b`.
pub struct SimdBitmapEngine {
    buffer: Vec<u64>,
    buffer_size: usize,
}

/// The number of set bits of a word.
pub open spec fn bit_count(w: u64) -> nat
    decreases w,
{
    if w == 0 {
        0
    } else {
        (w % 2) as nat + bit_count(w / 2)
    }
}

/// The number of set bits of the first `n` words.
pub open spec fn bits_in(words: Seq<u64>, n: int) -> nat
    decreases n,
{
    if n <= 0 {
        0
    } else {
        bits_in(words, n - 1) + bit_count(words[n - 1])
    }
}

/// The number of set bits of `a[i] & b[i]` over the first `n` words.
pub open spec fn bits_in_and(a: Seq<u64>, b: Seq<u64>, n: int) -> nat
    decreases n,
{
    if n <= 0 {
        0
    } else {
        bits_in_and(a, b, n - 1) + bit_count(a[n - 1] & b[n - 1])
    }
}

/// The number of set bits of `a[i] | b[i]` over the first `n` words.
pub open spec fn bits_in_or(a: Seq<u64>, b: Seq<u64>, n: int) -> nat
    decreases n,
{
    if n <= 0 {
        0
    } else {
        bits_in_or(a, b, n - 1) + bit_count(a[n - 1] | b[n - 1])
    }
}

/// The number of words two bitmaps share.
pub open spec fn shared_len(a: Seq<u64>, b: Seq<u64>) -> int {
    if a.len() <= b.len() {
        a.len() as int
    } else {
        b.len() as int
    }
}

/// Whether bit `b` of word `w` is set.
pub open spec fn bit_of(w: u64, b: u64) -> bool {
    (w >> b) & 1 == 1
}

/// Whether position `p` of the bitmap is set.
pub open spec fn position_set(words: Seq<u64>, p: int) -> bool {
    0 <= p < words.len() * 64 && bit_of(words[p / 64], (p % 64) as u64)
}

/// The merge of two sequences: the smaller head first, and a head found in both once.
pub open spec fn merge(a: Seq<u64>, b: Seq<u64>) -> Seq<u64>
    decreases a.len() + b.len(),
{
    if a.len() == 0 {
        b
    } else if b.len() == 0 {
        a
    } else if a[0] < b[0] {
        seq![a[0]] + merge(a.drop_first(), b)
    } else if a[0] > b[0] {
        seq![b[0]] + merge(a, b.drop_first())
    } else {
        seq![a[0]] + merge(a.drop_first(), b.drop_first())
    }
}

/// The length of three.
pub open spec fn min3(a: int, b: int, c: int) -> int {
    if a <= b && a <= c {
        a
    } else if b <= c {
        b
    } else {
        c
    }
}

/// The result of a word-wise operation: the first `len` words combined, the rest
/// of `result` unchanged.
pub open spec fn combined(
    a: Seq<u64>,
    b: Seq<u64>,
    result: Seq<u64>,
    op: spec_fn(u64, u64) -> u64,
) -> Seq<u64> {
    let len = min3(a.len() as int, b.len() as int, result.len() as int);
    Seq::new(result.len(), |i: int| if i < len { op(a[i], b[i]) } else { result[i] })
}

proof fn lemma_bit_count_bound(w: u64)
    ensures
        bit_count(w) <= 64,
{
    lemma_pow2_64();
    lemma_bit_count_below(w, 64);
}

proof fn lemma_bit_count_below(w: u64, k: nat)
    requires
        w < pow2(k),
    ensures
        bit_count(w) <= k,
    decreases k,
{
    if w != 0 {
        if k == 0 {
            assert(pow2(0) == 1);
        } else {
            assert(w / 2 < pow2((k - 1) as nat)) by {
                assert(pow2(k) == 2 * pow2((k - 1) as nat));
            }
            lemma_bit_count_below(w / 2, (k - 1) as nat);
        }
    }
}

/// Two to the power `k`.
pub open spec fn pow2(k: nat) -> nat
    decreases k,
{
    if k == 0 {
        1
    } else {
        2 * pow2((k - 1) as nat)
    }
}

proof fn lemma_pow2_64()
    ensures
        pow2(64) == 0x1_0000_0000_0000_0000,
{
    reveal_with_fuel(pow2, 65);
}

/// The number of set bits of a word, computed bit by bit.
fn count_word(w: u64) -> (n: usize)
    ensures
        n == bit_count(w),
{
    proof {
        lemma_pow2_64();
        lemma_bit_count_bound(w);
    }
    let mut x = w;
    let mut n: usize = 0;
    while x != 0
        invariant
            n + bit_count(x) == bit_count(w),
            bit_count(w) <= 64,
        decreases x,
    {
        n = n + (x % 2) as usize;
        x = x / 2;
    }
    n
}

impl SimdBitmapEngine {
    /// The scratch buffer.
    pub closed spec fn scratch(&self) -> Seq<u64> {
        self.buffer@
    }

    /// An engine with a zeroed buffer of `buffer_size` words.
    pub fn new(buffer_size: usize) -> (e: Self)
        ensures
            e.scratch() == Seq::new(buffer_size as nat, |i: int| 0u64),
    {
        let mut buffer: Vec<u64> = Vec::new();
        let mut i: usize = 0;
        while i < buffer_size
            invariant
                i <= buffer_size,
                buffer@ == Seq::new(i as nat, |k: int| 0u64),
            decreases buffer_size - i,
        {
            buffer.push(0);
            i = i + 1;
            assert(buffer@ =~= Seq::new(i as nat, |k: int| 0u64));
        }
        SimdBitmapEngine { buffer, buffer_size }
    }

    /// `result[i] = a[i] & b[i]` for every position the three share.
    pub fn bitmap_and(&self, a: &[u64], b: &[u64], result: &mut Vec<u64>)
        ensures
            final(result)@ == combined(a@, b@, old(result)@, |x: u64, y: u64| x & y),
    {
        let len = if a.len() <= b.len() && a.len() <= result.len() {
            a.len()
        } else if b.len() <= result.len() {
            b.len()
        } else {
            result.len()
        };
        let mut i: usize = 0;
        while i < len
            invariant
                len == min3(a@.len() as int, b@.len() as int, old(result)@.len() as int),
                i <= len,
                result@.len() == old(result)@.len(),
                forall|j: int| 0 <= j < i ==> result@[j] == a@[j] & b@[j],
                forall|j: int| i <= j < result@.len() ==> result@[j] == old(result)@[j],
            decreases len - i,
        {
            result.set(i, a[i] & b[i]);
            i = i + 1;
        }
        assert(result@ =~= combined(a@, b@, old(result)@, |x: u64, y: u64| x & y));
    }

    /// `result[i] = a[i] | b[i]` for every position the three share.
    pub fn bitmap_or(&self, a: &[u64], b: &[u64], result: &mut Vec<u64>)
        ensures
            final(result)@ == combined(a@, b@, old(result)@, |x: u64, y: u64| x | y),
    {
        let len = if a.len() <= b.len() && a.len() <= result.len() {
            a.len()
        } else if b.len() <= result.len() {
            b.len()
        } else {
            result.len()
        };
        let mut i: usize = 0;
        while i < len
            invariant
                len == min3(a@.len() as int, b@.len() as int, old(result)@.len() as int),
                i <= len,
                result@.len() == old(result)@.len(),
                forall|j: int| 0 <= j < i ==> result@[j] == a@[j] | b@[j],
                forall|j: int| i <= j < result@.len() ==> result@[j] == old(result)@[j],
            decreases len - i,
        {
            result.set(i, a[i] | b[i]);
            i = i + 1;
        }
        assert(result@ =~= combined(a@, b@, old(result)@, |x: u64, y: u64| x | y));
    }

    /// `result[i] = a[i] ^ b[i]` for every position the three share.
    pub fn bitmap_xor(&self, a: &[u64], b: &[u64], result: &mut Vec<u64>)
        ensures
            final(result)@ == combined(a@, b@, old(result)@, |x: u64, y: u64| x ^ y),
    {
        let len = if a.len() <= b.len() && a.len() <= result.len() {
            a.len()
        } else if b.len() <= result.len() {
            b.len()
        } else {
            result.len()
        };
        let mut i: usize = 0;
        while i < len
            invariant
                len == min3(a@.len() as int, b@.len() as int, old(result)@.len() as int),
                i <= len,
                result@.len() == old(result)@.len(),
                forall|j: int| 0 <= j < i ==> result@[j] == a@[j] ^ b@[j],
                forall|j: int| i <= j < result@.len() ==> result@[j] == old(result)@[j],
            decreases len - i,
        {
            result.set(i, a[i] ^ b[i]);
            i = i + 1;
        }
        assert(result@ =~= combined(a@, b@, old(result)@, |x: u64, y: u64| x ^ y));
    }

    /// The number of set bits.
    pub fn popcount(&self, bitmap: &[u64]) -> (n: usize)
        requires
            bits_in(bitmap@, bitmap@.len() as int) <= usize::MAX,
        ensures
            n == bits_in(bitmap@, bitmap@.len() as int),
    {
        let mut n: usize = 0;
        let mut i: usize = 0;
        while i < bitmap.len()
            invariant
                i <= bitmap@.len(),
                bits_in(bitmap@, bitmap@.len() as int) <= usize::MAX,
                n == bits_in(bitmap@, i as int),
            decreases bitmap@.len() - i,
        {
            proof {
                lemma_bits_in_monotone(bitmap@, i + 1, bitmap@.len() as int);
            }
            n = n + count_word(bitmap[i]);
            i = i + 1;
        }
        n
    }

    /// The first set position: word `i`, the first word that is not zero, at its
    /// lowest set bit; none when every word is zero.
    pub fn find_first_set(&self, bitmap: &[u64]) -> (r: Option<usize>)
        requires
            bitmap@.len() * 64 <= usize::MAX,
        ensures
            r is None <==> forall|i: int| 0 <= i < bitmap@.len() ==> bitmap@[i] == 0,
            r matches Some(p) ==> exists|i: int|
                0 <= i < bitmap@.len() && bitmap@[i] != 0 && (forall|j: int| 0 <= j < i ==> bitmap@[j] == 0)
                    && p == i * 64 + vstd::std_specs::bits::u64_trailing_zeros(#[trigger] bitmap@[i]),
    {
        let mut i: usize = 0;
        while i < bitmap.len()
            invariant
                i <= bitmap@.len(),
                bitmap@.len() * 64 <= usize::MAX,
                forall|j: int| 0 <= j < i ==> bitmap@[j] == 0,
            decreases bitmap@.len() - i,
        {
            let word = bitmap[i];
            if word != 0 {
                let bit = word.trailing_zeros();
                proof {
                    vstd::std_specs::bits::axiom_u64_trailing_zeros(word);
                    assert(i * 64 + 64 <= bitmap@.len() * 64) by (nonlinear_arith)
                        requires
                            i < bitmap@.len(),
                    ;
                }
                return Some(i * 64 + bit as usize);
            }
            i = i + 1;
        }
        None
    }

    /// Every set position, in ascending order.
    pub fn find_all_set(&self, bitmap: &[u64]) -> (v: Vec<usize>)
        requires
            bitmap@.len() * 64 <= usize::MAX,
        ensures
            forall|a: int, b: int| 0 <= a < b < v@.len() ==> v@[a] < v@[b],
            forall|p: int| 0 <= p <= usize::MAX ==> (v@.contains(p as usize) <==> position_set(bitmap@, p)),
    {
        let mut v: Vec<usize> = Vec::new();
        let mut i: usize = 0;
        while i < bitmap.len()
            invariant
                i <= bitmap@.len(),
                bitmap@.len() * 64 <= usize::MAX,
                forall|a: int, b: int| 0 <= a < b < v@.len() ==> v@[a] < v@[b],
                forall|k: int| 0 <= k < v@.len() ==> v@[k] < i * 64,
                forall|p: int| 0 <= p < i * 64 ==> (v@.contains(p as usize) <==> position_set(bitmap@, p)),
            decreases bitmap@.len() - i,
        {
            let word = bitmap[i];
            proof {
                assert(i * 64 + 64 <= bitmap@.len() * 64) by (nonlinear_arith)
                    requires
                        i < bitmap@.len(),
                ;
            }
            let mut b: u64 = 0;
            while b < 64
                invariant
                    i < bitmap@.len(),
                    word == bitmap@[i as int],
                    i * 64 + 64 <= usize::MAX,
                    b <= 64,
                    forall|x: int, y: int| 0 <= x < y < v@.len() ==> v@[x] < v@[y],
                    forall|k: int| 0 <= k < v@.len() ==> v@[k] < i * 64 + b,
                    forall|p: int| 0 <= p < i * 64 + b ==> (v@.contains(p as usize) <==> position_set(bitmap@, p)),
                decreases 64 - b,
            {
                let p = i * 64 + b as usize;
                proof {
                    lemma_position(i as int, b as int);
                }
                let ghost old_v = v@;
                if (word >> b) & 1 == 1 {
                    v.push(p);
                }
                proof {
                    assert(position_set(bitmap@, p as int) == bit_of(word, b));
                    assert forall|q: int| 0 <= q < i * 64 + b + 1 implies (v@.contains(q as usize)
                        <==> position_set(bitmap@, q)) by {
                        if q < i * 64 + b {
                            if v@.contains(q as usize) {
                                let k = choose|k: int| 0 <= k < v@.len() && v@[k] == q as usize;
                                if k < old_v.len() {
                                    assert(old_v[k] == q as usize);
                                    assert(old_v.contains(q as usize));
                                }
                            }
                            if old_v.contains(q as usize) {
                                let k = choose|k: int| 0 <= k < old_v.len() && old_v[k] == q as usize;
                                assert(v@[k] == q as usize);
                            }
                        } else {
                            assert(q == p);
                            if old_v.contains(q as usize) {
                                let k = choose|k: int| 0 <= k < old_v.len() && old_v[k] == q as usize;
                            }
                            if bit_of(word, b) {
                                assert(v@[v@.len() - 1] == p);
                            } else {
                                assert(v@ == old_v);
                            }
                        }
                    }
                }
                b = b + 1;
            }
            i = i + 1;
        }
        proof {
            assert forall|p: int| 0 <= p <= usize::MAX implies (v@.contains(p as usize) <==> position_set(bitmap@, p)) by {
                if p >= i * 64 {
                    if v@.contains(p as usize) {
                        let k = choose|k: int| 0 <= k < v@.len() && v@[k] == p as usize;
                    }
                }
            }
        }
        v
    }

    /// The merge of two sequences (see `merge`): for two ascending sequences, their
    /// values in ascending order, each once.
    pub fn merge_sorted(&self, a: &[u64], b: &[u64]) -> (r: Vec<u64>)
        ensures
            r@ == merge(a@, b@),
    {
        let mut result: Vec<u64> = Vec::new();
        let mut i: usize = 0;
        let mut j: usize = 0;
        proof {
            assert(a@.skip(0) =~= a@);
            assert(b@.skip(0) =~= b@);
            assert(result@ + merge(a@, b@) =~= merge(a@, b@));
        }
        while i < a.len() && j < b.len()
            invariant
                i <= a@.len(),
                j <= b@.len(),
                result@ + merge(a@.skip(i as int), b@.skip(j as int)) == merge(a@, b@),
            decreases a@.len() - i + b@.len() - j,
        {
            let ghost sa = a@.skip(i as int);
            let ghost sb = b@.skip(j as int);
            proof {
                assert(sa[0] == a@[i as int]);
                assert(sb[0] == b@[j as int]);
                assert(sa.drop_first() =~= a@.skip(i + 1));
                assert(sb.drop_first() =~= b@.skip(j + 1));
            }
            if a[i] < b[j] {
                result.push(a[i]);
                i = i + 1;
                proof {
                    assert(result@ + merge(a@.skip(i as int), b@.skip(j as int)) =~= result@.drop_last() + (
                    seq![a@[i - 1]] + merge(a@.skip(i as int), sb)));
                }
            } else if a[i] > b[j] {
                result.push(b[j]);
                j = j + 1;
                proof {
                    assert(result@ + merge(a@.skip(i as int), b@.skip(j as int)) =~= result@.drop_last() + (
                    seq![b@[j - 1]] + merge(sa, b@.skip(j as int))));
                }
            } else {
                result.push(a[i]);
                i = i + 1;
                j = j + 1;
                proof {
                    assert(result@ + merge(a@.skip(i as int), b@.skip(j as int)) =~= result@.drop_last() + (
                    seq![a@[i - 1]] + merge(a@.skip(i as int), b@.skip(j as int))));
                }
            }
        }
        proof {
            if i == a@.len() {
                assert(a@.skip(i as int) =~= Seq::<u64>::empty());
                assert(merge(a@.skip(i as int), b@.skip(j as int)) == b@.skip(j as int));
            } else {
                assert(b@.skip(j as int) =~= Seq::<u64>::empty());
                assert(merge(a@.skip(i as int), b@.skip(j as int)) == a@.skip(i as int));
            }
        }
        let mut k: usize = i;
        while k < a.len()
            invariant
                i <= k <= a@.len(),
                result@ + a@.skip(k as int) + (if i == a@.len() { b@.skip(j as int) } else { Seq::empty() }) == merge(a@, b@),
                i < a@.len() ==> j == b@.len(),
            decreases a@.len() - k,
        {
            proof {
                assert(a@.skip(k as int) =~= seq![a@[k as int]] + a@.skip(k + 1));
            }
            result.push(a[k]);
            k = k + 1;
        }
        let mut m: usize = j;
        while m < b.len()
            invariant
                j <= m <= b@.len(),
                result@ + b@.skip(m as int) == merge(a@, b@),
            decreases b@.len() - m,
        {
            proof {
                assert(b@.skip(m as int) =~= seq![b@[m as int]] + b@.skip(m + 1));
            }
            result.push(b[m]);
            m = m + 1;
        }
        proof {
            assert(b@.skip(m as int) =~= Seq::<u64>::empty());
            assert(result@ + b@.skip(m as int) =~= result@);
        }
        result
    }

    /// The number of set bits of `a[i] & b[i]` over the words both have.
    pub fn intersection_size(&self, a: &[u64], b: &[u64]) -> (n: usize)
        requires
            bits_in_and(a@, b@, shared_len(a@, b@)) <= usize::MAX,
        ensures
            n == bits_in_and(a@, b@, shared_len(a@, b@)),
    {
        let len = if a.len() <= b.len() { a.len() } else { b.len() };
        let mut n: usize = 0;
        let mut i: usize = 0;
        while i < len
            invariant
                len == shared_len(a@, b@),
                i <= len,
                bits_in_and(a@, b@, len as int) <= usize::MAX,
                n == bits_in_and(a@, b@, i as int),
            decreases len - i,
        {
            proof {
                lemma_bits_in_and_monotone(a@, b@, i + 1, len as int);
            }
            n = n + count_word(a[i] & b[i]);
            i = i + 1;
        }
        n
    }

    /// The number of set bits of `a[i] | b[i]` over the words both have.
    pub fn union_size(&self, a: &[u64], b: &[u64]) -> (n: usize)
        requires
            bits_in_or(a@, b@, shared_len(a@, b@)) <= usize::MAX,
        ensures
            n == bits_in_or(a@, b@, shared_len(a@, b@)),
    {
        let len = if a.len() <= b.len() { a.len() } else { b.len() };
        let mut n: usize = 0;
        let mut i: usize = 0;
        while i < len
            invariant
                len == shared_len(a@, b@),
                i <= len,
                bits_in_or(a@, b@, len as int) <= usize::MAX,
                n == bits_in_or(a@, b@, i as int),
            decreases len - i,
        {
            proof {
                lemma_bits_in_or_monotone(a@, b@, i + 1, len as int);
            }
            n = n + count_word(a[i] | b[i]);
            i = i + 1;
        }
        n
    }
}

proof fn lemma_position(i: int, b: int)
    requires
        0 <= i,
        0 <= b < 64,
    ensures
        (i * 64 + b) / 64 == i,
        (i * 64 + b) % 64 == b,
{
    vstd::arithmetic::div_mod::lemma_fundamental_div_mod_converse(i * 64 + b, 64, i, b);
}

proof fn lemma_bits_in_monotone(s: Seq<u64>, a: int, b: int)
    requires
        a <= b,
    ensures
        bits_in(s, a) <= bits_in(s, b),
    decreases b - a,
{
    if a < b {
        lemma_bits_in_monotone(s, a, b - 1);
    }
}

proof fn lemma_bits_in_and_monotone(x: Seq<u64>, y: Seq<u64>, a: int, b: int)
    requires
        a <= b,
    ensures
        bits_in_and(x, y, a) <= bits_in_and(x, y, b),
    decreases b - a,
{
    if a < b {
        lemma_bits_in_and_monotone(x, y, a, b - 1);
    }
}

proof fn lemma_bits_in_or_monotone(x: Seq<u64>, y: Seq<u64>, a: int, b: int)
    requires
        a <= b,
    ensures
        bits_in_or(x, y, a) <= bits_in_or(x, y, b),
    decreases b - a,
{
    if a < b {
        lemma_bits_in_or_monotone(x, y, a, b - 1);
    }
}

/// Whether a sequence is strictly ascending.
pub open spec fn strictly_ascending(s: Seq<u64>) -> bool {
    forall|i: int, j: int| 0 <= i < j < s.len() ==> s[i] < s[j]
}

proof fn lemma_prepend_ascending(x: u64, t: Seq<u64>)
    requires
        strictly_ascending(t),
        forall|k: u64| t.contains(k) ==> x < k,
    ensures
        strictly_ascending(seq![x] + t),
{
    let s = seq![x] + t;
    assert forall|i: int, j: int| 0 <= i < j < s.len() implies s[i] < s[j] by {
        if i == 0 {
            assert(s[j] == t[j - 1]);
            assert(t.contains(t[j - 1]));
        } else {
            assert(s[i] == t[i - 1] && s[j] == t[j - 1]);
        }
    }
}

/// Merging two strictly ascending sequences gives a strictly ascending sequence of
/// the values of both.
pub proof fn lemma_merge_sorted(a: Seq<u64>, b: Seq<u64>)
    requires
        strictly_ascending(a),
        strictly_ascending(b),
    ensures
        strictly_ascending(merge(a, b)),
        forall|k: u64| #[trigger] merge(a, b).contains(k) <==> a.contains(k) || b.contains(k),
    decreases a.len() + b.len(),
{
    if a.len() == 0 || b.len() == 0 {
    } else {
        let a1 = a.drop_first();
        let b1 = b.drop_first();
        assert forall|k: u64| a1.contains(k) implies a[0] < k by {
            let i = choose|i: int| 0 <= i < a1.len() && a1[i] == k;
            assert(a[i + 1] == k);
        }
        assert forall|k: u64| b1.contains(k) implies b[0] < k by {
            let i = choose|i: int| 0 <= i < b1.len() && b1[i] == k;
            assert(b[i + 1] == k);
        }
        assert forall|k: u64| a.contains(k) <==> (k == a[0] || a1.contains(k)) by {
            if a.contains(k) && k != a[0] {
                let i = choose|i: int| 0 <= i < a.len() && a[i] == k;
                assert(a1[i - 1] == k);
            }
            if a1.contains(k) {
                let i = choose|i: int| 0 <= i < a1.len() && a1[i] == k;
                assert(a[i + 1] == k);
            }
        }
        assert forall|k: u64| b.contains(k) <==> (k == b[0] || b1.contains(k)) by {
            if b.contains(k) && k != b[0] {
                let i = choose|i: int| 0 <= i < b.len() && b[i] == k;
                assert(b1[i - 1] == k);
            }
            if b1.contains(k) {
                let i = choose|i: int| 0 <= i < b1.len() && b1[i] == k;
                assert(b[i + 1] == k);
            }
        }
        if a[0] < b[0] {
            lemma_merge_sorted(a1, b);
            let t = merge(a1, b);
            assert forall|k: u64| t.contains(k) implies a[0] < k by {
                if b.contains(k) && k != b[0] {
                    assert(b1.contains(k));
                }
            }
            lemma_prepend_ascending(a[0], t);
            assert forall|k: u64| #[trigger] merge(a, b).contains(k) <==> a.contains(k) || b.contains(k) by {
                let s = seq![a[0]] + t;
                if s.contains(k) && k != a[0] {
                    let i = choose|i: int| 0 <= i < s.len() && s[i] == k;
                    assert(t[i - 1] == k);
                }
                if t.contains(k) {
                    let i = choose|i: int| 0 <= i < t.len() && t[i] == k;
                    assert(s[i + 1] == k);
                }
                assert(s[0] == a[0]);
            }
        } else if a[0] > b[0] {
            lemma_merge_sorted(a, b1);
            let t = merge(a, b1);
            assert forall|k: u64| t.contains(k) implies b[0] < k by {
                if a.contains(k) && k != a[0] {
                    assert(a1.contains(k));
                }
            }
            lemma_prepend_ascending(b[0], t);
            assert forall|k: u64| #[trigger] merge(a, b).contains(k) <==> a.contains(k) || b.contains(k) by {
                let s = seq![b[0]] + t;
                if s.contains(k) && k != b[0] {
                    let i = choose|i: int| 0 <= i < s.len() && s[i] == k;
                    assert(t[i - 1] == k);
                }
                if t.contains(k) {
                    let i = choose|i: int| 0 <= i < t.len() && t[i] == k;
                    assert(s[i + 1] == k);
                }
                assert(s[0] == b[0]);
            }
        } else {
            lemma_merge_sorted(a1, b1);
            let t = merge(a1, b1);
            lemma_prepend_ascending(a[0], t);
            assert forall|k: u64| #[trigger] merge(a, b).contains(k) <==> a.contains(k) || b.contains(k) by {
                let s = seq![a[0]] + t;
                if s.contains(k) && k != a[0] {
                    let i = choose|i: int| 0 <= i < s.len() && s[i] == k;
                    assert(t[i - 1] == k);
                }
                if t.contains(k) {
                    let i = choose|i: int| 0 <= i < t.len() && t[i] == k;
                    assert(s[i + 1] == k);
                }
                assert(s[0] == a[0]);
            }
        }
    }
}

proof fn lemma_bounded_finite(s: Set<u64>)
    requires
        forall|v: u64| #[trigger] s.contains(v) ==> v <= u32::MAX,
    ensures
        s.finite(),
        s.len() <= 0x1_0000_0000,
{
    let r = Set::<u64>::range(0, 0x1_0000_0000);
    vstd::set_lib::range_set_properties::<u64>(0, 0x1_0000_0000);
    assert(s.subset_of(r));
    vstd::set_lib::lemma_len_subset(s, r);
}

/// A compressed bitmap of `u32` values, sharing a word engine.
pub struct SimdRoaringBitmap {
    bitmap: RoaringTreemap,
    engine: Arc<SimdBitmapEngine>,
}

impl SimdRoaringBitmap {
    /// The values held.
    pub closed spec fn values(&self) -> Set<u64> {
        treemap_set(self.bitmap)
    }

    /// Only `u32` values are held.
    pub closed spec fn wf(&self) -> bool {
        forall|v: u64| #[trigger] treemap_set(self.bitmap).contains(v) ==> v <= u32::MAX
    }

    /// An empty bitmap.
    pub fn new(engine: Arc<SimdBitmapEngine>) -> (b: Self)
        ensures
            b.wf(),
            b.values() == Set::<u64>::empty(),
    {
        SimdRoaringBitmap { bitmap: treemap_new(), engine }
    }

    /// Adds the value; true when it was not there.
    pub fn insert(&mut self, value: u32) -> (added: bool)
        requires
            old(self).wf(),
        ensures
            final(self).wf(),
            final(self).values() == old(self).values().insert(value as u64),
            added == !old(self).values().contains(value as u64),
    {
        treemap_insert(&mut self.bitmap, value as u64)
    }

    /// Removes the value; true when it was there.
    pub fn remove(&mut self, value: u32) -> (removed: bool)
        requires
            old(self).wf(),
        ensures
            final(self).wf(),
            final(self).values() == old(self).values().remove(value as u64),
            removed == old(self).values().contains(value as u64),
    {
        treemap_remove(&mut self.bitmap, value as u64)
    }

    /// Whether the value is held.
    pub fn contains(&self, value: u32) -> (r: bool)
        ensures
            r == self.values().contains(value as u64),
    {
        treemap_contains(&self.bitmap, value as u64)
    }

    /// Number of values.
    pub fn len(&self) -> (n: u64)
        requires
            self.wf(),
        ensures
            n == self.values().len(),
    {
        proof {
            lemma_bounded_finite(self.values());
        }
        treemap_len(&self.bitmap)
    }

    /// The values in both bitmaps.
    pub fn intersection(&self, other: &SimdRoaringBitmap) -> (r: SimdRoaringBitmap)
        requires
            self.wf(),
        ensures
            r.wf(),
            r.values() == self.values().intersect(other.values()),
    {
        let mut b = treemap_clone(&self.bitmap);
        treemap_and_assign(&mut b, &other.bitmap);
        SimdRoaringBitmap { bitmap: b, engine: self.engine.clone() }
    }

    /// The values in either bitmap.
    pub fn union(&self, other: &SimdRoaringBitmap) -> (r: SimdRoaringBitmap)
        requires
            self.wf(),
            other.wf(),
        ensures
            r.wf(),
            r.values() == self.values().union(other.values()),
    {
        let mut b = treemap_clone(&self.bitmap);
        treemap_or_assign(&mut b, &other.bitmap);
        SimdRoaringBitmap { bitmap: b, engine: self.engine.clone() }
    }

    /// The values in this bitmap and not in the other.
    pub fn difference(&self, other: &SimdRoaringBitmap) -> (r: SimdRoaringBitmap)
        requires
            self.wf(),
        ensures
            r.wf(),
            r.values() == self.values().difference(other.values()),
    {
        let mut b = treemap_clone(&self.bitmap);
        treemap_sub_assign(&mut b, &other.bitmap);
        SimdRoaringBitmap { bitmap: b, engine: self.engine.clone() }
    }

    /// The values in ascending order (every one of them, unless there are
    /// `usize::MAX` or more).
    pub fn iter(&self) -> (v: Vec<u32>)
        requires
            self.wf(),
        ensures
            forall|i: int, j: int| 0 <= i < j < v@.len() ==> v@[i] < v@[j],
            forall|i: int| 0 <= i < v@.len() ==> self.values().contains(#[trigger] v@[i] as u64),
            self.values().len() < usize::MAX ==> forall|x: u64| #[trigger] self.values().contains(x) ==> exists|i: int|
                0 <= i < v@.len() && v@[i] as u64 == x,
    {
        let ids = treemap_first_n(&self.bitmap, usize::MAX);
        let mut v: Vec<u32> = Vec::new();
        let mut i: usize = 0;
        while i < ids.len()
            invariant
                self.wf(),
                i <= ids@.len(),
                forall|a: int, b: int| 0 <= a < b < ids@.len() ==> ids@[a] < ids@[b],
                forall|a: int| 0 <= a < ids@.len() ==> treemap_set(self.bitmap).contains(#[trigger] ids@[a]),
                v@.len() == i,
                forall|a: int| 0 <= a < i ==> (#[trigger] v@[a]) as u64 == ids@[a],
            decreases ids@.len() - i,
        {
            let x = ids[i];
            proof {
                assert(treemap_set(self.bitmap).contains(ids@[i as int]));
            }
            v.push(x as u32);
            i = i + 1;
        }
        proof {
            assert forall|a: int, b: int| 0 <= a < b < v@.len() implies v@[a] < v@[b] by {
                assert(v@[a] as u64 == ids@[a]);
                assert(v@[b] as u64 == ids@[b]);
            }
            if self.values().len() < usize::MAX {
                assert forall|x: u64| #[trigger] self.values().contains(x) implies exists|a: int|
                    0 <= a < v@.len() && v@[a] as u64 == x by {
                    lemma_bounded_finite(self.values());
                    if ids@.len() == usize::MAX {
                        crate::bitmap::lemma_prefix_len(treemap_set(self.bitmap), ids@);
                    }
                    assert(ids@.to_set().contains(x));
                    let a = choose|a: int| 0 <= a < ids@.len() && ids@[a] == x;
                    assert(v@[a] as u64 == x);
                }
            }
        }
        v
    }
}

} // verus!
