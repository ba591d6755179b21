//! The lexicographic order of byte strings, in which ordered maps keyed by byte arrays
//! and byte vectors list their keys, and a sort into that order.
use vstd::prelude::*;

verus! {

/// Whether `a` comes before `b` lexicographically: at the first byte where they differ
/// the smaller byte, or a proper prefix before the longer string.
pub open spec fn lex_lt(a: Seq<u8>, b: Seq<u8>) -> bool
    decreases a.len(),
{
    if a.len() == 0 {
        b.len() > 0
    } else if b.len() == 0 {
        false
    } else if a[0] != b[0] {
        a[0] < b[0]
    } else {
        lex_lt(a.drop_first(), b.drop_first())
    }
}

/// The lexicographic order is strict: no string comes before itself, and of two strings
/// at most one comes first.
pub proof fn lemma_lex_strict(a: Seq<u8>, b: Seq<u8>)
    ensures
        !lex_lt(a, a),
        lex_lt(a, b) ==> !lex_lt(b, a),
    decreases a.len(),
{
    if a.len() > 0 {
        lemma_lex_strict(a.drop_first(), a.drop_first());
        if b.len() > 0 && a[0] == b[0] {
            lemma_lex_strict(a.drop_first(), b.drop_first());
        }
    }
}

/// The lexicographic order is transitive.
pub proof fn lemma_lex_transitive(a: Seq<u8>, b: Seq<u8>, c: Seq<u8>)
    requires
        lex_lt(a, b),
        lex_lt(b, c),
    ensures
        lex_lt(a, c),
    decreases a.len(),
{
    if a.len() > 0 && b.len() > 0 && c.len() > 0 && a[0] == b[0] && b[0] == c[0] {
        lemma_lex_transitive(a.drop_first(), b.drop_first(), c.drop_first());
    }
}

/// Of two different strings one comes first.
pub proof fn lemma_lex_total(a: Seq<u8>, b: Seq<u8>)
    requires
        a != b,
    ensures
        lex_lt(a, b) || lex_lt(b, a),
    decreases a.len(),
{
    if a.len() > 0 && b.len() > 0 && a[0] == b[0] {
        if a.drop_first() == b.drop_first() {
            assert(a =~= seq![a[0]] + a.drop_first());
            assert(b =~= seq![b[0]] + b.drop_first());
        }
        lemma_lex_total(a.drop_first(), b.drop_first());
    } else if a.len() == 0 && b.len() == 0 {
        assert(a =~= b);
    }
}

/// Whether `a` comes before `b` lexicographically.
pub fn lex_less(a: &[u8], b: &[u8]) -> (r: bool)
    ensures
        r == lex_lt(a@, b@),
{
    let mut i: usize = 0;
    assert(a@.skip(0) =~= a@);
    assert(b@.skip(0) =~= b@);
    while i < a.len() && i < b.len()
        invariant
            i <= a@.len(),
            i <= b@.len(),
            lex_lt(a@, b@) == lex_lt(a@.skip(i as int), b@.skip(i as int)),
        decreases a@.len() - i,
    {
        assert(a@.skip(i as int)[0] == a@[i as int]);
        assert(b@.skip(i as int)[0] == b@[i as int]);
        if a[i] != b[i] {
            return a[i] < b[i];
        }
        assert(a@.skip(i as int).drop_first() =~= a@.skip(i + 1));
        assert(b@.skip(i as int).drop_first() =~= b@.skip(i + 1));
        i = i + 1;
    }
    a.len() == i && b.len() > i
}

/// A value whose view is a byte string, with the bytes at hand.
pub trait ByteString: View<V = Seq<u8>> {
    fn byte_slice(&self) -> (s: &[u8])
        ensures
            s@ == self@,
    ;
}

impl ByteString for [u8; 8] {
    fn byte_slice(&self) -> (s: &[u8]) {
        self.as_slice()
    }
}

impl ByteString for Vec<u8> {
    fn byte_slice(&self) -> (s: &[u8]) {
        self.as_slice()
    }
}

/// The byte strings of a sequence of values.
pub open spec fn byte_views<T: View<V = Seq<u8>>>(s: Seq<T>) -> Seq<Seq<u8>> {
    s.map_values(|t: T| t@)
}

/// Whether the values come in strictly ascending lexicographic order.
pub open spec fn lex_ascending<T: View<V = Seq<u8>>>(s: Seq<T>) -> bool {
    forall|i: int, j: int| 0 <= i < j < s.len() ==> lex_lt(#[trigger] s[i]@, #[trigger] s[j]@)
}

/// Values with pairwise different byte strings have a sequence of byte strings without
/// duplicates, and a byte string is among them exactly when some value has it.
pub proof fn lemma_byte_views<T: View<V = Seq<u8>>>(s: Seq<T>)
    ensures
        (forall|i: int, j: int| 0 <= i < j < s.len() ==> (#[trigger] s[i])@ != (#[trigger] s[j])@)
            ==> byte_views(s).no_duplicates(),
        forall|k: Seq<u8>| #[trigger] byte_views(s).to_set().contains(k) <==> exists|i: int|
            0 <= i < s.len() && (#[trigger] s[i])@ == k,
        byte_views(s).len() == s.len(),
{
    assert forall|k: Seq<u8>| #[trigger] byte_views(s).to_set().contains(k) implies exists|i: int|
        0 <= i < s.len() && (#[trigger] s[i])@ == k by {
        let i = choose|i: int| 0 <= i < byte_views(s).len() && byte_views(s)[i] == k;
        assert(s[i]@ == k);
    }
    assert forall|k: Seq<u8>| (exists|i: int| 0 <= i < s.len() && (#[trigger] s[i])@ == k) implies
        #[trigger] byte_views(s).to_set().contains(k) by {
        let i = choose|i: int| 0 <= i < s.len() && (#[trigger] s[i])@ == k;
        assert(byte_views(s)[i] == k);
    }
    if forall|i: int, j: int| 0 <= i < j < s.len() ==> (#[trigger] s[i])@ != (#[trigger] s[j])@ {
        assert forall|i: int, j: int| 0 <= i < byte_views(s).len() && 0 <= j < byte_views(s).len() && i != j
            implies byte_views(s)[i] != byte_views(s)[j] by {
            if i < j {
                assert(s[i]@ != s[j]@);
            } else {
                assert(s[j]@ != s[i]@);
            }
        }
    }
}

/// Values in strictly ascending order have pairwise different byte strings.
pub proof fn lemma_ascending_distinct<T: View<V = Seq<u8>>>(s: Seq<T>)
    requires
        lex_ascending(s),
    ensures
        forall|i: int, j: int| 0 <= i < j < s.len() ==> (#[trigger] s[i])@ != (#[trigger] s[j])@,
{
    assert forall|i: int, j: int| 0 <= i < j < s.len() implies (#[trigger] s[i])@ != (#[trigger] s[j])@ by {
        assert(lex_lt(s[i]@, s[j]@));
        lemma_lex_strict(s[i]@, s[j]@);
    }
}

/// The values of `items`, whose byte strings are all different, in ascending
/// lexicographic order of their byte strings.
pub fn sort_lex<T: ByteString>(items: Vec<T>) -> (v: Vec<T>)
    requires
        byte_views(items@).no_duplicates(),
    ensures
        v@.len() == items@.len(),
        lex_ascending(v@),
        byte_views(v@).to_set() == byte_views(items@).to_set(),
{
    let ghost orig = items@;
    let mut rest = items;
    let mut v: Vec<T> = Vec::new();
    while rest.len() > 0
        invariant
            orig.len() == v@.len() + rest@.len(),
            rest@ == orig.take(rest@.len() as int),
            byte_views(orig).no_duplicates(),
            lex_ascending(v@),
            byte_views(v@).to_set() == byte_views(orig.skip(rest@.len() as int)).to_set(),
        decreases rest@.len(),
    {
        let ghost k = rest@.len() as int;
        let x = rest.pop().unwrap();
        proof {
            assert(x == orig[k - 1]);
            assert(orig.skip(k - 1) =~= seq![x].add(orig.skip(k)));
            assert(!byte_views(v@).to_set().contains(x@)) by {
                if byte_views(v@).to_set().contains(x@) {
                    assert(byte_views(orig.skip(k)).contains(x@));
                    let j = choose|j: int| 0 <= j < byte_views(orig.skip(k)).len()
                        && byte_views(orig.skip(k))[j] == x@;
                    assert(byte_views(orig)[k + j] == byte_views(orig)[k - 1]);
                }
            }
        }
        let mut pos: usize = 0;
        while pos < v.len() && lex_less(v[pos].byte_slice(), x.byte_slice())
            invariant
                pos <= v@.len(),
                forall|j: int| 0 <= j < pos ==> lex_lt(#[trigger] v@[j]@, x@),
            decreases v@.len() - pos,
        {
            pos = pos + 1;
        }
        let ghost old_v = v@;
        proof {
            if pos < v@.len() {
                assert(byte_views(v@).to_set().contains(v@[pos as int]@)) by {
                    assert(byte_views(v@)[pos as int] == v@[pos as int]@);
                }
                assert(v@[pos as int]@ != x@);
                lemma_lex_total(v@[pos as int]@, x@);
            }
        }
        v.insert(pos, x);
        proof {
            assert(v@ =~= old_v.take(pos as int).push(x) + old_v.skip(pos as int));
            assert forall|i: int, j: int| 0 <= i < j < v@.len() implies lex_lt(#[trigger] v@[i]@, #[trigger] v@[j]@) by {
                if j < pos {
                } else if j == pos {
                    assert(v@[i] == old_v[i]);
                } else if i < pos {
                    assert(v@[j] == old_v[j - 1]);
                    assert(v@[i] == old_v[i]);
                    if j - 1 > pos {
                        lemma_lex_transitive(x@, old_v[pos as int]@, old_v[j - 1]@);
                    }
                    lemma_lex_transitive(old_v[i]@, x@, old_v[j - 1]@);
                } else if i == pos {
                    assert(v@[j] == old_v[j - 1]);
                    if j - 1 > pos {
                        lemma_lex_transitive(x@, old_v[pos as int]@, old_v[j - 1]@);
                    }
                } else {
                    assert(v@[i] == old_v[i - 1]);
                    assert(v@[j] == old_v[j - 1]);
                }
            }
            assert(byte_views(v@).to_set() =~= byte_views(old_v).to_set().insert(x@)) by {
                assert forall|y: Seq<u8>| byte_views(v@).to_set().contains(y) <==> byte_views(old_v).to_set().insert(x@).contains(y) by {
                    if byte_views(v@).to_set().contains(y) {
                        let k2 = choose|k2: int| 0 <= k2 < byte_views(v@).len() && byte_views(v@)[k2] == y;
                        if k2 < pos {
                            assert(byte_views(old_v)[k2] == y);
                        } else if k2 > pos {
                            assert(byte_views(old_v)[k2 - 1] == y);
                        }
                    }
                    if byte_views(old_v).to_set().contains(y) {
                        let k2 = choose|k2: int| 0 <= k2 < byte_views(old_v).len() && byte_views(old_v)[k2] == y;
                        if k2 < pos {
                            assert(byte_views(v@)[k2] == y);
                        } else {
                            assert(byte_views(v@)[k2 + 1] == y);
                        }
                    }
                    if y == x@ {
                        assert(byte_views(v@)[pos as int] == x@);
                    }
                }
            }
            assert(byte_views(orig.skip(k - 1)).to_set() =~= byte_views(orig.skip(k)).to_set().insert(x@)) by {
                assert(byte_views(orig.skip(k - 1)) =~= seq![x@] + byte_views(orig.skip(k)));
                assert forall|y: Seq<u8>| byte_views(orig.skip(k - 1)).to_set().contains(y) <==> byte_views(orig.skip(k)).to_set().insert(x@).contains(y) by {
                    let a = byte_views(orig.skip(k - 1));
                    let b = byte_views(orig.skip(k));
                    if a.contains(y) && y != x@ {
                        let k2 = choose|k2: int| 0 <= k2 < a.len() && a[k2] == y;
                        assert(b[k2 - 1] == y);
                    }
                    if b.contains(y) {
                        let k2 = choose|k2: int| 0 <= k2 < b.len() && b[k2] == y;
                        assert(a[k2 + 1] == y);
                    }
                    if y == x@ {
                        assert(a[0] == y);
                    }
                }
            }
        }
    }
    assert(orig.skip(0) =~= orig);
    v
}

} // verus!
