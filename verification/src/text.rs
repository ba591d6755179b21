//! Character-level reading of text: white space, trimming, decimal numbers.
use vstd::prelude::*;
use vstd::string::StrSliceExecFns;

verus! {

/// The characters of a string.
pub fn chars_of(s: &str) -> (v: Vec<char>)
    ensures
        v@ == s@,
{
    let n = s.unicode_len();
    let mut v: Vec<char> = Vec::new();
    let mut i: usize = 0;
    while i < n
        invariant
            n == s@.len(),
            i <= n,
            v@ == s@.take(i as int),
        decreases n - i,
    {
        let c = s.get_char(i);
        v.push(c);
        proof {
            assert(s@.take(i + 1) =~= s@.take(i as int).push(c));
        }
        i = i + 1;
    }
    assert(s@.take(i as int) =~= s@);
    v
}

/// Unicode `White_Space`, the set that `char::is_whitespace` tests.
pub open spec fn is_white_space(c: char) -> bool {
    let u = c as u32;
    (0x09 <= u <= 0x0D) || u == 0x20 || u == 0x85 || u == 0xA0 || u == 0x1680 || (0x2000 <= u
        <= 0x200A) || u == 0x2028 || u == 0x2029 || u == 0x202F || u == 0x205F || u == 0x3000
}

/// `s` without its leading white space.
pub open spec fn trim_start(s: Seq<char>) -> Seq<char>
    decreases s.len(),
{
    if s.len() > 0 && is_white_space(s[0]) {
        trim_start(s.drop_first())
    } else {
        s
    }
}

/// `s` without its trailing white space.
pub open spec fn trim_end(s: Seq<char>) -> Seq<char>
    decreases s.len(),
{
    if s.len() > 0 && is_white_space(s.last()) {
        trim_end(s.drop_last())
    } else {
        s
    }
}

/// `s` without white space at either end, as `str::trim` gives it.
pub open spec fn trim(s: Seq<char>) -> Seq<char> {
    trim_end(trim_start(s))
}

/// Whether every character of `s` is an ASCII decimal digit.
pub open spec fn all_digits(s: Seq<char>) -> bool {
    forall|i: int| 0 <= i < s.len() ==> '0' <= #[trigger] s[i] <= '9'
}

/// The number written by the decimal digits `s`.
pub open spec fn digits_value(s: Seq<char>) -> nat
    decreases s.len(),
{
    if s.len() == 0 {
        0
    } else {
        digits_value(s.drop_last()) * 10 + ((s.last() as u32) - 48) as nat
    }
}

/// What `s.parse::<u64>()` gives: a value for an optional `+` followed by at least one
/// ASCII digit, where the number fits in `u64`; none for any other text.
pub open spec fn parse_u64(s: Seq<char>) -> Option<u64> {
    let d = if s.len() > 0 && s[0] == '+' {
        s.drop_first()
    } else {
        s
    };
    if d.len() > 0 && all_digits(d) && digits_value(d) <= u64::MAX {
        Some(digits_value(d) as u64)
    } else {
        None
    }
}

/// The position of the first `c` in `s`, or `s.len()` where there is none.
pub open spec fn first_index(s: Seq<char>, c: char) -> int
    decreases s.len(),
{
    if s.len() == 0 {
        0
    } else if first_index(s.drop_last(), c) < s.len() - 1 {
        first_index(s.drop_last(), c)
    } else if s.last() == c {
        s.len() - 1
    } else {
        s.len() as int
    }
}

pub fn is_white_space_char(c: char) -> (r: bool)
    ensures
        r == is_white_space(c),
{
    let u = c as u32;
    (0x09 <= u && u <= 0x0D) || u == 0x20 || u == 0x85 || u == 0xA0 || u == 0x1680 || (0x2000
        <= u && u <= 0x200A) || u == 0x2028 || u == 0x2029 || u == 0x202F || u == 0x205F || u
        == 0x3000
}

proof fn lemma_digits_value_prefix(s: Seq<char>, j: int)
    requires
        0 <= j <= s.len(),
    ensures
        digits_value(s.take(j)) <= digits_value(s),
    decreases s.len() - j,
{
    if j < s.len() {
        lemma_digits_value_prefix(s, j + 1);
        assert(s.take(j + 1).drop_last() =~= s.take(j));
    } else {
        assert(s.take(j) =~= s);
    }
}

/// The bounds of `line[lo..hi]` with white space trimmed from both ends.
pub fn trim_bounds(line: &Vec<char>, lo: usize, hi: usize) -> (r: (usize, usize))
    requires
        lo <= hi <= line@.len(),
    ensures
        lo <= r.0 <= r.1 <= hi,
        line@.subrange(r.0 as int, r.1 as int) == trim(line@.subrange(lo as int, hi as int)),
{
    let mut a = lo;
    while a < hi && is_white_space_char(line[a])
        invariant
            lo <= a <= hi <= line@.len(),
            trim_start(line@.subrange(lo as int, hi as int)) == trim_start(
                line@.subrange(a as int, hi as int),
            ),
        decreases hi - a,
    {
        assert(line@.subrange(a as int, hi as int).drop_first() =~= line@.subrange(
            a + 1,
            hi as int,
        ));
        a = a + 1;
    }
    assert(trim_start(line@.subrange(a as int, hi as int)) == line@.subrange(a as int, hi as int));
    let mut b = hi;
    while b > a && is_white_space_char(line[b - 1])
        invariant
            lo <= a <= b <= hi <= line@.len(),
            trim_end(line@.subrange(a as int, hi as int)) == trim_end(
                line@.subrange(a as int, b as int),
            ),
        decreases b - a,
    {
        assert(line@.subrange(a as int, b as int).drop_last() =~= line@.subrange(
            a as int,
            b - 1,
        ));
        b = b - 1;
    }
    assert(trim_end(line@.subrange(a as int, b as int)) == line@.subrange(a as int, b as int));
    (a, b)
}

/// Whether `line[lo..hi]` spells `word`.
pub fn spells(line: &Vec<char>, lo: usize, hi: usize, word: &str) -> (r: bool)
    requires
        lo <= hi <= line@.len(),
    ensures
        r == (line@.subrange(lo as int, hi as int) == word@),
{
    let w = chars_of(word);
    if hi - lo != w.len() {
        return false;
    }
    let mut i: usize = 0;
    while i < w.len()
        invariant
            lo <= hi <= line@.len(),
            hi - lo == w@.len(),
            w@ == word@,
            i <= w@.len(),
            forall|j: int| 0 <= j < i ==> line@[lo + j] == w@[j],
        decreases w@.len() - i,
    {
        if line[lo + i] != w[i] {
            assert(line@.subrange(lo as int, hi as int)[i as int] != word@[i as int]);
            return false;
        }
        i = i + 1;
    }
    assert(line@.subrange(lo as int, hi as int) =~= word@);
    true
}

/// `line[lo..hi].parse::<u64>().ok()`.
pub fn parse_u64_range(line: &Vec<char>, lo: usize, hi: usize) -> (v: Option<u64>)
    requires
        lo <= hi <= line@.len(),
    ensures
        v == parse_u64(line@.subrange(lo as int, hi as int)),
{
    let ghost s = line@.subrange(lo as int, hi as int);
    let start = if lo < hi && line[lo] == '+' {
        lo + 1
    } else {
        lo
    };
    let ghost d = line@.subrange(start as int, hi as int);
    assert(d == if s.len() > 0 && s[0] == '+' {
        s.drop_first()
    } else {
        s
    });
    if start == hi {
        return None;
    }
    let mut value: u64 = 0;
    let mut i = start;
    while i < hi
        invariant
            lo <= start < hi <= line@.len(),
            start <= i <= hi,
            s == line@.subrange(lo as int, hi as int),
            d == line@.subrange(start as int, hi as int),
            d == if s.len() > 0 && s[0] == '+' {
                s.drop_first()
            } else {
                s
            },
            all_digits(d.take(i - start)),
            value == digits_value(d.take(i - start)),
        decreases hi - i,
    {
        let c = line[i];
        if !('0' <= c && c <= '9') {
            assert(d[i - start] == c);
            return None;
        }
        let digit = (c as u32 - 48) as u64;
        proof {
            assert(d.take(i - start + 1).drop_last() =~= d.take(i - start));
            assert(d.take(i - start + 1).last() == c);
        }
        match value.checked_mul(10) {
            Some(m) => match m.checked_add(digit) {
                Some(n) => {
                    value = n;
                },
                None => {
                    proof {
                        lemma_digits_value_prefix(d, i - start + 1);
                    }
                    return None;
                },
            },
            None => {
                proof {
                    lemma_digits_value_prefix(d, i - start + 1);
                }
                return None;
            },
        }
        assert(all_digits(d.take(i - start + 1)));
        i = i + 1;
    }
    assert(d.take(i - start) =~= d);
    Some(value)
}


proof fn lemma_first_index_extend(l: Seq<char>, c: char, j: int, k: int)
    requires
        0 <= k < j <= l.len(),
        first_index(l.take(j), c) == k,
    ensures
        first_index(l, c) == k,
    decreases l.len() - j,
{
    if j < l.len() {
        assert(l.take(j + 1).drop_last() =~= l.take(j));
        lemma_first_index_extend(l, c, j + 1, k);
    } else {
        assert(l.take(j) =~= l);
    }
}

/// The position of the first `c` in `line[..len]`, or `len` where there is none.
pub fn find_char(line: &Vec<char>, len: usize, c: char) -> (k: usize)
    requires
        len <= line@.len(),
    ensures
        k == first_index(line@.take(len as int), c),
        k <= len,
        k < len ==> line@[k as int] == c,
        forall|j: int| 0 <= j < k ==> line@[j] != c,
{
    let ghost l = line@.take(len as int);
    let mut k: usize = 0;
    while k < len
        invariant
            len <= line@.len(),
            l == line@.take(len as int),
            k <= len,
            first_index(l.take(k as int), c) == k,
            forall|j: int| 0 <= j < k ==> line@[j] != c,
        decreases len - k,
    {
        proof {
            assert(l.take(k + 1).drop_last() =~= l.take(k as int));
        }
        if line[k] == c {
            proof {
                assert(first_index(l.take(k + 1), c) == k);
                lemma_first_index_extend(l, c, k + 1, k as int);
            }
            return k;
        }
        k = k + 1;
    }
    assert(l.take(k as int) =~= l);
    k
}

} // verus!
