//! Small verified text utilities shared by the parsers: first-occurrence
//! search, splitting, substring search and string equality.
//!
//! Character data is handled as `Vec<char>` so that positions index the
//! same sequence the specifications speak about.

use vstd::prelude::*;

verus! {

/// Index of the first occurrence of `c` in `s`, or `s.len()` if absent.
pub open spec fn find_char(s: Seq<char>, c: char) -> int
    decreases s.len(),
{
    if s.len() == 0 {
        0
    } else if s[0] == c {
        0
    } else {
        1 + find_char(s.skip(1), c)
    }
}

/// Conversely, a position with no `c` before it that holds `c` (or is the
/// end) is exactly `find_char`.
pub proof fn lemma_find_char_is(s: Seq<char>, c: char, i: int)
    requires
        0 <= i <= s.len(),
        forall|j: int| 0 <= j < i ==> s[j] != c,
        i < s.len() ==> s[i] == c,
    ensures
        find_char(s, c) == i,
    decreases s.len(),
{
    if s.len() == 0 {
    } else if s[0] == c {
    } else {
        assert(i > 0);
        lemma_find_char_is(s.skip(1), c, i - 1);
    }
}

/// The components of `s` between occurrences of `c`, in order; occurrences
/// at the ends and adjacent occurrences yield empty components, as
/// `str::split` does.
pub open spec fn split_char(s: Seq<char>, c: char) -> Seq<Seq<char>>
    decreases s.len(),
{
    let i = find_char(s, c);
    if 0 <= i < s.len() {
        seq![s.take(i)] + split_char(s.skip(i + 1), c)
    } else {
        seq![s]
    }
}

/// A sequence without `c` splits into itself alone.
pub proof fn lemma_split_char_whole(s: Seq<char>, c: char)
    requires
        forall|j: int| 0 <= j < s.len() ==> s[j] != c,
    ensures
        split_char(s, c) == seq![s],
{
    lemma_find_char_is(s, c, s.len() as int);
}

/// Peeling the first component off a split: a `c`-free prefix up to an
/// occurrence of `c` is the first component, and the rest splits on its own.
pub proof fn lemma_split_char_step(a: Seq<char>, b: Seq<char>, c: char)
    requires
        forall|j: int| 0 <= j < a.len() ==> a[j] != c,
        b.len() > 0,
        b[0] == c,
    ensures
        split_char(a + b, c) == seq![a] + split_char(b.skip(1), c),
{
    let s = a + b;
    assert forall|j: int| 0 <= j < a.len() implies s[j] != c by {
        assert(s[j] == a[j]);
    }
    assert(s[a.len() as int] == c);
    lemma_find_char_is(s, c, a.len() as int);
    assert(s.take(a.len() as int) =~= a);
    assert(s.skip(a.len() as int + 1) =~= b.skip(1));
}

/// Copy of `v[from..to]` as a fresh vector.
pub fn chars_range(v: &Vec<char>, from: usize, to: usize) -> (r: Vec<char>)
    requires
        from <= to <= v@.len(),
    ensures
        r@ == v@.subrange(from as int, to as int),
{
    let mut r: Vec<char> = Vec::new();
    let mut i: usize = from;
    while i < to
        invariant
            from <= i <= to <= v@.len(),
            r@ == v@.subrange(from as int, i as int),
        decreases to - i,
    {
        r.push(v[i]);
        i = i + 1;
        assert(r@ =~= v@.subrange(from as int, i as int));
    }
    r
}

/// First position at or after `from` holding `c`, or the length of `v`
/// if there is none.
pub fn find_char_from(v: &Vec<char>, from: usize, c: char) -> (r: usize)
    requires
        from <= v@.len(),
    ensures
        r as int == from + find_char(v@.skip(from as int), c),
        from <= r <= v@.len(),
        forall|j: int| from <= j < r ==> v@[j] != c,
        r < v@.len() ==> v@[r as int] == c,
{
    let mut i: usize = from;
    while i < v.len() && v[i] != c
        invariant
            from <= i <= v@.len(),
            forall|j: int| from <= j < i ==> v@[j] != c,
        decreases v@.len() - i,
    {
        i = i + 1;
    }
    proof {
        assert forall|j: int| 0 <= j < i - from implies v@.skip(from as int)[j] != c by {
            assert(v@.skip(from as int)[j] == v@[from + j]);
        }
        if i < v.len() {
            assert(v@.skip(from as int)[i - from] == v@[i as int]);
        }
        lemma_find_char_is(v@.skip(from as int), c, i as int - from);
    }
    i
}

/// Concatenation of two character vectors.
pub fn concat_chars(a: &Vec<char>, b: &Vec<char>) -> (r: Vec<char>)
    ensures
        r@ == a@ + b@,
{
    let mut r: Vec<char> = Vec::new();
    let mut i: usize = 0;
    while i < a.len()
        invariant
            i <= a@.len(),
            r@ == a@.take(i as int),
        decreases a@.len() - i,
    {
        r.push(a[i]);
        i = i + 1;
        assert(r@ =~= a@.take(i as int));
    }
    assert(r@ =~= a@);
    let mut j: usize = 0;
    while j < b.len()
        invariant
            j <= b@.len(),
            r@ == a@ + b@.take(j as int),
        decreases b@.len() - j,
    {
        r.push(b[j]);
        j = j + 1;
        assert(r@ =~= a@ + b@.take(j as int));
    }
    assert(r@ =~= a@ + b@);
    r
}

/// The characters of `s`, in order, as a vector.
pub fn to_chars(s: &str) -> (r: Vec<char>)
    ensures
        r@ == s@,
{
    let n = s.unicode_len();
    let mut r: Vec<char> = Vec::new();
    let mut i: usize = 0;
    while i < n
        invariant
            i <= n == s@.len(),
            r@ == s@.take(i as int),
        decreases n - i,
    {
        r.push(s.get_char(i));
        i = i + 1;
        assert(r@ =~= s@.take(i as int));
    }
    assert(r@ =~= s@);
    r
}

/// The string holding exactly the given characters.
///
/// Relies on std's `FromIterator` for `String`: collecting characters
/// yields the string of those characters in order.
#[verifier::external_body]
pub fn from_chars(v: &Vec<char>) -> (r: String)
    ensures
        r@ == v@,
{
    v.iter().collect()
}

/// Character-for-character string equality.
pub fn str_eq(a: &str, b: &str) -> (r: bool)
    ensures
        r == (a@ == b@),
{
    let n = a.unicode_len();
    if n != b.unicode_len() {
        return false;
    }
    let mut i: usize = 0;
    while i < n
        invariant
            i <= n == a@.len(),
            b@.len() == n,
            forall|j: int| 0 <= j < i ==> a@[j] == b@[j],
        decreases n - i,
    {
        if a.get_char(i) != b.get_char(i) {
            return false;
        }
        i = i + 1;
    }
    assert(a@ =~= b@);
    true
}

/// Whether the characters of `v` are exactly those of `s`.
pub fn chars_eq_str(v: &Vec<char>, s: &str) -> (r: bool)
    ensures
        r == (v@ == s@),
{
    let n = s.unicode_len();
    if v.len() != n {
        return false;
    }
    let mut i: usize = 0;
    while i < n
        invariant
            i <= n == s@.len(),
            v@.len() == n,
            forall|j: int| 0 <= j < i ==> v@[j] == s@[j],
        decreases n - i,
    {
        if v[i] != s.get_char(i) {
            return false;
        }
        i = i + 1;
    }
    assert(v@ =~= s@);
    true
}

/// `n` occurs in `h` starting at position `i`.
pub open spec fn is_sub_at<T>(h: Seq<T>, n: Seq<T>, i: int) -> bool {
    0 <= i && i + n.len() <= h.len() && h.subrange(i, i + n.len()) == n
}

/// `n` occurs somewhere in `h`.
pub open spec fn contains_sub<T>(h: Seq<T>, n: Seq<T>) -> bool {
    exists|i: int| is_sub_at(h, n, i)
}

/// Occurrences shift by one when the first element is dropped.
pub proof fn lemma_sub_at_skip<T>(h: Seq<T>, n: Seq<T>, i: int)
    requires
        h.len() > 0,
        0 <= i,
    ensures
        is_sub_at(h.skip(1), n, i) <==> is_sub_at(h, n, i + 1),
{
    if i + 1 + n.len() <= h.len() {
        assert(h.skip(1).subrange(i, i + n.len()) =~= h.subrange(i + 1, i + 1 + n.len()));
    }
}

/// Index of the first occurrence of `n` in `h`, or `h.len()` if absent.
pub open spec fn find_sub<T>(h: Seq<T>, n: Seq<T>) -> int
    decreases h.len(),
{
    if is_sub_at(h, n, 0) {
        0
    } else if h.len() == 0 {
        0
    } else {
        1 + find_sub(h.skip(1), n)
    }
}

/// `find_sub` lands on the first occurrence: nothing before it is an
/// occurrence, and it is one unless `n` is absent.
pub proof fn lemma_find_sub<T>(h: Seq<T>, n: Seq<T>)
    requires
        n.len() >= 1,
    ensures
        0 <= find_sub(h, n) <= h.len(),
        forall|j: int| 0 <= j < find_sub(h, n) ==> !is_sub_at(h, n, j),
        find_sub(h, n) < h.len() ==> is_sub_at(h, n, find_sub(h, n)),
    decreases h.len(),
{
    if is_sub_at(h, n, 0) {
    } else if h.len() == 0 {
    } else {
        lemma_find_sub(h.skip(1), n);
        let f = find_sub(h, n);
        assert forall|j: int| 0 <= j < f implies !is_sub_at(h, n, j) by {
            if j > 0 {
                lemma_sub_at_skip(h, n, j - 1);
            }
        }
        if f < h.len() {
            lemma_sub_at_skip(h, n, f - 1);
        }
    }
}

/// First occurrence of `sep` in `v`, as `find_sub` gives it: the first
/// start position of `sep`, or the length of `v` if `sep` is absent.
pub fn find_sub_chars(v: &Vec<char>, sep: &Vec<char>) -> (r: usize)
    requires
        sep@.len() >= 1,
    ensures
        r as int == find_sub(v@, sep@),
{
    proof {
        lemma_find_sub(v@, sep@);
    }
    if sep.len() > v.len() {
        assert(forall|j: int| !is_sub_at(v@, sep@, j));
        return v.len();
    }
    let last = v.len() - sep.len();
    let mut i: usize = 0;
    while i <= last
        invariant
            i <= last + 1,
            last == v@.len() - sep@.len(),
            1 <= sep@.len() <= v@.len(),
            v@.len() <= usize::MAX,
            forall|k: int| 0 <= k < i ==> !is_sub_at(v@, sep@, k),
        decreases last + 1 - i,
    {
        let mut j: usize = 0;
        let mut hit: bool = true;
        while j < sep.len()
            invariant
                i <= last,
                last == v@.len() - sep@.len(),
                1 <= sep@.len() <= v@.len(),
                v@.len() <= usize::MAX,
                j <= sep@.len(),
                hit ==> forall|t: int| 0 <= t < j ==> v@[i + t] == sep@[t],
                !hit ==> !is_sub_at(v@, sep@, i as int),
            decreases sep@.len() - j,
        {
            if v[i + j] != sep[j] {
                proof {
                    if is_sub_at(v@, sep@, i as int) {
                        assert(v@.subrange(i as int, i + sep@.len())[j as int] == sep@[j as int]);
                    }
                }
                hit = false;
                j = sep.len();
            } else {
                j = j + 1;
            }
        }
        if hit {
            proof {
                assert(v@.subrange(i as int, i + sep@.len()) =~= sep@);
                assert(is_sub_at(v@, sep@, i as int));
                lemma_find_sub(v@, sep@);
                let f = find_sub(v@, sep@);
                if f < i {
                    assert(is_sub_at(v@, sep@, f));
                }
            }
            return i;
        }
        assert(!is_sub_at(v@, sep@, i as int));
        i = i + 1;
    }
    proof {
        assert forall|k: int| !is_sub_at(v@, sep@, k) by {
            if k > last {
                assert(k + sep@.len() > v@.len());
            }
        }
    }
    v.len()
}

/// Substring search over bytes.
pub fn contains_bytes(h: &[u8], n: &[u8]) -> (r: bool)
    ensures
        r == contains_sub(h@, n@),
{
    if n.len() == 0 {
        assert(h@.subrange(0, 0) =~= n@);
        assert(is_sub_at(h@, n@, 0));
        return true;
    }
    if n.len() > h.len() {
        assert(forall|i: int| !is_sub_at(h@, n@, i));
        return false;
    }
    let last = h.len() - n.len();
    let mut i: usize = 0;
    while i <= last
        invariant
            i <= last + 1,
            last == h@.len() - n@.len(),
            1 <= n@.len() <= h@.len(),
            h@.len() <= usize::MAX,
            forall|k: int| 0 <= k < i ==> !is_sub_at(h@, n@, k),
        decreases last + 1 - i,
    {
        let mut j: usize = 0;
        let mut hit: bool = true;
        while j < n.len()
            invariant
                i <= last,
                last == h@.len() - n@.len(),
                1 <= n@.len() <= h@.len(),
                h@.len() <= usize::MAX,
                j <= n@.len(),
                hit ==> forall|t: int| 0 <= t < j ==> h@[i + t] == n@[t],
                !hit ==> !is_sub_at(h@, n@, i as int),
            decreases n@.len() - j,
        {
            if h[i + j] != n[j] {
                proof {
                    if is_sub_at(h@, n@, i as int) {
                        assert(h@.subrange(i as int, i + n@.len())[j as int] == n@[j as int]);
                    }
                }
                hit = false;
                j = n.len();
            } else {
                j = j + 1;
            }
        }
        if hit {
            assert(h@.subrange(i as int, i + n@.len()) =~= n@);
            assert(is_sub_at(h@, n@, i as int));
            return true;
        }
        assert(!is_sub_at(h@, n@, i as int));
        i = i + 1;
    }
    assert forall|k: int| !is_sub_at(h@, n@, k) by {
        if k > last {
            assert(k + n@.len() > h@.len());
        }
    }
    false
}

/// Splitting `v` on `c`: the components of `split_char(v@, c)`, each as a
/// vector.
pub fn split_chars(v: &Vec<char>, c: char) -> (r: Vec<Vec<char>>)
    ensures
        r.deep_view() == split_char(v@, c),
{
    let mut r: Vec<Vec<char>> = Vec::new();
    let mut cur: Vec<char> = Vec::new();
    let ghost mut start: int = 0;
    let mut i: usize = 0;
    proof {
        assert(r.deep_view() =~~= Seq::<Seq<char>>::empty());
        assert(v@.skip(0) =~= v@);
        assert(Seq::<Seq<char>>::empty() + split_char(v@, c) =~~= split_char(v@, c));
    }
    while i < v.len()
        invariant
            0 <= start <= i <= v@.len(),
            cur@ == v@.subrange(start, i as int),
            forall|j: int| start <= j < i ==> v@[j] != c,
            split_char(v@, c) == r.deep_view() + split_char(v@.skip(start), c),
        decreases v@.len() - i,
    {
        if v[i] == c {
            proof {
                let rest = v@.subrange(i as int, v@.len() as int);
                assert(v@.skip(start) =~= cur@ + rest);
                lemma_split_char_step(cur@, rest, c);
                assert(rest.skip(1) =~= v@.skip(i + 1));
            }
            let ghost old_r = r.deep_view();
            r.push(cur);
            proof {
                assert(r.deep_view() =~~= old_r + seq![cur@]);
                assert(old_r + (seq![cur@] + split_char(v@.skip(i + 1), c)) =~~= (old_r
                    + seq![cur@]) + split_char(v@.skip(i + 1), c));
            }
            cur = Vec::new();
            proof {
                start = i + 1;
            }
            assert(cur@ =~= v@.subrange(start, i + 1));
        } else {
            cur.push(v[i]);
            assert(cur@ =~= v@.subrange(start, i + 1));
        }
        i = i + 1;
    }
    proof {
        assert(cur@ =~= v@.skip(start));
        lemma_split_char_whole(v@.skip(start), c);
    }
    let ghost old_r = r.deep_view();
    r.push(cur);
    proof {
        assert(r.deep_view() =~~= old_r + seq![cur@]);
    }
    r
}

} // verus!
