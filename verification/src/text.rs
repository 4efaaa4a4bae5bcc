//! Character-sequence utilities shared by the segmenter, the classifier and
//! the matcher: trimming, substring search, splitting on a separator.

use vstd::prelude::*;

verus! {

/// The whitespace characters that trimming removes.
pub open spec fn is_space_char(c: char) -> bool {
    c == ' ' || c == '\t' || c == '\n' || c == '\r' || c == '\u{000b}' || c == '\u{000c}'
}

/// `s` with leading whitespace removed.
pub open spec fn trim_front(s: Seq<char>) -> Seq<char>
    decreases s.len(),
{
    if s.len() > 0 && is_space_char(s[0]) {
        trim_front(s.drop_first())
    } else {
        s
    }
}

/// `s` with trailing whitespace removed.
pub open spec fn trim_back(s: Seq<char>) -> Seq<char>
    decreases s.len(),
{
    if s.len() > 0 && is_space_char(s[s.len() - 1]) {
        trim_back(s.drop_last())
    } else {
        s
    }
}

/// `s` with surrounding whitespace removed.
pub open spec fn trim_seq(s: Seq<char>) -> Seq<char> {
    trim_back(trim_front(s))
}

proof fn lemma_trim_front_subrange(s: Seq<char>, i: int)
    requires
        0 <= i <= s.len(),
        forall|j: int| 0 <= j < i ==> is_space_char(s[j]),
        i < s.len() ==> !is_space_char(s[i]),
    ensures
        trim_front(s) == s.subrange(i, s.len() as int),
    decreases i,
{
    if i == 0 {
        assert(s.subrange(0, s.len() as int) =~= s);
    } else {
        assert(is_space_char(s[0]));
        lemma_trim_front_subrange(s.drop_first(), i - 1);
        assert(s.drop_first().subrange(i - 1, s.drop_first().len() as int) =~= s.subrange(
            i,
            s.len() as int,
        ));
    }
}

proof fn lemma_trim_back_subrange(s: Seq<char>, i: int)
    requires
        0 <= i <= s.len(),
        forall|j: int| i <= j < s.len() ==> is_space_char(s[j]),
        i > 0 ==> !is_space_char(s[i - 1]),
    ensures
        trim_back(s) == s.subrange(0, i),
    decreases s.len() - i,
{
    if i == s.len() {
        if s.len() > 0 && is_space_char(s[s.len() - 1]) {
            assert(!is_space_char(s[i - 1]));
            assert(false);
        }
        assert(s.subrange(0, s.len() as int) =~= s);
    } else {
        assert(is_space_char(s[s.len() - 1]));
        lemma_trim_back_subrange(s.drop_last(), i);
        assert(s.drop_last().subrange(0, i) =~= s.subrange(0, i));
    }
}

/// Appending a trailing whitespace character does not change the trimmed
/// value.
pub proof fn lemma_trim_push_space(s: Seq<char>, c: char)
    requires
        is_space_char(c),
    ensures
        trim_seq(s.push(c)) == trim_seq(s),
    decreases s.len(),
{
    if s.len() == 0 {
        assert(s.push(c)[0] == c);
        assert(s.push(c).drop_first() =~= s);
    } else if is_space_char(s[0]) {
        assert(s.push(c)[0] == s[0]);
        assert(s.push(c).drop_first() =~= s.drop_first().push(c));
        lemma_trim_push_space(s.drop_first(), c);
        assert(trim_front(s.push(c)) == trim_front(s.drop_first().push(c)));
        assert(trim_front(s) == trim_front(s.drop_first()));
    } else {
        assert(s.push(c)[0] == s[0]);
        assert(trim_front(s.push(c)) == s.push(c));
        assert(trim_front(s) == s);
        assert(s.push(c).len() > 0 && is_space_char(s.push(c)[s.push(c).len() - 1]));
        assert(s.push(c).drop_last() =~= s);
        assert(trim_back(s.push(c)) == trim_back(s));
    }
}

/// Copies a range of characters into an owned string.
///
/// Relies on `FromIterator for String`: collecting characters yields a string
/// whose characters are exactly the collected ones.
#[verifier::external_body]
pub(crate) fn chars_to_string(t: &[char]) -> (r: String)
    ensures
        r@ == t@,
{
    t.iter().collect()
}

/// Breaks a string into its characters.
///
/// Relies on `str::chars`: the iterator yields exactly the characters of the
/// string, in order.
#[verifier::external_body]
pub(crate) fn str_to_chars(s: &str) -> (r: Vec<char>)
    ensures
        r@ == s@,
{
    s.chars().collect()
}

fn is_space(c: char) -> (r: bool)
    ensures
        r == is_space_char(c),
{
    c == ' ' || c == '\t' || c == '\n' || c == '\r' || c == '\u{000b}' || c == '\u{000c}'
}

/// Returns the bounds of `t` with surrounding whitespace removed.
pub fn trim_range(t: &[char]) -> (r: (usize, usize))
    ensures
        0 <= r.0 <= r.1 <= t@.len(),
        trim_seq(t@) == t@.subrange(r.0 as int, r.1 as int),
{
    let n = t.len();
    let mut a: usize = 0;
    while a < n && is_space(t[a])
        invariant
            0 <= a <= n == t@.len(),
            forall|j: int| 0 <= j < a ==> is_space_char(t@[j]),
        decreases n - a,
    {
        a += 1;
    }
    let mut b: usize = n;
    while b > a && is_space(t[b - 1])
        invariant
            a <= b <= n == t@.len(),
            forall|j: int| b <= j < n ==> is_space_char(t@[j]),
        decreases b,
    {
        b -= 1;
    }
    proof {
        lemma_trim_front_subrange(t@, a as int);
        let f = t@.subrange(a as int, n as int);
        lemma_trim_back_subrange(f, b - a);
        assert(f.subrange(0, b - a) =~= t@.subrange(a as int, b as int));
    }
    (a, b)
}

/// Copies a range of `t` with surrounding whitespace removed.
pub fn trim_chars_range(t: &[char], from: usize, to: usize) -> (r: String)
    requires
        from <= to <= t@.len(),
    ensures
        r@ == trim_seq(t@.subrange(from as int, to as int)),
{
    let part = vstd::slice::slice_subrange(t, from, to);
    let (a, b) = trim_range(part);
    chars_to_string(vstd::slice::slice_subrange(part, a, b))
}

/// `s` with surrounding whitespace removed.
pub fn trim_str(s: &str) -> (r: String)
    ensures
        r@ == trim_seq(s@),
{
    let t = str_to_chars(s);
    let (a, b) = trim_range(t.as_slice());
    proof {
        assert(t@.subrange(0, t@.len() as int) =~= t@);
    }
    chars_to_string(vstd::slice::slice_subrange(t.as_slice(), a, b))
}

/// `n` occurs in `h` starting at index `i`.
pub open spec fn contains_at(h: Seq<char>, n: Seq<char>, i: int) -> bool {
    0 <= i && i + n.len() <= h.len() && h.subrange(i, i + n.len()) == n
}

/// `n` occurs somewhere in `h`.
pub open spec fn contains_seq(h: Seq<char>, n: Seq<char>) -> bool {
    exists|i: int| contains_at(h, n, i)
}

/// `h` begins with `n`.
pub open spec fn starts_with_seq(h: Seq<char>, n: Seq<char>) -> bool {
    n.len() <= h.len() && h.subrange(0, n.len() as int) == n
}

fn eq_at(h: &[char], n: &[char], i: usize) -> (r: bool)
    requires
        i + n@.len() <= h@.len(),
    ensures
        r == contains_at(h@, n@, i as int),
{
    let hn = h.len();
    let mut k: usize = 0;
    while k < n.len()
        invariant
            0 <= k <= n@.len(),
            i + n@.len() <= h@.len(),
            h@.len() <= usize::MAX,
            forall|j: int| 0 <= j < k ==> h@[i + j] == n@[j],
        decreases n@.len() - k,
    {
        if h[i + k] != n[k] {
            proof {
                assert(h@.subrange(i as int, i + n@.len()) != n@) by {
                    assert(h@.subrange(i as int, i + n@.len())[k as int] != n@[k as int]);
                }
            }
            return false;
        }
        k += 1;
    }
    proof {
        assert(h@.subrange(i as int, i + n@.len()) =~= n@);
    }
    true
}

/// Whether `n` occurs in `h` as a contiguous run.
pub fn contains_chars(h: &[char], n: &[char]) -> (r: bool)
    ensures
        r == contains_seq(h@, n@),
{
    if n.len() > h.len() {
        proof {
            assert(forall|i: int| !contains_at(h@, n@, i));
        }
        return false;
    }
    if n.len() == 0 {
        proof {
            assert(h@.subrange(0, 0) =~= n@);
            assert(contains_at(h@, n@, 0));
        }
        return true;
    }
    let mut i: usize = 0;
    let hn = h.len();
    let last = hn - n.len();
    while i <= last
        invariant
            0 <= i <= last + 1,
            hn == h@.len(),
            last == h@.len() - n@.len(),
            1 <= n@.len() <= h@.len(),
            forall|j: int| 0 <= j < i ==> !contains_at(h@, n@, j),
        decreases last + 1 - i,
    {
        if eq_at(h, n, i) {
            return true;
        }
        i += 1;
    }
    proof {
        assert(forall|j: int| contains_at(h@, n@, j) ==> 0 <= j <= last);
    }
    false
}

/// Whether `a` and `b` hold the same characters.
pub fn chars_eq(a: &[char], b: &[char]) -> (r: bool)
    ensures
        r == (a@ == b@),
{
    if a.len() != b.len() {
        return false;
    }
    if eq_at(a, b, 0) {
        proof {
            assert(a@.subrange(0, b@.len() as int) =~= a@);
        }
        true
    } else {
        proof {
            if a@ == b@ {
                assert(a@.subrange(0, b@.len() as int) =~= b@);
            }
        }
        false
    }
}

/// Whether `h` begins with `n`.
pub fn starts_with_chars(h: &[char], n: &[char]) -> (r: bool)
    ensures
        r == starts_with_seq(h@, n@),
{
    if n.len() > h.len() {
        return false;
    }
    eq_at(h, n, 0)
}

/// Index of the last occurrence of `c` in `s`, or `-1` if `c` does not occur.
pub open spec fn last_index_of(s: Seq<char>, c: char) -> int
    decreases s.len(),
{
    if s.len() == 0 {
        -1
    } else if s[s.len() - 1] == c {
        s.len() - 1
    } else {
        last_index_of(s.drop_last(), c)
    }
}

pub proof fn lemma_last_index_of(s: Seq<char>, c: char)
    ensures
        -1 <= last_index_of(s, c) < s.len(),
        last_index_of(s, c) >= 0 ==> s[last_index_of(s, c)] == c,
        forall|j: int| last_index_of(s, c) < j < s.len() ==> s[j] != c,
    decreases s.len(),
{
    if s.len() == 0 {
    } else if s[s.len() - 1] == c {
    } else {
        lemma_last_index_of(s.drop_last(), c);
        let r = last_index_of(s.drop_last(), c);
        if r >= 0 {
            assert(s.drop_last()[r] == c);
        }
        assert forall|j: int| last_index_of(s, c) < j < s.len() implies s[j] != c by {
            if j < s.len() - 1 {
                assert(s.drop_last()[j] != c);
            }
        }
    }
}

/// Index of the first occurrence of `c` in `s`, or `-1` if `c` does not occur.
pub open spec fn first_index_of(s: Seq<char>, c: char) -> int
    decreases s.len(),
{
    if s.len() == 0 {
        -1
    } else if s[0] == c {
        0
    } else if first_index_of(s.drop_first(), c) == -1 {
        -1
    } else {
        first_index_of(s.drop_first(), c) + 1
    }
}

pub proof fn lemma_first_index_of(s: Seq<char>, c: char)
    ensures
        -1 <= first_index_of(s, c) < s.len(),
        first_index_of(s, c) >= 0 ==> s[first_index_of(s, c)] == c,
        forall|j: int| 0 <= j < first_index_of(s, c) ==> s[j] != c,
        first_index_of(s, c) == -1 ==> forall|j: int| 0 <= j < s.len() ==> s[j] != c,
    decreases s.len(),
{
    if s.len() == 0 {
    } else if s[0] == c {
    } else {
        lemma_first_index_of(s.drop_first(), c);
        let r = first_index_of(s.drop_first(), c);
        if r == -1 {
            assert forall|j: int| 0 <= j < s.len() implies s[j] != c by {
                if j > 0 {
                    assert(s.drop_first()[j - 1] != c);
                }
            }
        } else {
            assert(s.drop_first()[r] == c);
            assert forall|j: int| 0 <= j < r + 1 implies s[j] != c by {
                if j > 0 {
                    assert(s.drop_first()[j - 1] != c);
                }
            }
        }
    }
}

pub proof fn lemma_first_index_is(s: Seq<char>, c: char, i: int)
    requires
        0 <= i < s.len(),
        s[i] == c,
        forall|j: int| 0 <= j < i ==> s[j] != c,
    ensures
        first_index_of(s, c) == i,
{
    lemma_first_index_of(s, c);
    let f = first_index_of(s, c);
    if f == -1 {
        assert(s[i] != c);
    } else if f < i {
        assert(s[f] != c);
    } else if f > i {
        assert(s[i] != c);
    }
}

pub proof fn lemma_first_index_absent(s: Seq<char>, c: char)
    requires
        forall|j: int| 0 <= j < s.len() ==> s[j] != c,
    ensures
        first_index_of(s, c) == -1,
{
    lemma_first_index_of(s, c);
    let f = first_index_of(s, c);
    if f >= 0 {
        assert(s[f] != c);
    }
}

/// Exec search for the first occurrence of `c` at or after `from`.
pub fn find_char(t: &[char], from: usize, c: char) -> (r: Option<usize>)
    requires
        from <= t@.len(),
    ensures
        match r {
            Some(i) => from <= i < t@.len() && t@[i as int] == c && forall|j: int|
                from <= j < i ==> t@[j] != c,
            None => forall|j: int| from <= j < t@.len() ==> t@[j] != c,
        },
{
    let mut i: usize = from;
    while i < t.len()
        invariant
            from <= i <= t@.len(),
            forall|j: int| from <= j < i ==> t@[j] != c,
        decreases t@.len() - i,
    {
        if t[i] == c {
            return Some(i);
        }
        i += 1;
    }
    None
}

/// The last dot-separated component of `s` (the whole of `s` when it has no dot).
pub open spec fn leaf_of(s: Seq<char>) -> Seq<char> {
    s.subrange(last_index_of(s, '.') + 1, s.len() as int)
}

/// Extracts the last dot-separated component of `s`.
pub fn leaf_chars(t: &[char]) -> (r: Vec<char>)
    ensures
        r@ == leaf_of(t@),
{
    proof {
        lemma_last_index_of(t@, '.');
    }
    let mut i: usize = t.len();
    while i > 0
        invariant
            0 <= i <= t@.len(),
            forall|j: int| i <= j < t@.len() ==> t@[j] != '.',
        decreases i,
    {
        if t[i - 1] == '.' {
            proof {
                assert(last_index_of(t@, '.') == i - 1) by {
                    lemma_last_index_of(t@, '.');
                    if last_index_of(t@, '.') > i - 1 {
                        assert(t@[last_index_of(t@, '.')] != '.');
                    }
                    if last_index_of(t@, '.') < i - 1 {
                        assert(t@[i - 1] != '.');
                    }
                }
            }
            let s = vstd::slice::slice_subrange(t, i, t.len());
            let mut r: Vec<char> = Vec::new();
            r.extend_from_slice(s);
            proof {
                assert(r@ =~= leaf_of(t@));
            }
            return r;
        }
        i -= 1;
    }
    proof {
        assert(last_index_of(t@, '.') == -1) by {
            lemma_last_index_of(t@, '.');
            if last_index_of(t@, '.') >= 0 {
                assert(t@[last_index_of(t@, '.')] != '.');
            }
        }
    }
    let s = vstd::slice::slice_subrange(t, 0, t.len());
    let mut r: Vec<char> = Vec::new();
    r.extend_from_slice(s);
    proof {
        assert(r@ =~= leaf_of(t@));
    }
    r
}

/// The dot-separated components of `s`, in order.
pub open spec fn split_seq(s: Seq<char>, sep: char) -> Seq<Seq<char>>
    decreases s.len(),
{
    let i = first_index_of(s, sep);
    if 0 <= i < s.len() {
        seq![s.subrange(0, i)] + split_seq(s.subrange(i + 1, s.len() as int), sep)
    } else {
        seq![s]
    }
}

pub proof fn lemma_split_seq_len(s: Seq<char>, sep: char)
    ensures
        split_seq(s, sep).len() >= 1,
    decreases s.len(),
{
    let i = first_index_of(s, sep);
    if 0 <= i < s.len() {
        lemma_split_seq_len(s.subrange(i + 1, s.len() as int), sep);
    }
}

/// Splits `t` into its `sep`-separated components.
pub fn split_chars(t: &[char], sep: char) -> (r: Vec<String>)
    ensures
        r@.map_values(|x: String| x@) == split_seq(t@, sep),
    decreases t@.len(),
{
    proof {
        lemma_first_index_of(t@, sep);
    }
    let n = t.len();
    match find_char(t, 0, sep) {
        Some(i) => {
            proof {
                assert(first_index_of(t@, sep) == i) by {
                    lemma_first_index_of(t@, sep);
                    if first_index_of(t@, sep) < i {
                        assert(t@[first_index_of(t@, sep)] != sep);
                    }
                    if first_index_of(t@, sep) > i {
                        assert(t@[i as int] != sep);
                    }
                }
            }
            let head = chars_to_string(vstd::slice::slice_subrange(t, 0, i));
            let rest = vstd::slice::slice_subrange(t, i + 1, t.len());
            let tail = split_chars(rest, sep);
            let mut r: Vec<String> = Vec::new();
            r.push(head);
            let mut k: usize = 0;
            while k < tail.len()
                invariant
                    0 <= k <= tail@.len(),
                    r@.len() == k + 1,
                    r@[0]@ == t@.subrange(0, first_index_of(t@, sep)),
                    forall|j: int| 0 <= j < k ==> r@[j + 1]@ == tail@[j]@,
                decreases tail@.len() - k,
            {
                let item = tail[k].clone();
                r.push(item);
                k += 1;
            }
            proof {
                let lhs = r@.map_values(|x: String| x@);
                let rhs = split_seq(t@, sep);
                assert(tail@.map_values(|x: String| x@) == split_seq(rest@, sep));
                assert(lhs =~= rhs) by {
                    assert(rhs == seq![t@.subrange(0, first_index_of(t@, sep))] + split_seq(
                        rest@,
                        sep,
                    ));
                    assert(lhs.len() == rhs.len());
                    assert forall|j: int| 0 <= j < lhs.len() implies lhs[j] == rhs[j] by {
                        if j > 0 {
                            assert(lhs[j] == tail@.map_values(|x: String| x@)[j - 1]);
                        }
                    }
                }
            }
            r
        },
        None => {
            let whole = chars_to_string(t);
            let mut r: Vec<String> = Vec::new();
            r.push(whole);
            proof {
                assert(t@.subrange(0, t@.len() as int) =~= t@);
                assert(r@.map_values(|x: String| x@) =~= split_seq(t@, sep));
            }
            r
        },
    }
}

/// The components joined back with `sep` between them.
pub open spec fn join_with(parts: Seq<Seq<char>>, sep: char) -> Seq<char>
    decreases parts.len(),
{
    if parts.len() == 0 {
        Seq::empty()
    } else if parts.len() == 1 {
        parts[0]
    } else {
        parts[0] + seq![sep] + join_with(parts.drop_first(), sep)
    }
}

} // verus!
