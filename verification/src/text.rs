//! Character-sequence helpers: first occurrence of a character, substring
//! containment, whitespace trimming and word splitting. These are the
//! building blocks of the name-matching rules.

use vstd::prelude::*;
use vstd::string::*;

verus! {

/// A whitespace character as far as name matching is concerned.
pub open spec fn is_space(c: char) -> bool {
    c == ' ' || c == '\t' || c == '\n' || c == '\r'
}

/// Index of the first occurrence of `c` in `s`, or `s.len()` when `c` does
/// not occur.
pub open spec fn first_ix(s: Seq<char>, c: char) -> int
    decreases s.len(),
{
    if s.len() == 0 {
        0
    } else if s[0] == c {
        0
    } else {
        1 + first_ix(s.drop_first(), c)
    }
}

pub proof fn lemma_first_ix(s: Seq<char>, c: char)
    ensures
        0 <= first_ix(s, c) <= s.len(),
        first_ix(s, c) < s.len() ==> s[first_ix(s, c)] == c,
        forall|i: int| 0 <= i < first_ix(s, c) ==> s[i] != c,
    decreases s.len(),
{
    if s.len() != 0 && s[0] != c {
        lemma_first_ix(s.drop_first(), c);
        assert forall|i: int| 0 <= i < first_ix(s, c) implies s[i] != c by {
            if i > 0 {
                assert(s.drop_first()[i - 1] == s[i]);
            }
        }
    }
}

/// `first_ix` is the only index that is preceded by no occurrence of `c`
/// and either holds `c` or is the end.
pub proof fn lemma_first_ix_is(s: Seq<char>, c: char, k: int)
    requires
        0 <= k <= s.len(),
        forall|i: int| 0 <= i < k ==> s[i] != c,
        k == s.len() || s[k] == c,
    ensures
        first_ix(s, c) == k,
    decreases s.len(),
{
    if s.len() != 0 && s[0] != c {
        lemma_first_ix_is(s.drop_first(), c, k - 1);
    }
}

/// First index of `c` in `s`, or the length of `s` when absent.
pub fn find_char(s: &str, c: char) -> (r: usize)
    ensures
        r == first_ix(s@, c),
{
    let n = s.unicode_len();
    let mut i: usize = 0;
    while i < n
        invariant
            0 <= i <= n,
            n == s@.len(),
            forall|j: int| 0 <= j < i ==> s@[j] != c,
        decreases n - i,
    {
        if s.get_char(i) == c {
            proof {
                lemma_first_ix_is(s@, c, i as int);
            }
            return i;
        }
        i = i + 1;
    }
    proof {
        lemma_first_ix_is(s@, c, n as int);
    }
    n
}

/// Index of the last occurrence of `c` in `s`, or `-1` when `c` does not
/// occur.
pub open spec fn last_ix(s: Seq<char>, c: char) -> int
    decreases s.len(),
{
    if s.len() == 0 {
        -1
    } else if s[s.len() - 1] == c {
        s.len() - 1
    } else {
        last_ix(s.drop_last(), c)
    }
}

pub proof fn lemma_last_ix(s: Seq<char>, c: char)
    ensures
        -1 <= last_ix(s, c) < s.len(),
        last_ix(s, c) >= 0 ==> s[last_ix(s, c)] == c,
        forall|i: int| last_ix(s, c) < i < s.len() ==> s[i] != c,
    decreases s.len(),
{
    if s.len() != 0 && s[s.len() - 1] != c {
        lemma_last_ix(s.drop_last(), c);
        assert forall|i: int| last_ix(s, c) < i < s.len() implies s[i] != c by {
            if i < s.len() - 1 {
                assert(s.drop_last()[i] == s[i]);
            }
        }
    }
}

pub proof fn lemma_last_ix_is(s: Seq<char>, c: char, k: int)
    requires
        -1 <= k < s.len(),
        forall|i: int| k < i < s.len() ==> s[i] != c,
        k == -1 || s[k] == c,
    ensures
        last_ix(s, c) == k,
    decreases s.len(),
{
    if s.len() != 0 && s[s.len() - 1] != c {
        assert forall|i: int| k < i < s.drop_last().len() implies s.drop_last()[i] != c by {
            assert(s.drop_last()[i] == s[i]);
        }
        lemma_last_ix_is(s.drop_last(), c, k);
    }
}

/// Last index of `c` in `s`: `Some` index, or `None` when absent.
pub fn rfind_char(s: &str, c: char) -> (r: Option<usize>)
    ensures
        match r {
            Some(i) => i == last_ix(s@, c),
            None => last_ix(s@, c) == -1,
        },
{
    let n = s.unicode_len();
    let mut i: usize = n;
    while i > 0
        invariant
            0 <= i <= n,
            n == s@.len(),
            forall|j: int| i <= j < n ==> s@[j] != c,
        decreases i,
    {
        i = i - 1;
        if s.get_char(i) == c {
            proof {
                lemma_last_ix_is(s@, c, i as int);
            }
            return Some(i);
        }
    }
    proof {
        lemma_last_ix_is(s@, c, -1);
    }
    None
}

/// `needle` occurs in `hay` starting at index `i`.
pub open spec fn matches_at(hay: Seq<char>, needle: Seq<char>, i: int) -> bool {
    0 <= i && i + needle.len() <= hay.len() && hay.subrange(i, i + needle.len()) == needle
}

/// `needle` occurs somewhere in `hay` as a contiguous run.
pub open spec fn has_substring(hay: Seq<char>, needle: Seq<char>) -> bool {
    exists|i: int| matches_at(hay, needle, i)
}

/// Whether `needle` occurs in `hay` starting exactly at index `i`.
fn matches_at_exec(hay: &str, needle: &str, i: usize) -> (r: bool)
    requires
        i + needle@.len() <= hay@.len(),
    ensures
        r == matches_at(hay@, needle@, i as int),
{
    let h = hay.unicode_len();
    let n = needle.unicode_len();
    let mut j: usize = 0;
    while j < n
        invariant
            h == hay@.len(),
            n == needle@.len(),
            i + n <= h,
            0 <= j <= n,
            forall|l: int| 0 <= l < j ==> hay@[i + l] == needle@[l],
        decreases n - j,
    {
        if hay.get_char(i + j) != needle.get_char(j) {
            proof {
                assert(hay@.subrange(i as int, i + needle@.len()) != needle@) by {
                    if hay@.subrange(i as int, i + needle@.len()) == needle@ {
                        assert(hay@.subrange(i as int, i + needle@.len())[j as int] == hay@[i
                            + j]);
                    }
                }
            }
            return false;
        }
        j = j + 1;
    }
    proof {
        assert(hay@.subrange(i as int, i + needle@.len()) =~= needle@);
    }
    true
}

/// Whether `needle` occurs in `hay` as a contiguous run of characters.
pub fn contains_str(hay: &str, needle: &str) -> (r: bool)
    ensures
        r == has_substring(hay@, needle@),
{
    let h = hay.unicode_len();
    let n = needle.unicode_len();
    if n == 0 {
        proof {
            assert(hay@.subrange(0, 0) =~= needle@);
            assert(matches_at(hay@, needle@, 0));
        }
        return true;
    }
    if n > h {
        return false;
    }
    let mut i: usize = 0;
    while i <= h - n
        invariant
            0 < n <= h,
            h == hay@.len(),
            n == needle@.len(),
            0 <= i <= h - n + 1,
            forall|k: int| 0 <= k < i ==> !matches_at(hay@, needle@, k),
        decreases h - i,
    {
        if matches_at_exec(hay, needle, i) {
            return true;
        }
        i = i + 1;
    }
    false
}

/// Index of the first non-whitespace character, or `s.len()` when the whole
/// sequence is whitespace.
pub open spec fn first_non_space(s: Seq<char>) -> int
    decreases s.len(),
{
    if s.len() == 0 {
        0
    } else if !is_space(s[0]) {
        0
    } else {
        1 + first_non_space(s.drop_first())
    }
}

pub proof fn lemma_first_non_space(s: Seq<char>)
    ensures
        0 <= first_non_space(s) <= s.len(),
        first_non_space(s) < s.len() ==> !is_space(s[first_non_space(s)]),
        forall|i: int| 0 <= i < first_non_space(s) ==> is_space(s[i]),
    decreases s.len(),
{
    if s.len() != 0 && is_space(s[0]) {
        lemma_first_non_space(s.drop_first());
        assert forall|i: int| 0 <= i < first_non_space(s) implies is_space(s[i]) by {
            if i > 0 {
                assert(s.drop_first()[i - 1] == s[i]);
            }
        }
    }
}

pub proof fn lemma_first_non_space_is(s: Seq<char>, k: int)
    requires
        0 <= k <= s.len(),
        forall|i: int| 0 <= i < k ==> is_space(s[i]),
        k == s.len() || !is_space(s[k]),
    ensures
        first_non_space(s) == k,
    decreases s.len(),
{
    if s.len() != 0 && is_space(s[0]) {
        lemma_first_non_space_is(s.drop_first(), k - 1);
    }
}

/// Index of the last non-whitespace character, or `-1` when the whole
/// sequence is whitespace.
pub open spec fn last_non_space(s: Seq<char>) -> int
    decreases s.len(),
{
    if s.len() == 0 {
        -1
    } else if !is_space(s[s.len() - 1]) {
        s.len() - 1
    } else {
        last_non_space(s.drop_last())
    }
}

pub proof fn lemma_last_non_space(s: Seq<char>)
    ensures
        -1 <= last_non_space(s) < s.len(),
        last_non_space(s) >= 0 ==> !is_space(s[last_non_space(s)]),
        forall|i: int| last_non_space(s) < i < s.len() ==> is_space(s[i]),
    decreases s.len(),
{
    if s.len() != 0 && is_space(s[s.len() - 1]) {
        lemma_last_non_space(s.drop_last());
        assert forall|i: int| last_non_space(s) < i < s.len() implies is_space(s[i]) by {
            if i < s.len() - 1 {
                assert(s.drop_last()[i] == s[i]);
            }
        }
    }
}

pub proof fn lemma_last_non_space_is(s: Seq<char>, k: int)
    requires
        -1 <= k < s.len(),
        forall|i: int| k < i < s.len() ==> is_space(s[i]),
        k == -1 || !is_space(s[k]),
    ensures
        last_non_space(s) == k,
    decreases s.len(),
{
    if s.len() != 0 && is_space(s[s.len() - 1]) {
        assert forall|i: int| k < i < s.drop_last().len() implies is_space(s.drop_last()[i]) by {
            assert(s.drop_last()[i] == s[i]);
        }
        lemma_last_non_space_is(s.drop_last(), k);
    }
}

/// Index of the first whitespace character, or `s.len()` when there is
/// none.
pub open spec fn first_space(s: Seq<char>) -> int
    decreases s.len(),
{
    if s.len() == 0 {
        0
    } else if is_space(s[0]) {
        0
    } else {
        1 + first_space(s.drop_first())
    }
}

pub proof fn lemma_first_space(s: Seq<char>)
    ensures
        0 <= first_space(s) <= s.len(),
        first_space(s) < s.len() ==> is_space(s[first_space(s)]),
        forall|i: int| 0 <= i < first_space(s) ==> !is_space(s[i]),
    decreases s.len(),
{
    if s.len() != 0 && !is_space(s[0]) {
        lemma_first_space(s.drop_first());
        assert forall|i: int| 0 <= i < first_space(s) implies !is_space(s[i]) by {
            if i > 0 {
                assert(s.drop_first()[i - 1] == s[i]);
            }
        }
    }
}

pub proof fn lemma_first_space_is(s: Seq<char>, k: int)
    requires
        0 <= k <= s.len(),
        forall|i: int| 0 <= i < k ==> !is_space(s[i]),
        k == s.len() || is_space(s[k]),
    ensures
        first_space(s) == k,
    decreases s.len(),
{
    if s.len() != 0 && !is_space(s[0]) {
        lemma_first_space_is(s.drop_first(), k - 1);
    }
}

/// The whitespace-separated words of `s`, in order.
pub open spec fn words(s: Seq<char>) -> Seq<Seq<char>>
    decreases s.len(),
    via words_decreases
{
    if s.len() == 0 {
        Seq::empty()
    } else if is_space(s[0]) {
        words(s.drop_first())
    } else {
        seq![s.take(first_space(s))] + words(s.skip(first_space(s)))
    }
}

#[via_fn]
proof fn words_decreases(s: Seq<char>) {
    lemma_first_space(s);
}

/// Dropping leading whitespace leaves the words unchanged.
pub proof fn lemma_words_skip_leading(s: Seq<char>, a: int)
    requires
        0 <= a <= s.len(),
        forall|i: int| 0 <= i < a ==> is_space(s[i]),
    ensures
        words(s) == words(s.skip(a)),
    decreases a,
{
    if a > 0 {
        assert(s.drop_first() =~= s.skip(1));
        assert forall|i: int| 0 <= i < a - 1 implies is_space(s.skip(1)[i]) by {
            assert(s.skip(1)[i] == s[i + 1]);
        }
        lemma_words_skip_leading(s.skip(1), a - 1);
        assert(s.skip(1).skip(a - 1) =~= s.skip(a));
    } else {
        assert(s.skip(0) =~= s);
    }
}

/// The first two words of `s`, each followed by a single space; fewer when
/// `s` has fewer words.
pub open spec fn two_word_key(s: Seq<char>) -> Seq<char> {
    let ws = words(s);
    if ws.len() == 0 {
        Seq::empty()
    } else if ws.len() == 1 {
        ws[0] + seq![' ']
    } else {
        ws[0] + seq![' '] + ws[1] + seq![' ']
    }
}

/// First index at or after `from` that does not hold whitespace, or the
/// length of `s`.
fn scan_space(s: &str, from: usize) -> (r: usize)
    requires
        from <= s@.len(),
    ensures
        from <= r <= s@.len(),
        forall|j: int| from <= j < r ==> is_space(s@[j]),
        r < s@.len() ==> !is_space(s@[r as int]),
{
    let n = s.unicode_len();
    let mut i: usize = from;
    while i < n && is_space_char(s.get_char(i))
        invariant
            from <= i <= n,
            n == s@.len(),
            forall|j: int| from <= j < i ==> is_space(s@[j]),
        decreases n - i,
    {
        i = i + 1;
    }
    i
}

/// First index at or after `from` that holds whitespace, or the length of
/// `s`.
fn scan_word(s: &str, from: usize) -> (r: usize)
    requires
        from <= s@.len(),
    ensures
        from <= r <= s@.len(),
        forall|j: int| from <= j < r ==> !is_space(s@[j]),
        r < s@.len() ==> is_space(s@[r as int]),
{
    let n = s.unicode_len();
    let mut i: usize = from;
    while i < n && !is_space_char(s.get_char(i))
        invariant
            from <= i <= n,
            n == s@.len(),
            forall|j: int| from <= j < i ==> !is_space(s@[j]),
        decreases n - i,
    {
        i = i + 1;
    }
    i
}

/// The first two whitespace-separated words of `s`, each with a single
/// trailing space appended; the empty string when `s` has no words.
pub fn two_word_key_of(s: &str) -> (r: String)
    ensures
        r@ == two_word_key(s@),
{
    proof {
        reveal_strlit(" ");
    }
    let n = s.unicode_len();
    let a1 = scan_space(s, 0);
    proof {
        lemma_words_skip_leading(s@, a1 as int);
    }
    if a1 == n {
        proof {
            assert(s@.skip(a1 as int) =~= Seq::<char>::empty());
        }
        return String::new();
    }
    let b1 = scan_word(s, a1);
    let w1 = s.substring_char(a1, b1);
    proof {
        let t1 = s@.skip(a1 as int);
        assert forall|i: int| 0 <= i < b1 - a1 implies !is_space(t1[i]) by {
            assert(t1[i] == s@[a1 + i]);
        }
        lemma_first_space_is(t1, b1 - a1);
        assert(t1.take(b1 - a1) =~= w1@);
        assert(t1.skip(b1 - a1) =~= s@.skip(b1 as int));
        assert(words(s@) == seq![w1@] + words(s@.skip(b1 as int)));
    }
    let a2 = scan_space(s, b1);
    proof {
        let t2 = s@.skip(b1 as int);
        assert forall|i: int| 0 <= i < a2 - b1 implies is_space(t2[i]) by {
            assert(t2[i] == s@[b1 + i]);
        }
        lemma_words_skip_leading(t2, a2 - b1);
        assert(t2.skip(a2 - b1) =~= s@.skip(a2 as int));
    }
    if a2 == n {
        proof {
            assert(s@.skip(a2 as int) =~= Seq::<char>::empty());
            assert(words(s@) =~= seq![w1@]);
        }
        let mut r = String::from_str(w1);
        r.append(" ");
        proof {
            assert(r@ =~= two_word_key(s@));
        }
        return r;
    }
    let b2 = scan_word(s, a2);
    let w2 = s.substring_char(a2, b2);
    proof {
        let t3 = s@.skip(a2 as int);
        assert forall|i: int| 0 <= i < b2 - a2 implies !is_space(t3[i]) by {
            assert(t3[i] == s@[a2 + i]);
        }
        lemma_first_space_is(t3, b2 - a2);
        assert(t3.take(b2 - a2) =~= w2@);
        assert(words(s@) == seq![w1@] + (seq![w2@] + words(t3.skip(b2 - a2))));
        assert(words(s@)[0] == w1@);
        assert(words(s@)[1] == w2@);
        assert(words(s@).len() >= 2);
    }
    let mut r = String::from_str(w1);
    r.append(" ");
    r.append(w2);
    r.append(" ");
    proof {
        assert(r@ =~= two_word_key(s@));
    }
    r
}

/// `s` with leading and trailing whitespace removed.
pub open spec fn trim_spec(s: Seq<char>) -> Seq<char> {
    if first_non_space(s) == s.len() {
        Seq::empty()
    } else {
        s.subrange(first_non_space(s), last_non_space(s) + 1)
    }
}

/// Trimming is idempotent: a trimmed sequence trims to itself.
pub proof fn lemma_trim_idempotent(s: Seq<char>)
    ensures
        trim_spec(trim_spec(s)) == trim_spec(s),
{
    lemma_first_non_space(s);
    lemma_last_non_space(s);
    let a = first_non_space(s);
    let b = last_non_space(s);
    if a == s.len() {
        assert(trim_spec(s) == Seq::<char>::empty());
        lemma_first_non_space_is(Seq::<char>::empty(), 0);
        assert(trim_spec(trim_spec(s)) == trim_spec(s));
    } else {
        let y = s.subrange(a, b + 1);
        assert(!is_space(s[a]));
        assert(a <= b) by {
            if b < a {
                assert(is_space(s[a]));
            }
        }
        assert(y[0] == s[a]);
        assert(y[y.len() - 1] == s[b]);
        lemma_first_non_space_is(y, 0);
        lemma_last_non_space_is(y, y.len() - 1);
        assert(y.subrange(0, y.len() as int) =~= y);
    }
}

/// Whether `c` is whitespace for the purposes of name matching.
pub fn is_space_char(c: char) -> (r: bool)
    ensures
        r == is_space(c),
{
    c == ' ' || c == '\t' || c == '\n' || c == '\r'
}

/// A copy of `s` with leading and trailing whitespace removed.
pub fn trim(s: &str) -> (r: String)
    ensures
        r@ == trim_spec(s@),
{
    let n = s.unicode_len();
    let mut a: usize = 0;
    while a < n && is_space_char(s.get_char(a))
        invariant
            0 <= a <= n,
            n == s@.len(),
            forall|j: int| 0 <= j < a ==> is_space(s@[j]),
        decreases n - a,
    {
        a = a + 1;
    }
    if a == n {
        proof {
            lemma_first_non_space_is(s@, n as int);
        }
        return String::new();
    }
    proof {
        lemma_first_non_space_is(s@, a as int);
    }
    let mut b: usize = n;
    while b > a && is_space_char(s.get_char(b - 1))
        invariant
            a <= b <= n,
            n == s@.len(),
            a < n,
            !is_space(s@[a as int]),
            forall|j: int| b <= j < n ==> is_space(s@[j]),
        decreases b,
    {
        b = b - 1;
    }
    proof {
        lemma_last_non_space_is(s@, b - 1);
    }
    let r = s.substring_char(a, b);
    String::from_str(r)
}

} // verus!
