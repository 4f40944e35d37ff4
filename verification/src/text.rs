//! Cutting text at separators, and looking for one text inside another.

use vstd::prelude::*;

verus! {

/// `at` is the place of the first `mark` in `s`, or the length of `s` where
/// `s` holds none.
pub open spec fn is_first(s: Seq<char>, mark: char, at: int) -> bool {
    &&& 0 <= at <= s.len()
    &&& forall|j: int| 0 <= j < at ==> s[j] != mark
    &&& at < s.len() ==> s[at] == mark
}

/// The place of the first `mark` in `s`, or the length of `s` where `s`
/// holds none.
pub open spec fn first_index(s: Seq<char>, mark: char) -> int {
    let at = choose|at: int| is_first(s, mark, at);
    if 0 <= at <= s.len() {
        at
    } else {
        s.len() as int
    }
}

/// The part of `s` between its first and its second `mark`, or behind its
/// first `mark` where there is no second; `None` where `s` holds no `mark`.
pub open spec fn second_part(s: Seq<char>, mark: char) -> Option<Seq<char>> {
    let first = first_index(s, mark);
    if first == s.len() {
        None
    } else {
        let rest = s.subrange(first + 1, s.len() as int);
        Some(rest.subrange(0, first_index(rest, mark)))
    }
}

/// `needle` stands somewhere in `hay`.
pub open spec fn contains_text(hay: Seq<char>, needle: Seq<char>) -> bool {
    exists|i: int|
        0 <= i <= hay.len() - needle.len() && #[trigger] hay.subrange(i, i + needle.len())
            == needle
}

/// There is one first place only.
pub proof fn lemma_first_index(s: Seq<char>, mark: char, at: int)
    requires
        is_first(s, mark, at),
    ensures
        first_index(s, mark) == at,
{
    let other = choose|at: int| is_first(s, mark, at);
    assert(is_first(s, mark, other));
    if other < at {
        assert(s[other] != mark);
    } else if at < other {
        assert(s[at] != mark);
    }
}

/// Every text has a first place.
pub proof fn lemma_first_exists(s: Seq<char>, mark: char)
    ensures
        is_first(s, mark, first_index(s, mark)),
    decreases s.len(),
{
    if s.len() == 0 || s[0] == mark {
        lemma_first_index(s, mark, 0);
    } else {
        let rest = s.drop_first();
        lemma_first_exists(rest, mark);
        let at = first_index(rest, mark) + 1;
        assert forall|j: int| 0 <= j < at implies s[j] != mark by {
            if j > 0 {
                assert(s[j] == rest[j - 1]);
            }
        }
        if at < s.len() {
            assert(s[at] == rest[at - 1]);
        }
        lemma_first_index(s, mark, at);
    }
}

/// The place of the first `mark` in the part of the text from `from` up to
/// `to`, or `to` where that part holds none.
pub fn find_in(text: &str, from: usize, to: usize, mark: char) -> (at: usize)
    requires
        from <= to <= text@.len(),
    ensures
        from <= at <= to,
        first_index(text@.subrange(from as int, to as int), mark) == at - from,
{
    let mut at: usize = from;
    while at < to && text.get_char(at) != mark
        invariant
            from <= at <= to <= text@.len(),
            forall|j: int| from <= j < at ==> text@[j] != mark,
        decreases to - at,
    {
        at += 1;
    }
    proof {
        let part = text@.subrange(from as int, to as int);
        assert forall|j: int| 0 <= j < at - from implies part[j] != mark by {
            assert(part[j] == text@[from + j]);
        }
        if at < to {
            assert(part[at - from] == text@[at as int]);
        }
        lemma_first_index(part, mark, at - from);
    }
    at
}

/// Whether the two texts are the same.
pub fn same_text(a: &str, b: &str) -> (same: bool)
    ensures
        same == (a@ == b@),
{
    if a.unicode_len() != b.unicode_len() {
        return false;
    }
    let same = stands_at(a, b, 0);
    proof {
        assert(a@.subrange(0, a@.len() as int) =~= a@);
    }
    same
}

/// Whether `needle` stands at place `at` of `hay`.
fn stands_at(hay: &str, needle: &str, at: usize) -> (b: bool)
    requires
        at + needle@.len() <= hay@.len(),
    ensures
        b == (hay@.subrange(at as int, at + needle@.len()) == needle@),
{
    let n = hay.unicode_len();
    let m = needle.unicode_len();
    let mut k: usize = 0;
    while k < m
        invariant
            n == hay@.len(),
            m == needle@.len(),
            at + m <= n,
            k <= m,
            forall|j: int| 0 <= j < k ==> hay@[at + j] == needle@[j],
        decreases m - k,
    {
        if hay.get_char(at + k) != needle.get_char(k) {
            proof {
                let part = hay@.subrange(at as int, at + m);
                assert(part[k as int] == hay@[at + k]);
            }
            return false;
        }
        k += 1;
    }
    assert(hay@.subrange(at as int, at + m) =~= needle@);
    true
}

/// Whether `needle` stands somewhere in `hay`.
pub fn contains(hay: &str, needle: &str) -> (b: bool)
    ensures
        b == contains_text(hay@, needle@),
{
    let n = hay.unicode_len();
    let m = needle.unicode_len();
    if m > n {
        return false;
    }
    let last = n - m;
    let mut i: usize = 0;
    loop
        invariant
            n == hay@.len(),
            m == needle@.len(),
            last == n - m,
            i <= last,
            forall|j: int| 0 <= j < i ==> #[trigger] hay@.subrange(j, j + m) != needle@,
        decreases last - i,
    {
        if stands_at(hay, needle, i) {
            return true;
        }
        if i == last {
            return false;
        }
        i += 1;
    }
}

} // verus!
