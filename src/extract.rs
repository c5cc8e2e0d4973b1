//! The rule that maps a log file's name to the test it belongs to.
use vstd::prelude::*;

verus! {

/// Index of the first `_` in `s`, if there is one.
pub open spec fn first_underscore(s: Seq<char>) -> Option<int>
    decreases s.len(),
{
    if s.len() == 0 {
        None
    } else if s[0] == '_' {
        Some(0)
    } else {
        match first_underscore(s.drop_first()) {
            Some(i) => Some(i + 1),
            None => None,
        }
    }
}

/// Index of the last `_` in `s`, if there is one.
pub open spec fn last_underscore(s: Seq<char>) -> Option<int>
    decreases s.len(),
{
    if s.len() == 0 {
        None
    } else if s.last() == '_' {
        Some(s.len() - 1)
    } else {
        last_underscore(s.drop_last())
    }
}

/// The test name held in a file name: the text strictly between its first and
/// its last `_`, when the first comes strictly before the last. Two adjacent
/// underscores hold the empty name.
pub open spec fn test_name_of(s: Seq<char>) -> Option<Seq<char>> {
    match (first_underscore(s), last_underscore(s)) {
        (Some(a), Some(b)) => if a < b {
            Some(s.subrange(a + 1, b))
        } else {
            None
        },
        _ => None,
    }
}

/// `first_underscore` finds the `_` that no other `_` precedes.
pub proof fn lemma_first_underscore(s: Seq<char>)
    ensures
        match first_underscore(s) {
            Some(i) => 0 <= i < s.len() && s[i] == '_' && forall|j: int| 0 <= j < i ==> s[j] != '_',
            None => forall|j: int| 0 <= j < s.len() ==> s[j] != '_',
        },
    decreases s.len(),
{
    if s.len() > 0 && s[0] != '_' {
        lemma_first_underscore(s.drop_first());
        assert forall|j: int| 0 < j < s.len() implies s[j] == s.drop_first()[j - 1] by {}
    }
}

/// `last_underscore` finds the `_` that no other `_` follows.
pub proof fn lemma_last_underscore(s: Seq<char>)
    ensures
        match last_underscore(s) {
            Some(i) => 0 <= i < s.len() && s[i] == '_' && forall|j: int| i < j < s.len() ==> s[j] != '_',
            None => forall|j: int| 0 <= j < s.len() ==> s[j] != '_',
        },
    decreases s.len(),
{
    if s.len() > 0 && s.last() != '_' {
        lemma_last_underscore(s.drop_last());
        assert forall|j: int| 0 <= j < s.len() - 1 implies s[j] == s.drop_last()[j] by {}
    }
}

/// A name without any `_` holds no test name.
pub proof fn lemma_no_underscore_no_test_name(s: Seq<char>)
    requires
        forall|j: int| 0 <= j < s.len() ==> s[j] != '_',
    ensures
        test_name_of(s) is None,
{
    lemma_first_underscore(s);
}

/// A name with exactly one `_` holds no test name.
pub proof fn lemma_one_underscore_no_test_name(s: Seq<char>, k: int)
    requires
        0 <= k < s.len(),
        s[k] == '_',
        forall|j: int| 0 <= j < s.len() && j != k ==> s[j] != '_',
    ensures
        test_name_of(s) is None,
{
    lemma_first_underscore(s);
    lemma_last_underscore(s);
}

/// Returns the text strictly between the first and the last `_` of `s`, which
/// is empty where they are adjacent, or nothing when `s` has fewer than two `_`.
pub fn extract_test_name(s: &str) -> (r: Option<&str>)
    ensures
        match r {
            Some(t) => test_name_of(s@) == Some(t@),
            None => test_name_of(s@) is None,
        },
{
    proof {
        lemma_first_underscore(s@);
        lemma_last_underscore(s@);
    }
    let n = s.unicode_len();
    let mut i: usize = 0;
    while i < n && s.get_char(i) != '_'
        invariant
            n == s@.len(),
            i <= n,
            forall|j: int| 0 <= j < i ==> s@[j] != '_',
        decreases n - i,
    {
        i = i + 1;
    }
    if i == n {
        return None;
    }
    let mut k: usize = n;
    while k > 0 && s.get_char(k - 1) != '_'
        invariant
            n == s@.len(),
            i < n,
            s@[i as int] == '_',
            i < k <= n,
            forall|j: int| k <= j < n ==> s@[j] != '_',
        decreases k,
    {
        k = k - 1;
    }
    let start = i + 1;
    let end = k - 1;
    if start <= end {
        Some(s.substring_char(start, end))
    } else {
        None
    }
}

} // verus!
