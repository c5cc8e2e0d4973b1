//! Equality and order of texts, character by character.
use vstd::prelude::*;

verus! {

/// `a` and `b` hold the same characters below index `i`.
pub open spec fn agree_below(a: Seq<char>, b: Seq<char>, i: int) -> bool {
    forall|j: int| 0 <= j < i ==> a[j] == b[j]
}

/// `a` comes before `b` at position `i`: they agree below it, and there `a`
/// ends while `b` goes on, or `a` holds the smaller character.
pub open spec fn differs_first_at(a: Seq<char>, b: Seq<char>, i: int) -> bool {
    &&& 0 <= i <= a.len()
    &&& i < b.len()
    &&& agree_below(a, b, i)
    &&& (i == a.len() || (a[i] as int) < (b[i] as int))
}

/// Lexicographic order of texts by code point, the order of Rust's `str`.
pub open spec fn text_less(a: Seq<char>, b: Seq<char>) -> bool {
    exists|i: int| differs_first_at(a, b, i)
}

proof fn lemma_text_total_from(a: Seq<char>, b: Seq<char>, i: int)
    requires
        0 <= i <= a.len(),
        i <= b.len(),
        agree_below(a, b, i),
    ensures
        a == b || text_less(a, b) || text_less(b, a),
    decreases a.len() - i,
{
    if i == a.len() && i == b.len() {
        assert(a =~= b);
    } else if i == a.len() {
        assert(differs_first_at(a, b, i));
    } else if i == b.len() {
        assert(differs_first_at(b, a, i));
    } else if a[i] == b[i] {
        lemma_text_total_from(a, b, i + 1);
    } else if (a[i] as int) < (b[i] as int) {
        assert(differs_first_at(a, b, i));
    } else {
        assert((b[i] as int) < (a[i] as int));
        assert(differs_first_at(b, a, i));
    }
}

/// Any two different texts are ordered one way or the other.
pub proof fn lemma_text_total(a: Seq<char>, b: Seq<char>)
    ensures
        a == b || text_less(a, b) || text_less(b, a),
{
    lemma_text_total_from(a, b, 0);
}

/// No text comes before itself, and no two texts come before each other.
pub proof fn lemma_text_asymmetric(a: Seq<char>, b: Seq<char>)
    requires
        text_less(a, b),
    ensures
        !text_less(b, a),
        a != b,
{
    let i = choose|i: int| differs_first_at(a, b, i);
    if text_less(b, a) {
        let j = choose|j: int| differs_first_at(b, a, j);
        if i < j {
            assert(a[i] == b[i]);
        } else if j < i {
            assert(a[j] == b[j]);
        }
    }
    if a == b {
        assert(i < a.len());
    }
}

/// The order of texts is transitive.
pub proof fn lemma_text_transitive(a: Seq<char>, b: Seq<char>, c: Seq<char>)
    requires
        text_less(a, b),
        text_less(b, c),
    ensures
        text_less(a, c),
{
    let i = choose|i: int| differs_first_at(a, b, i);
    let j = choose|j: int| differs_first_at(b, c, j);
    if i < j {
        assert(differs_first_at(a, c, i));
    } else if j < i {
        assert(b[j] == a[j]);
        assert(differs_first_at(a, c, j));
    } else {
        assert(differs_first_at(a, c, i));
    }
}

/// Tells whether `a` and `b` hold the same text.
pub fn same_text(a: &str, b: &str) -> (r: bool)
    ensures
        r == (a@ == b@),
{
    let na = a.unicode_len();
    let nb = b.unicode_len();
    if na != nb {
        return false;
    }
    let mut i: usize = 0;
    while i < na
        invariant
            na == a@.len(),
            nb == b@.len(),
            na == nb,
            i <= na,
            agree_below(a@, b@, i as int),
        decreases na - i,
    {
        if a.get_char(i) != b.get_char(i) {
            return false;
        }
        i = i + 1;
    }
    assert(a@ =~= b@);
    true
}

/// Tells whether `a` comes before `b` in the order of texts.
pub fn is_text_less(a: &str, b: &str) -> (r: bool)
    ensures
        r == text_less(a@, b@),
{
    let na = a.unicode_len();
    let nb = b.unicode_len();
    let mut i: usize = 0;
    while i < na && i < nb && a.get_char(i) == b.get_char(i)
        invariant
            na == a@.len(),
            nb == b@.len(),
            i <= na,
            i <= nb,
            agree_below(a@, b@, i as int),
        decreases na - i,
    {
        i = i + 1;
    }
    let r = if i == na {
        i < nb
    } else if i == nb {
        false
    } else {
        (a.get_char(i) as u32) < (b.get_char(i) as u32)
    };
    if r {
        assert(differs_first_at(a@, b@, i as int));
    } else {
        assert forall|j: int| !differs_first_at(a@, b@, j) by {
            if differs_first_at(a@, b@, j) && j > i {
                assert(a@[i as int] == b@[i as int]);
            }
        }
    }
    r
}

} // verus!
