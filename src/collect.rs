//! Gathering the contents of the log files that belong to one test, by file
//! name and in the order of file names.
use vstd::prelude::*;
use crate::extract::{extract_test_name, test_name_of};
use crate::text::{
    is_text_less, lemma_text_asymmetric, lemma_text_total, lemma_text_transitive, same_text,
    text_less,
};

verus! {

/// The contents gathered for test `desired` from `files`, pairs of file name
/// and content met in this order: each file whose test name is `desired`, by
/// its name, where a later file of the same name replaces an earlier one.
pub open spec fn collected(files: Seq<(String, String)>, desired: Seq<char>) -> Map<
    Seq<char>,
    Seq<char>,
>
    decreases files.len(),
{
    if files.len() == 0 {
        Map::empty()
    } else {
        let rest = collected(files.drop_last(), desired);
        let (name, content) = files.last();
        if test_name_of(name@) == Some(desired) {
            rest.insert(name@, content@)
        } else {
            rest
        }
    }
}

/// The names of `entries` rise strictly, so each name is there once.
pub open spec fn sorted_by_name(entries: Seq<(String, String)>) -> bool {
    forall|a: int, b: int|
        0 <= a < b < entries.len() ==> text_less(#[trigger] entries[a].0@, #[trigger] entries[b].0@)
}

/// `entries` holds `name` with `content`.
pub open spec fn holds_entry(entries: Seq<(String, String)>, name: Seq<char>, content: Seq<char>) -> bool {
    exists|k: int| 0 <= k < entries.len() && entries[k].0@ == name && entries[k].1@ == content
}

/// `entries` holds `name`.
pub open spec fn holds_name(entries: Seq<(String, String)>, name: Seq<char>) -> bool {
    exists|k: int| 0 <= k < entries.len() && entries[k].0@ == name
}

/// `entries` lists `map` exactly, in the order of names.
pub open spec fn lists_map(entries: Seq<(String, String)>, map: Map<Seq<char>, Seq<char>>) -> bool {
    &&& sorted_by_name(entries)
    &&& forall|k: int|
        0 <= k < entries.len() ==> map.contains_key(#[trigger] entries[k].0@) && map[entries[k].0@]
            == entries[k].1@
    &&& forall|n: Seq<char>| map.contains_key(n) ==> holds_name(entries, n)
}

/// Tells whether the file named `file_name` belongs to test `desired`.
pub fn matches_test(file_name: &str, desired: &str) -> (r: bool)
    ensures
        r == (test_name_of(file_name@) == Some(desired@)),
{
    match extract_test_name(file_name) {
        Some(t) => same_text(t, desired),
        None => false,
    }
}

/// Puts `content` under `name` into `entries`, in its place by name, in place
/// of what `entries` held under `name`.
fn insert_sorted(entries: &mut Vec<(String, String)>, name: String, content: String)
    requires
        sorted_by_name(old(entries)@),
    ensures
        sorted_by_name(final(entries)@),
        holds_name(final(entries)@, name@),
        forall|k: int|
            0 <= k < final(entries)@.len() && (#[trigger] final(entries)@[k]).0@ == name@
                ==> final(entries)@[k].1@ == content@,
        forall|k: int|
            0 <= k < final(entries)@.len() && (#[trigger] final(entries)@[k]).0@ != name@
                ==> holds_entry(old(entries)@, final(entries)@[k].0@, final(entries)@[k].1@),
        forall|k: int|
            0 <= k < old(entries)@.len() && (#[trigger] old(entries)@[k]).0@ != name@
                ==> holds_entry(final(entries)@, old(entries)@[k].0@, old(entries)@[k].1@),
{
    let ghost before = entries@;
    let mut p: usize = 0;
    while p < entries.len() && is_text_less(entries[p].0.as_str(), name.as_str())
        invariant
            entries@ == before,
            p <= before.len(),
            forall|j: int| 0 <= j < p ==> text_less(#[trigger] before[j].0@, name@),
        decreases before.len() - p,
    {
        p = p + 1;
    }
    if p < entries.len() && same_text(entries[p].0.as_str(), name.as_str()) {
        let ghost n = name@;
        let ghost c = content@;
        entries.set(p, (name, content));
        proof {
            let after = entries@;
            assert(after[p as int].0@ == n);
            assert forall|a: int, b: int| 0 <= a < b < after.len() implies text_less(
                #[trigger] after[a].0@,
                #[trigger] after[b].0@,
            ) by {
                assert(before[a].0@ == after[a].0@);
                assert(before[b].0@ == after[b].0@);
            }
            assert forall|k: int| 0 <= k < after.len() && (#[trigger] after[k]).0@ != n
                implies holds_entry(before, after[k].0@, after[k].1@) by {
                assert(after[k] == before[k]);
            }
            assert forall|k: int| 0 <= k < before.len() && (#[trigger] before[k]).0@ != n
                implies holds_entry(after, before[k].0@, before[k].1@) by {
                assert(after[k] == before[k]);
            }
            assert forall|k: int| 0 <= k < after.len() && (#[trigger] after[k]).0@ == n
                implies after[k].1@ == c by {
                if k != p {
                    assert(before[k].0@ == before[p as int].0@);
                    if k < p {
                        lemma_text_asymmetric(before[k].0@, before[p as int].0@);
                    } else {
                        lemma_text_asymmetric(before[p as int].0@, before[k].0@);
                    }
                }
            }
        }
    } else {
        let ghost n = name@;
        let ghost c = content@;
        proof {
            assert forall|j: int| p <= j < before.len() implies text_less(n, #[trigger] before[j].0@)
                by {
                lemma_text_total(before[p as int].0@, n);
                if j > p {
                    lemma_text_transitive(n, before[p as int].0@, before[j].0@);
                }
            }
            assert forall|j: int| 0 <= j < before.len() implies (#[trigger] before[j]).0@ != n by {
                if j < p {
                    lemma_text_asymmetric(before[j].0@, n);
                } else {
                    lemma_text_asymmetric(n, before[j].0@);
                }
            }
        }
        entries.insert(p, (name, content));
        proof {
            let after = entries@;
            assert(after[p as int].0@ == n);
            assert forall|k: int| 0 <= k < after.len() implies #[trigger] after[k] == if k < p {
                before[k]
            } else if k == p {
                after[k]
            } else {
                before[k - 1]
            } by {}
            assert forall|a: int, b: int| 0 <= a < b < after.len() implies text_less(
                #[trigger] after[a].0@,
                #[trigger] after[b].0@,
            ) by {
                if b < p {
                    assert(text_less(before[a].0@, before[b].0@));
                } else if b == p {
                    assert(text_less(before[a].0@, n));
                } else if a < p {
                    assert(text_less(before[a].0@, before[b - 1].0@));
                } else if a == p {
                    assert(text_less(n, before[b - 1].0@));
                } else {
                    assert(text_less(before[a - 1].0@, before[b - 1].0@));
                }
            }
            assert forall|k: int| 0 <= k < after.len() && (#[trigger] after[k]).0@ != n
                implies holds_entry(before, after[k].0@, after[k].1@) by {
                if k < p {
                    assert(after[k] == before[k]);
                } else {
                    assert(after[k] == before[k - 1]);
                }
            }
            assert forall|k: int| 0 <= k < before.len() && (#[trigger] before[k]).0@ != n
                implies holds_entry(after, before[k].0@, before[k].1@) by {
                if k < p {
                    assert(after[k] == before[k]);
                } else {
                    assert(after[k + 1] == before[k]);
                }
            }
            assert forall|k: int| 0 <= k < after.len() && (#[trigger] after[k]).0@ == n
                implies after[k].1@ == c by {
                if k < p {
                    assert(after[k] == before[k]);
                } else if k > p {
                    assert(after[k] == before[k - 1]);
                }
            }
        }
    }
}

/// Gathers from `files`, pairs of file name and content in the order met, the
/// contents of the files that belong to test `desired`: by file name, in the
/// order of names, and of two files of one name the later one.
pub fn collect_test_contents(files: &Vec<(String, String)>, desired: &str) -> (entries: Vec<
    (String, String),
>)
    ensures
        lists_map(entries@, collected(files@, desired@)),
{
    let mut entries: Vec<(String, String)> = Vec::new();
    let mut i: usize = 0;
    while i < files.len()
        invariant
            i <= files@.len(),
            lists_map(entries@, collected(files@.take(i as int), desired@)),
        decreases files@.len() - i,
    {
        let ghost map = collected(files@.take(i as int), desired@);
        let ghost before = entries@;
        proof {
            assert(files@.take(i + 1).drop_last() =~= files@.take(i as int));
            assert(files@.take(i + 1).last() == files@[i as int]);
        }
        if matches_test(files[i].0.as_str(), desired) {
            let name = files[i].0.clone();
            let content = files[i].1.clone();
            let ghost n = name@;
            let ghost c = content@;
            insert_sorted(&mut entries, name, content);
            proof {
                let next = map.insert(n, c);
                assert(next == collected(files@.take(i + 1), desired@));
                assert forall|k: int| 0 <= k < entries@.len() implies next.contains_key(
                    #[trigger] entries@[k].0@,
                ) && next[entries@[k].0@] == entries@[k].1@ by {
                    if entries@[k].0@ != n {
                        let j = choose|j: int|
                            0 <= j < before.len() && before[j].0@ == entries@[k].0@ && before[j].1@
                                == entries@[k].1@;
                        assert(map.contains_key(before[j].0@));
                    }
                }
                assert forall|m: Seq<char>| next.contains_key(m) implies holds_name(
                    entries@,
                    m,
                ) by {
                    if m != n {
                        assert(map.contains_key(m));
                        assert(holds_name(before, m));
                        let j = choose|j: int| 0 <= j < before.len() && before[j].0@ == m;
                        assert(holds_entry(entries@, before[j].0@, before[j].1@));
                    }
                }
            }
        }
        i = i + 1;
    }
    assert(files@.take(files@.len() as int) =~= files@);
    entries
}

} // verus!
