//! Counting, for each test name, the log files that carry it.
use vstd::prelude::*;
use crate::extract::{extract_test_name, test_name_of};
use crate::text::same_text;

verus! {

/// The name that marks a file as belonging to no test.
pub open spec fn no_test_name() -> Seq<char> {
    seq!['n', 'o', '-', 't', 'e', 's', 't']
}

/// The name under which a file is counted: its test name, unless that is the
/// name that marks a file as belonging to no test.
pub open spec fn listed_name(file_name: Seq<char>) -> Option<Seq<char>> {
    match test_name_of(file_name) {
        Some(t) => if t == no_test_name() {
            None
        } else {
            Some(t)
        },
        None => None,
    }
}

/// How many of `files` are counted under `name`.
pub open spec fn count_of(files: Seq<Seq<char>>, name: Seq<char>) -> nat
    decreases files.len(),
{
    if files.len() == 0 {
        0
    } else {
        count_of(files.drop_last(), name) + if listed_name(files.last()) == Some(name) {
            1nat
        } else {
            0nat
        }
    }
}

/// What a file name says about the test it belongs to.
pub enum NameKind<'a> {
    /// The file is counted under this test name.
    Listed(&'a str),
    /// The file is marked as belonging to no test.
    Excluded,
    /// The file name holds no test name.
    Unnamed,
}

/// Sorts a file name by what it says about its test.
pub fn classify(file_name: &str) -> (r: NameKind<'_>)
    ensures
        match r {
            NameKind::Listed(t) => listed_name(file_name@) == Some(t@),
            NameKind::Excluded => test_name_of(file_name@) == Some(no_test_name()),
            NameKind::Unnamed => test_name_of(file_name@) is None,
        },
{
    match extract_test_name(file_name) {
        Some(t) => {
            let marker = "no-test";
            proof {
                reveal_strlit("no-test");
                assert(marker@ =~= no_test_name());
            }
            if same_text(t, marker) {
                NameKind::Excluded
            } else {
                NameKind::Listed(t)
            }
        },
        None => NameKind::Unnamed,
    }
}

/// One test name and the number of files found for it.
pub struct TestRow {
    pub test_name: String,
    pub found_count: usize,
}

/// `rows` counts `files` exactly: each name once, each with the number of
/// files counted under it, and every name that some file is counted under.
pub open spec fn is_tally_of(rows: Seq<TestRow>, files: Seq<Seq<char>>) -> bool {
    &&& forall|a: int, b: int|
        0 <= a < b < rows.len() ==> rows[a].test_name@ != rows[b].test_name@
    &&& forall|k: int|
        0 <= k < rows.len() ==> rows[k].found_count >= 1 && rows[k].found_count == count_of(
            files,
            rows[k].test_name@,
        )
    &&& forall|n: Seq<char>|
        count_of(files, n) > 0 ==> exists|k: int|
            0 <= k < rows.len() && rows[k].test_name@ == n
}

/// No more files are counted under a name than there are files.
pub proof fn lemma_count_at_most_len(files: Seq<Seq<char>>, name: Seq<char>)
    ensures
        count_of(files, name) <= files.len(),
    decreases files.len(),
{
    if files.len() > 0 {
        lemma_count_at_most_len(files.drop_last(), name);
    }
}

/// Index of the first of `names` that reads `t`, or the length of `names`
/// where none does.
fn position_of(names: &Vec<&str>, t: &str) -> (j: usize)
    ensures
        j <= names@.len(),
        forall|q: int| 0 <= q < j ==> names@[q]@ != t@,
        j < names@.len() ==> names@[j as int]@ == t@,
{
    let mut j: usize = 0;
    while j < names.len() && !same_text(names[j], t)
        invariant
            j <= names@.len(),
            forall|q: int| 0 <= q < j ==> names@[q]@ != t@,
        decreases names@.len() - j,
    {
        j = j + 1;
    }
    j
}

/// Counting over two runs of files one after the other adds their counts.
pub proof fn lemma_count_concat(a: Seq<Seq<char>>, b: Seq<Seq<char>>, name: Seq<char>)
    ensures
        count_of(a + b, name) == count_of(a, name) + count_of(b, name),
    decreases b.len(),
{
    if b.len() == 0 {
        assert(a + b =~= a);
    } else {
        assert((a + b).drop_last() =~= a + b.drop_last());
        lemma_count_concat(a, b.drop_last(), name);
    }
}

/// Taking one file out of a run lowers the count of its name by one, and no
/// other count.
pub proof fn lemma_count_remove(files: Seq<Seq<char>>, j: int, name: Seq<char>)
    requires
        0 <= j < files.len(),
    ensures
        count_of(files, name) == count_of(files.remove(j), name) + if listed_name(files[j])
            == Some(name) {
            1nat
        } else {
            0nat
        },
{
    let front = files.take(j);
    let back = files.skip(j + 1);
    let one = seq![files[j]];
    assert(files =~= front + one + back);
    assert(files.remove(j) =~= front + back);
    lemma_count_concat(front + one, back, name);
    lemma_count_concat(front, one, name);
    lemma_count_concat(front, back, name);
    assert(one.drop_last() =~= Seq::<Seq<char>>::empty());
    assert(count_of(one.drop_last(), name) == 0);
    assert(one.last() == files[j]);
}

/// The counts depend only on which files there are, not on the order in which
/// they are met: two runs over the same files give the same count for every name.
pub proof fn lemma_count_ignores_order(a: Seq<Seq<char>>, b: Seq<Seq<char>>)
    requires
        a.to_multiset() == b.to_multiset(),
    ensures
        forall|name: Seq<char>| count_of(a, name) == count_of(b, name),
    decreases a.len(),
{
    broadcast use vstd::seq_lib::group_to_multiset_ensures, vstd::multiset::group_multiset_axioms;

    if a.len() == 0 {
        assert(b.to_multiset().len() == 0);
        assert(b.len() == 0);
    } else {
        let x = a.last();
        let rest = a.drop_last();
        assert(rest.push(x) =~= a);
        assert(b.to_multiset().count(x) > 0);
        assert(b.contains(x));
        let j = choose|j: int| 0 <= j < b.len() && b[j] == x;
        assert(rest.to_multiset() =~= a.to_multiset().remove(x));
        assert(b.remove(j).to_multiset() =~= b.to_multiset().remove(x));
        lemma_count_ignores_order(rest, b.remove(j));
        assert forall|name: Seq<char>| count_of(a, name) == count_of(b, name) by {
            lemma_count_remove(b, j, name);
        }
    }
}

/// `rows` holds a row for `name` with `count`.
pub open spec fn has_row(rows: Seq<TestRow>, name: Seq<char>, count: usize) -> bool {
    exists|q: int| 0 <= q < rows.len() && rows[q].test_name@ == name && rows[q].found_count == count
}

/// Two tallies over the same files, met in any order, hold the same rows: each
/// row of one is in the other, with the same name and count.
pub proof fn lemma_tally_ignores_order(
    files_a: Seq<Seq<char>>,
    files_b: Seq<Seq<char>>,
    rows_a: Seq<TestRow>,
    rows_b: Seq<TestRow>,
)
    requires
        files_a.to_multiset() == files_b.to_multiset(),
        is_tally_of(rows_a, files_a),
        is_tally_of(rows_b, files_b),
    ensures
        forall|k: int|
            0 <= k < rows_a.len() ==> has_row(rows_b, rows_a[k].test_name@, rows_a[k].found_count),
        forall|q: int|
            0 <= q < rows_b.len() ==> has_row(rows_a, rows_b[q].test_name@, rows_b[q].found_count),
{
    lemma_count_ignores_order(files_a, files_b);
    assert forall|k: int| 0 <= k < rows_a.len() implies has_row(
        rows_b,
        rows_a[k].test_name@,
        rows_a[k].found_count,
    ) by {
        let n = rows_a[k].test_name@;
        assert(count_of(files_b, n) > 0);
        let q = choose|q: int| 0 <= q < rows_b.len() && rows_b[q].test_name@ == n;
        assert(rows_b[q].found_count == count_of(files_b, n));
    }
    assert forall|q: int| 0 <= q < rows_b.len() implies has_row(
        rows_a,
        rows_b[q].test_name@,
        rows_b[q].found_count,
    ) by {
        let n = rows_b[q].test_name@;
        assert(count_of(files_a, n) > 0);
        let k = choose|k: int| 0 <= k < rows_a.len() && rows_a[k].test_name@ == n;
        assert(rows_a[k].found_count == count_of(files_a, n));
    }
}

/// Counts, for each test name, the files in `file_names` counted under it.
pub fn tally_test_names(file_names: &Vec<String>) -> (rows: Vec<TestRow>)
    ensures
        is_tally_of(rows@, file_names.deep_view()),
{
    let ghost files = file_names.deep_view();
    let mut names: Vec<&str> = Vec::new();
    let mut counts: Vec<usize> = Vec::new();
    let mut i: usize = 0;
    while i < file_names.len()
        invariant
            files == file_names.deep_view(),
            i <= files.len(),
            names@.len() == counts@.len(),
            forall|a: int, b: int| 0 <= a < b < names@.len() ==> names@[a]@ != names@[b]@,
            forall|k: int|
                0 <= k < names@.len() ==> counts@[k] >= 1 && counts@[k] == count_of(
                    files.take(i as int),
                    names@[k]@,
                ),
            forall|n: Seq<char>|
                count_of(files.take(i as int), n) > 0 ==> exists|k: int|
                    0 <= k < names@.len() && names@[k]@ == n,
        decreases files.len() - i,
    {
        let ghost before = files.take(i as int);
        let ghost after = files.take(i + 1);
        let ghost old_len = names@.len();
        let ghost old_names = names@;
        let ghost mut hit: int = -1;
        proof {
            assert(after.drop_last() =~= before);
            assert(after.last() == file_names@[i as int]@);
            assert forall|n: Seq<char>| count_of(before, n) <= i by {
                lemma_count_at_most_len(before, n);
            }
        }
        match classify(file_names[i].as_str()) {
            NameKind::Listed(t) => {
                let j = position_of(&names, t);
                proof {
                    hit = j as int;
                    assert(listed_name(after.last()) == Some(t@));
                }
                if j < names.len() {
                    assert(count_of(before, t@) <= i);
                    let c = counts[j];
                    counts.set(j, c + 1);
                } else {
                    assert(count_of(before, t@) == 0);
                    names.push(t);
                    counts.push(1);
                }
            },
            _ => {
                assert(listed_name(after.last()) is None);
            },
        }
        proof {
            assert forall|n: Seq<char>| count_of(after, n) > 0 implies exists|k: int|
                0 <= k < names@.len() && names@[k]@ == n by {
                if count_of(before, n) > 0 {
                    let k = choose|k: int| 0 <= k < old_len && old_names[k]@ == n;
                    assert(names@[k] == old_names[k]);
                } else {
                    assert(names@[hit]@ == n);
                }
            }
        }
        i = i + 1;
    }
    assert(files.take(files.len() as int) =~= files);
    let mut rows: Vec<TestRow> = Vec::new();
    let mut k: usize = 0;
    while k < names.len()
        invariant
            names@.len() == counts@.len(),
            k <= names@.len(),
            rows@.len() == k,
            forall|q: int| 0 <= q < k ==> (#[trigger] rows@[q]).test_name@ == names@[q]@,
            forall|q: int| 0 <= q < k ==> (#[trigger] rows@[q]).found_count == counts@[q],
        decreases names@.len() - k,
    {
        let test_name = str::to_owned(names[k]);
        rows.push(TestRow { test_name, found_count: counts[k] });
        k = k + 1;
    }
    proof {
        assert forall|n: Seq<char>| count_of(files, n) > 0 implies exists|q: int|
            0 <= q < rows@.len() && rows@[q].test_name@ == n by {
            let q = choose|q: int| 0 <= q < names@.len() && names@[q]@ == n;
            assert(rows@[q].test_name@ == n);
        }
    }
    rows
}

/// A listing of the tests found: their rows, and how many distinct test names
/// there are.
pub struct ListReport {
    pub rows: Vec<TestRow>,
    pub total: usize,
}

/// Lists the tests that `file_names` carry; the total is the number of rows.
pub fn list_report(file_names: &Vec<String>) -> (r: ListReport)
    ensures
        is_tally_of(r.rows@, file_names.deep_view()),
        r.total == r.rows@.len(),
{
    let rows = tally_test_names(file_names);
    let total = rows.len();
    ListReport { rows, total }
}

} // verus!
