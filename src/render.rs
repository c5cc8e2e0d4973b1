//! The text that shows the contents gathered for one test.
use vstd::prelude::*;

verus! {

/// The block that shows one file in a saved report.
pub open spec fn saved_block(name: Seq<char>, content: Seq<char>) -> Seq<char> {
    "Test: "@ + name + "\nContent:\n"@ + content + "\n\n"@
}

/// The block that shows one file on the screen.
pub open spec fn shown_block(name: Seq<char>, content: Seq<char>) -> Seq<char> {
    "-- "@ + name + " --\n\n"@ + content + "\n\n-- End of "@ + name + " --\n"@
}

/// A saved report of `entries`: the block of each, in order.
pub open spec fn saved_text(entries: Seq<(String, String)>) -> Seq<char>
    decreases entries.len(),
{
    if entries.len() == 0 {
        Seq::empty()
    } else {
        saved_text(entries.drop_last()) + saved_block(entries.last().0@, entries.last().1@)
    }
}

/// What the screen shows of `entries`: the block of each, in order.
pub open spec fn shown_text(entries: Seq<(String, String)>) -> Seq<char>
    decreases entries.len(),
{
    if entries.len() == 0 {
        Seq::empty()
    } else {
        shown_text(entries.drop_last()) + shown_block(entries.last().0@, entries.last().1@)
    }
}

/// Writes the report of `entries` that is saved to a file.
pub fn render_saved(entries: &Vec<(String, String)>) -> (r: String)
    ensures
        r@ == saved_text(entries@),
{
    let mut out = String::new();
    let mut i: usize = 0;
    while i < entries.len()
        invariant
            i <= entries@.len(),
            out@ == saved_text(entries@.take(i as int)),
        decreases entries@.len() - i,
    {
        proof {
            assert(entries@.take(i + 1).drop_last() =~= entries@.take(i as int));
        }
        out.append("Test: ");
        out.append(entries[i].0.as_str());
        out.append("\nContent:\n");
        out.append(entries[i].1.as_str());
        out.append("\n\n");
        i = i + 1;
    }
    assert(entries@.take(entries@.len() as int) =~= entries@);
    out
}

/// Writes what the screen shows of `entries`.
pub fn render_shown(entries: &Vec<(String, String)>) -> (r: String)
    ensures
        r@ == shown_text(entries@),
{
    let mut out = String::new();
    let mut i: usize = 0;
    while i < entries.len()
        invariant
            i <= entries@.len(),
            out@ == shown_text(entries@.take(i as int)),
        decreases entries@.len() - i,
    {
        proof {
            assert(entries@.take(i + 1).drop_last() =~= entries@.take(i as int));
        }
        out.append("-- ");
        out.append(entries[i].0.as_str());
        out.append(" --\n\n");
        out.append(entries[i].1.as_str());
        out.append("\n\n-- End of ");
        out.append(entries[i].0.as_str());
        out.append(" --\n");
        i = i + 1;
    }
    assert(entries@.take(entries@.len() as int) =~= entries@);
    out
}

} // verus!
