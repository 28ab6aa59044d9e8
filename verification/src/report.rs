//! What is printed at the end of a migration.

use vstd::prelude::*;

use crate::state::{MigrationState, StateView};
use crate::text;

verus! {

/// A line about an image that failed.
pub open spec fn failure_line(failure: (Seq<char>, Seq<char>)) -> Seq<char> {
    "  ❌ "@ + failure.0 + ": "@ + failure.1
}

/// The lines of the summary of a state. The failures are listed where there
/// are any.
pub open spec fn summary_lines(state: StateView) -> Seq<Seq<char>> {
    let rule = "\n========================="@;
    let counts = seq![
        rule,
        "\n=   Migration Summary   ="@,
        rule,
        "Total images: "@ + text::decimal(state.total_images),
        "Completed: "@ + text::decimal(state.completed.len()),
        "Failed: "@ + text::decimal(state.failed.len()),
        rule,
        "\n"@,
    ];
    if state.failed.len() == 0 {
        counts
    } else {
        counts + seq!["\nFailed migrations:"@] + state.failed.map_values(
            |failure: (Seq<char>, Seq<char>)| failure_line(failure),
        )
    }
}

/// `label` followed by a number.
fn count_line(label: &str, n: usize) -> (r: String)
    ensures
        r@ == label@ + text::decimal(n as nat),
{
    let mut r = text::owned(label);
    r.append(text::decimal_text(n).as_str());
    r
}

/// The lines of the summary of a state.
pub fn summary(state: &MigrationState) -> (r: Vec<String>)
    ensures
        text::texts(r@) == summary_lines(state@),
{
    let rule = "\n=========================";
    let failures = state.failures();
    assert(failures@.len() == state@.failed.len());
    let mut r: Vec<String> = Vec::new();
    r.push(text::owned(rule));
    r.push(text::owned("\n=   Migration Summary   ="));
    r.push(text::owned(rule));
    r.push(count_line("Total images: ", state.total_images()));
    r.push(count_line("Completed: ", state.completed_count()));
    r.push(count_line("Failed: ", failures.len()));
    r.push(text::owned(rule));
    r.push(text::owned("\n"));
    if failures.len() == 0 {
        assert(text::texts(r@) =~= summary_lines(state@));
        return r;
    }
    r.push(text::owned("\nFailed migrations:"));
    let ghost all = summary_lines(state@);
    assert(text::texts(r@) =~= all.take(9));
    for i in 0..failures.len()
        invariant
            all == summary_lines(state@),
            failures@.len() > 0,
            crate::state::failure_views(failures@) == state@.failed,
            text::texts(r@) == all.take(9 + i),
    {
        let ghost before = text::texts(r@);
        let mut line = text::owned("  ❌ ");
        line.append(failures[i].0.as_str());
        line.append(": ");
        line.append(failures[i].1.as_str());
        r.push(line);
        assert(crate::state::failure_views(failures@)[i as int] == state@.failed[i as int]);
        assert(line@ == all[9 + i]);
        assert(text::texts(r@) =~= before.push(line@));
        assert(all.take(9 + i + 1) =~= all.take(9 + i).push(all[9 + i]));
    }
    assert(all.take(all.len() as int) =~= all);
    r
}

/// The summary has the three counts in lines of their own, each with the number
/// that the state holds, and after them a line for each failure, in the order
/// of the state, with the whole reference and the whole error.
pub proof fn law_summary_tells_what_the_state_holds(state: StateView)
    ensures
        ({
            let lines = summary_lines(state);
            &&& lines.len() == if state.failed.len() == 0 {
                8
            } else {
                9 + state.failed.len()
            }
            &&& lines[0] == "\n========================="@
            &&& lines[1] == "\n=   Migration Summary   ="@
            &&& lines[2] == lines[0]
            &&& lines[3].take(14) == "Total images: "@
            &&& text::number(lines[3].skip(14)) == state.total_images
            &&& lines[4].take(11) == "Completed: "@
            &&& text::number(lines[4].skip(11)) == state.completed.len()
            &&& lines[5].take(8) == "Failed: "@
            &&& text::number(lines[5].skip(8)) == state.failed.len()
            &&& lines[3] == "Total images: "@ + text::decimal(state.total_images)
            &&& lines[4] == "Completed: "@ + text::decimal(state.completed.len())
            &&& lines[5] == "Failed: "@ + text::decimal(state.failed.len())
            &&& lines[6] == lines[0]
            &&& lines[7] == "\n"@
            &&& state.failed.len() > 0 ==> lines[8] == "\nFailed migrations:"@
            &&& forall|i: int|
                0 <= i < state.failed.len() ==> lines[9 + i] == "  ❌ "@ + (
                #[trigger] state.failed[i]).0 + ": "@ + state.failed[i].1
        }),
{
    reveal_strlit("Total images: ");
    reveal_strlit("Completed: ");
    reveal_strlit("Failed: ");
    let lines = summary_lines(state);
    text::law_decimal_is_read_back(state.total_images);
    text::law_decimal_is_read_back(state.completed.len());
    text::law_decimal_is_read_back(state.failed.len());
    assert(lines[3].take(14) =~= "Total images: "@);
    assert(lines[3].skip(14) =~= text::decimal(state.total_images));
    assert(lines[4].take(11) =~= "Completed: "@);
    assert(lines[4].skip(11) =~= text::decimal(state.completed.len()));
    assert(lines[5].take(8) =~= "Failed: "@);
    assert(lines[5].skip(8) =~= text::decimal(state.failed.len()));
}

/// The summaries of two states are the same only where the counts are, and the
/// failures line by line.
pub proof fn law_summaries_tell_counts_apart(a: StateView, b: StateView)
    requires
        summary_lines(a) == summary_lines(b),
    ensures
        a.total_images == b.total_images,
        a.completed.len() == b.completed.len(),
        a.failed.len() == b.failed.len(),
{
    law_summary_tells_what_the_state_holds(a);
    law_summary_tells_what_the_state_holds(b);
}

} // verus!
