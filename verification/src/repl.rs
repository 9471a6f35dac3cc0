//! The read-eval-print loop, one line at a time.
//!
//! The loop has two states. While it reads, each line gives one line of
//! output; a line with a terminate directive gives the last output, and the
//! loop has stopped. The end of the input stops it too, without output.
//! Nothing is carried from one line to the next: the case of the letters
//! starts anew with every line.

use vstd::prelude::*;
use crate::escape::{escape_outcome, escape_process, CycleOutcome};
use crate::littify::{littified, littify_string};

verus! {

/// What one cycle writes, and whether the loop goes on: the decoded line
/// with the case of its letters alternating, or the text that ends the
/// session, which is written as it stands.
pub open spec fn cycle_outcome(line: Seq<char>) -> CycleOutcome<Seq<char>> {
    match escape_outcome(line) {
        CycleOutcome::Continue(text) => CycleOutcome::Continue(littified(text)),
        CycleOutcome::Terminate(text) => CycleOutcome::Terminate(text),
    }
}

/// The text that a cycle writes, whichever way it ends.
pub open spec fn cycle_text(line: Seq<char>) -> Seq<char> {
    match cycle_outcome(line) {
        CycleOutcome::Continue(text) => text,
        CycleOutcome::Terminate(text) => text,
    }
}

/// Everything the loop writes for `lines`, line by line: one output for each
/// input, up to and including the first that terminates.
pub open spec fn transcript(lines: Seq<Seq<char>>) -> Seq<Seq<char>>
    decreases lines.len(),
{
    if lines.len() == 0 {
        seq![]
    } else {
        match cycle_outcome(lines[0]) {
            CycleOutcome::Continue(text) => seq![text] + transcript(lines.drop_first()),
            CycleOutcome::Terminate(text) => seq![text],
        }
    }
}

/// One cycle of the loop: the text to write for `line`, and whether to read
/// on after it.
pub fn repl_cycle(line: String) -> (r: CycleOutcome<String>)
    ensures
        r@ == cycle_outcome(line@),
{
    match escape_process(line) {
        CycleOutcome::Continue(text) => CycleOutcome::Continue(littify_string(text)),
        CycleOutcome::Terminate(text) => CycleOutcome::Terminate(text),
    }
}

/// Runs the loop over the lines of an input and returns the lines that it
/// writes. No line is read, and nothing is written, after a line that
/// terminates.
pub fn repl(input: Vec<String>) -> (output: Vec<String>)
    ensures
        output.deep_view() == transcript(input.deep_view()),
{
    let ghost lines = input.deep_view();
    let mut output: Vec<String> = Vec::new();
    let mut i: usize = 0;
    proof {
        assert(lines.skip(0) =~= lines);
        assert(output.deep_view() + transcript(lines) =~= transcript(lines));
    }
    while i < input.len()
        invariant
            i <= input.len(),
            lines == input.deep_view(),
            transcript(lines) == output.deep_view() + transcript(lines.skip(i as int)),
        decreases input.len() - i,
    {
        let ghost written = output.deep_view();
        let ghost rest = transcript(lines.skip(i + 1));
        proof {
            assert(lines.skip(i as int)[0] == input[i as int]@);
            assert(lines.skip(i as int).drop_first() =~= lines.skip(i + 1));
        }
        match repl_cycle(input[i].clone()) {
            CycleOutcome::Continue(text) => {
                output.push(text);
                assert(output.deep_view() =~= written + seq![text@]);
                assert(written + (seq![text@] + rest) =~= (written + seq![text@]) + rest);
            },
            CycleOutcome::Terminate(text) => {
                output.push(text);
                assert(output.deep_view() =~= written + seq![text@]);
                return output;
            },
        }
        i = i + 1;
    }
    proof {
        assert(lines.skip(i as int) =~= Seq::<Seq<char>>::empty());
        assert(output.deep_view() + Seq::<Seq<char>>::empty() =~= output.deep_view());
    }
    output
}

/// While no line terminates, each line read gives one line written, in the
/// same order.
pub proof fn lemma_transcript_while_reading(lines: Seq<Seq<char>>)
    requires
        forall|k: int| 0 <= k < lines.len() ==> cycle_outcome(#[trigger] lines[k]) is Continue,
    ensures
        transcript(lines).len() == lines.len(),
        forall|k: int|
            0 <= k < lines.len() ==> #[trigger] transcript(lines)[k] == cycle_text(lines[k]),
    decreases lines.len(),
{
    if lines.len() > 0 {
        let rest = lines.drop_first();
        assert forall|k: int| 0 <= k < rest.len() implies cycle_outcome(#[trigger] rest[k])
            is Continue by {
            assert(rest[k] == lines[k + 1]);
        }
        lemma_transcript_while_reading(rest);
        assert forall|k: int| 0 <= k < lines.len() implies #[trigger] transcript(lines)[k]
            == cycle_text(lines[k]) by {
            if k > 0 {
                assert(transcript(lines)[k] == transcript(rest)[k - 1]);
                assert(rest[k - 1] == lines[k]);
            }
        }
    }
}

/// Once a line has terminated the loop, nothing that follows is read or
/// written: the lines after a terminating line make no difference.
pub proof fn lemma_transcript_stops(lines: Seq<Seq<char>>, k: int)
    requires
        0 <= k < lines.len(),
        cycle_outcome(lines[k]) is Terminate,
    ensures
        transcript(lines) == transcript(lines.take(k + 1)),
        transcript(lines).len() <= k + 1,
    decreases k,
{
    let head = lines.take(k + 1);
    assert(head[0] == lines[0]);
    if cycle_outcome(lines[0]) is Continue {
        assert(lines.drop_first()[k - 1] == lines[k]);
        lemma_transcript_stops(lines.drop_first(), k - 1);
        assert(head.drop_first() =~= lines.drop_first().take(k));
    }
}

} // verus!
