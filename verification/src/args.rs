//! Joining command-line words into one line of text.

use vstd::prelude::*;
use vstd::string::StringExecFns;

verus! {

/// The words in order, with one space between neighbours and none at
/// either end.
pub open spec fn joined(words: Seq<Seq<char>>) -> Seq<char>
    decreases words.len(),
{
    if words.len() == 0 {
        seq![]
    } else if words.len() == 1 {
        words[0]
    } else {
        joined(words.drop_last()) + seq![' '] + words.last()
    }
}

/// Joins the words of a command line, separated by single spaces.
pub fn process_args(argv: Vec<String>) -> (line: String)
    ensures
        line@ == joined(argv.deep_view()),
{
    let ghost words = argv.deep_view();
    let mut line = String::new();
    let mut i: usize = 0;
    while i < argv.len()
        invariant
            i <= argv.len(),
            words == argv.deep_view(),
            line@ == joined(words.take(i as int)),
        decreases argv.len() - i,
    {
        if i > 0 {
            line.push(' ');
        }
        line.append(argv[i].as_str());
        proof {
            assert(words.take(i + 1).drop_last() =~= words.take(i as int));
            assert(words.take(i + 1).last() == argv[i as int]@);
        }
        i = i + 1;
    }
    proof {
        assert(words.take(i as int) =~= words);
    }
    line
}

/// A sequence of words that can be joined into one line.
pub trait ProcessArgsExt<S> {
    /// The words, in order.
    spec fn words(&self) -> Seq<Seq<char>>;

    /// Joins the words, separated by single spaces.
    fn process_args(self) -> (line: String)
        ensures
            line@ == joined(self.words()),
    ;
}

impl ProcessArgsExt<Vec<String>> for Vec<String> {
    open spec fn words(&self) -> Seq<Seq<char>> {
        self.deep_view()
    }

    fn process_args(self) -> (line: String) {
        self::process_args(self)
    }
}

} // verus!
