//! Commands for the host to run. The library only words them.

use vstd::prelude::*;

verus! {

/// A program and the arguments to run it with.
#[derive(Debug, Clone)]
pub struct Invocation {
    pub program: String,
    pub args: Vec<String>,
}

/// An `Invocation`, as contracts see it.
pub struct CommandLine {
    pub program: Seq<char>,
    pub args: Seq<Seq<char>>,
}

/// The texts of a sequence of strings.
pub open spec fn words(strings: Seq<String>) -> Seq<Seq<char>> {
    Seq::new(strings.len(), |i: int| strings[i]@)
}

impl View for Invocation {
    type V = CommandLine;

    open spec fn view(&self) -> CommandLine {
        CommandLine { program: self.program@, args: words(self.args@) }
    }
}

/// Adds one argument.
pub(crate) fn push_word(args: &mut Vec<String>, word: &str)
    ensures
        words(final(args)@) == words(old(args)@).push(word@),
{
    args.push(word.to_owned());
    assert(words(args@) =~= words(old(args)@).push(word@));
}

/// Adds several arguments.
pub(crate) fn push_words(args: &mut Vec<String>, more: &[&str])
    ensures
        words(final(args)@) == words(old(args)@) + Seq::new(more@.len(), |i: int| more@[i]@),
{
    let mut i: usize = 0;
    assert(words(args@) =~= words(old(args)@) + Seq::new(0, |i: int| more@[i]@));
    while i < more.len()
        invariant
            i <= more@.len(),
            words(args@) == words(old(args)@) + Seq::new(i as nat, |k: int| more@[k]@),
        decreases more@.len() - i,
    {
        let ghost before = words(args@);
        push_word(args, more[i]);
        assert(before.push(more@[i as int]@) =~= words(old(args)@) + Seq::new(
            (i + 1) as nat,
            |k: int| more@[k]@,
        ));
        i += 1;
    }
}

} // verus!
