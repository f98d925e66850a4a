//! Programs to be run and their arguments.

use vstd::prelude::*;

verus! {

/// A program and the arguments that it is run with.
pub struct Invocation {
    pub program: String,
    pub args: Vec<String>,
}

impl View for Invocation {
    type V = (Seq<char>, Seq<Seq<char>>);

    open spec fn view(&self) -> Self::V {
        (self.program@, self.args@.map_values(|arg: String| arg@))
    }
}

impl Invocation {
    /// The invocation of `program` without arguments.
    pub fn new(program: &str) -> (invocation: Invocation)
        ensures
            invocation@ == (program@, Seq::<Seq<char>>::empty()),
            invocation.program@ == program@,
            invocation.args@.len() == 0,
    {
        let invocation = Invocation { program: program.to_owned(), args: Vec::new() };
        assert(invocation@.1 =~= Seq::<Seq<char>>::empty());
        invocation
    }

    /// The same invocation with one more argument at the end.
    pub fn arg(self, arg: &str) -> (invocation: Invocation)
        ensures
            invocation@ == (self@.0, self@.1.push(arg@)),
            invocation.program == self.program,
            invocation.args@.len() == self.args@.len() + 1,
            invocation.args@.drop_last() == self.args@,
            invocation.args@.last()@ == arg@,
    {
        let mut args = self.args;
        args.push(arg.to_owned());
        let invocation = Invocation { program: self.program, args };
        assert(invocation@.1 =~= self@.1.push(arg@));
        invocation
    }
}

/// An invocation is seen as its program and its arguments, each in its place.
pub proof fn lemma_invocation(invocation: Invocation)
    ensures
        invocation@.0 == invocation.program@,
        invocation@.1.len() == invocation.args@.len(),
        forall|i: int|
            0 <= i < invocation.args@.len() ==> #[trigger] invocation@.1[i] == invocation.args@[i]@,
{
}

} // verus!
