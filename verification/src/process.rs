//! Commands to run, as plain values: the library decides what to run,
//! the caller runs it.

use vstd::prelude::*;

verus! {

/// The characters of each string, in order.
pub open spec fn views(v: Seq<String>) -> Seq<Seq<char>> {
    v.map_values(|s: String| s@)
}

/// A program and its arguments.
pub struct ProcessCommand {
    pub program: String,
    pub args: Vec<String>,
}

/// True when `c` runs `program` with exactly `args`.
pub open spec fn runs(c: ProcessCommand, program: Seq<char>, args: Seq<Seq<char>>) -> bool {
    c.program@ == program && views(c.args@) == args
}

impl ProcessCommand {
    /// A command with no arguments yet.
    pub fn new(program: &str) -> (c: ProcessCommand)
        ensures
            runs(c, program@, Seq::empty()),
    {
        let c = ProcessCommand { program: String::from_str(program), args: Vec::new() };
        proof {
            assert(views(c.args@) =~= Seq::<Seq<char>>::empty());
        }
        c
    }

    /// Appends one argument.
    pub fn arg(&mut self, a: &str)
        ensures
            final(self).program@ == old(self).program@,
            views(final(self).args@) == views(old(self).args@).push(a@),
    {
        self.args.push(String::from_str(a));
        proof {
            assert(views(self.args@) =~= views(old(self).args@).push(a@));
        }
    }
}

} // verus!
