//! The two output channels of the supervised process.
use vstd::prelude::*;

verus! {

/// One of the two output channels.
#[derive(Clone, Copy, Debug, PartialEq, Eq, Structural)]
pub enum Pipe {
    /// Standard output.
    StdOut,
    /// Standard error.
    StdErr,
}

impl Pipe {
    /// The word that stands for the channel in a record.
    pub open spec fn label(self) -> Seq<char> {
        match self {
            Pipe::StdOut => "stdout"@,
            Pipe::StdErr => "stderr"@,
        }
    }

    /// The word that stands for the channel in a record: `stdout` or `stderr`.
    pub fn name(self) -> (word: &'static str)
        ensures
            word@ == self.label(),
    {
        match self {
            Pipe::StdOut => "stdout",
            Pipe::StdErr => "stderr",
        }
    }
}

} // verus!
