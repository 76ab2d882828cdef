//! What all drivers have in common: how a driver answers each request with a
//! script, and what it is after the caller came some way with one.
use crate::error::LogErrorView;
use crate::pipe::Pipe;
use crate::record::Format;
use crate::script::{FileState, ProgressView, ScriptView};
use vstd::prelude::*;

verus! {

/// A driver as the contracts see it.
pub struct LoggerView {
    /// The form of the driver's records.
    pub format: Format,
    /// The path of the driver's log file.
    pub path: Seq<char>,
    /// What the driver knows of its file.
    pub state: FileState,
}

impl LoggerView {
    /// A driver that was just made: it holds no file and has counted nothing.
    pub open spec fn fresh(format: Format, path: Seq<char>, limit: Option<usize>) -> LoggerView {
        LoggerView { format, path, state: FileState { open: false, limit, written: 0 } }
    }

    /// The answer to a request to initialize: open the file. It cannot fail
    /// for want of a file.
    pub open spec fn init_script(self) -> ScriptView {
        ScriptView { path: self.path, steps: FileState::init_steps(), uninitialized: false }
    }

    /// The answer to a request to start the file over. Without an open file
    /// nothing is to be done and the request fails.
    pub open spec fn reopen_script(self) -> ScriptView {
        ScriptView {
            path: self.path,
            steps: self.state.reopen_steps(),
            uninitialized: !self.state.open,
        }
    }

    /// The answer to a request to flush. Without an open file nothing is to
    /// be done and the request fails.
    pub open spec fn flush_script(self) -> ScriptView {
        ScriptView {
            path: self.path,
            steps: self.state.flush_steps(),
            uninitialized: !self.state.open,
        }
    }

    /// `script` is an answer to a request to write `bytes` that came on
    /// `pipe`: it holds the steps for the records of the complete lines of
    /// `bytes`, and fails for want of a file where the driver holds none.
    pub open spec fn writes(self, pipe: Pipe, bytes: Seq<u8>, script: ScriptView) -> bool {
        &&& script.path == self.path
        &&& script.uninitialized == !self.state.open
        &&& self.format.writes(self.state, pipe, bytes, script.steps)
    }

    /// The driver after the caller came as far with `script` as `progress`
    /// says: it has taken the steps that were reached, and no others.
    pub open spec fn settled(self, script: ScriptView, progress: ProgressView) -> LoggerView {
        LoggerView {
            state: self.state.run(script.steps.take(progress.reached(script.steps.len()) as int)),
            ..self
        }
    }

    /// What the request that `script` answers comes to.
    pub open spec fn outcome(self, script: ScriptView, progress: ProgressView) -> Result<
        (),
        LogErrorView,
    > {
        progress.outcome(self.path, script.uninitialized)
    }
}

} // verus!
