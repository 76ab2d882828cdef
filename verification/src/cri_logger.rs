//! The driver that writes one tagged line of text per line of output.
use crate::driver::LoggerView;
use crate::error::{ConfigError, LogError};
use crate::pipe::Pipe;
use crate::record::Format;
use crate::script::{outcome, result_view, FileState, Progress, Script};
use vstd::prelude::*;
use vstd::string::StringExecFns;

verus! {

/// A driver that writes each line of output as one line of text: the time, the
/// channel, the tag `F` for a full line, and what the line holds.
#[derive(Debug)]
pub struct CriLogger {
    path: String,
    state: FileState,
}

impl View for CriLogger {
    type V = LoggerView;

    closed spec fn view(&self) -> LoggerView {
        LoggerView { format: Format::Cri, path: self.path@, state: self.state }
    }
}

impl CriLogger {
    /// Makes a driver for the file at `path`. No file is touched.
    ///
    /// With `max_log_size` the file is started over whenever the bytes
    /// counted since it was last started exceed that size; without it, never.
    /// An empty path is refused.
    pub fn new(path: &str, max_log_size: Option<usize>) -> (made: Result<CriLogger, ConfigError>)
        ensures
            match made {
                Ok(logger) => path@.len() > 0 && logger@ == LoggerView::fresh(
                    Format::Cri,
                    path@,
                    max_log_size,
                ),
                Err(e) => path@.len() == 0 && e == ConfigError::MalformedPath,
            },
    {
        if path.is_empty() {
            Err(ConfigError::MalformedPath)
        } else {
            Ok(CriLogger { path: String::from_str(path), state: FileState::new(max_log_size) })
        }
    }

    /// Asks for the file to be opened: created if it is absent, emptied if it
    /// is not. An open file that the driver holds is given up for it.
    pub fn init(&self) -> (script: Script)
        ensures
            script@ == self@.init_script(),
    {
        Script::init(&self.path)
    }

    /// Asks for the complete lines of `bytes`, which came on `pipe`, to be
    /// written, each as one record with a newline behind it.
    ///
    /// A record is counted before it is written. Where the count then
    /// exceeds the size limit, the file is started over first, so that the
    /// record is the first of the new file; its own size is not counted
    /// against the new file. Bytes behind the last newline are not taken.
    /// Without an open file the request fails and no file operation is asked
    /// for; the first record is counted all the same.
    pub fn write(&self, pipe: Pipe, bytes: &[u8]) -> (script: Script)
        ensures
            self@.writes(pipe, bytes@, script@),
    {
        let steps = Format::Cri.plan(&self.state, pipe, bytes);
        Script { path: self.path.clone(), steps, uninitialized: !self.state.open }
    }

    /// Asks for the file to be started over: what it holds is made durable,
    /// then it is opened as by `init`, and the count of bytes starts again.
    /// Without an open file the request fails and no file operation is asked
    /// for.
    pub fn reopen(&self) -> (script: Script)
        ensures
            script@ == self@.reopen_script(),
    {
        Script::reopen(&self.path, &self.state)
    }

    /// Asks for buffered bytes to be pushed to the file. Without an open file
    /// the request fails and no file operation is asked for.
    pub fn flush(&self) -> (script: Script)
        ensures
            script@ == self@.flush_script(),
    {
        Script::flush(&self.path, &self.state)
    }

    /// Takes note of how far the caller came with `script`, and says what the
    /// request comes to.
    ///
    /// The driver takes the steps that were reached and no others. The
    /// request fails with the failure of the file operation where one failed,
    /// else for want of an open file where the script says so.
    pub fn commit(&mut self, script: &Script, progress: &Progress) -> (result: Result<(), LogError>)
        ensures
            final(self)@ == old(self)@.settled(script@, progress@),
            result_view(result) == old(self)@.outcome(script@, progress@),
    {
        self.state.settle(script, progress);
        outcome(&self.path, script.uninitialized, progress)
    }

    /// The path of the log file.
    pub fn path(&self) -> (path: &str)
        ensures
            path@ == self@.path,
    {
        self.path.as_str()
    }

    /// The size limit, if there is one.
    pub fn max_log_size(&self) -> (limit: Option<usize>)
        ensures
            limit == self@.state.limit,
    {
        self.state.limit
    }

    /// The bytes counted since the file was last started over.
    pub fn bytes_written(&self) -> (written: usize)
        ensures
            written == self@.state.written,
    {
        self.state.written
    }

    /// Whether the driver holds an open file.
    pub fn is_open(&self) -> (open: bool)
        ensures
            open == self@.state.open,
    {
        self.state.open
    }
}

} // verus!
