//! Scripts: what a driver asks to be done to its file, and what it keeps
//! count of meanwhile.
//!
//! A driver never touches its file. It answers a request with a [`Script`]:
//! a list of [`Step`]s to go through in order. Some steps are file operations
//! for the caller to perform; the others are the driver's own bookkeeping,
//! written down at the place where it happens between the operations. The
//! caller stops at the first operation that fails and reports how far it came
//! as a [`Progress`]. Going through the steps that were reached,
//! [`FileState::advance`] brings the driver's state to exactly that point.
use crate::error::{IoKind, LogError, LogErrorView};
use crate::lines::NEWLINE;
use vstd::prelude::*;

verus! {

/// One step of a script.
#[derive(Clone, Debug, PartialEq, Eq)]
pub enum Step {
    /// Bookkeeping: a record of this many bytes is added to the running total.
    Account(usize),
    /// File operation: make what was written to the file durable.
    Sync,
    /// File operation: open the file at the driver's path for reading and
    /// writing, create it if it is absent, empty it if it is not, and let it
    /// take the place of the file held so far.
    Open,
    /// Bookkeeping: the running total starts again at zero.
    Reset,
    /// File operation: write these bytes at the end of the file.
    Append(Vec<u8>),
    /// File operation: push buffered bytes to the file.
    Flush,
}

/// A [`Step`] with its bytes as a sequence.
pub enum StepView {
    /// See [`Step::Account`].
    Account(nat),
    /// See [`Step::Sync`].
    Sync,
    /// See [`Step::Open`].
    Open,
    /// See [`Step::Reset`].
    Reset,
    /// See [`Step::Append`].
    Append(Seq<u8>),
    /// See [`Step::Flush`].
    Flush,
}

impl View for Step {
    type V = StepView;

    open spec fn view(&self) -> StepView {
        match self {
            Step::Account(size) => StepView::Account(*size as nat),
            Step::Sync => StepView::Sync,
            Step::Open => StepView::Open,
            Step::Reset => StepView::Reset,
            Step::Append(bytes) => StepView::Append(bytes@),
            Step::Flush => StepView::Flush,
        }
    }
}

impl StepView {
    /// The step is a file operation, not bookkeeping.
    pub open spec fn touches_file(self) -> bool {
        !(self is Account) && !(self is Reset)
    }
}

/// The byte strings that the steps write to the file, in order.
pub open spec fn appended(steps: Seq<StepView>) -> Seq<Seq<u8>>
    decreases steps.len(),
{
    if steps.len() == 0 {
        Seq::empty()
    } else {
        match steps.last() {
            StepView::Append(bytes) => appended(steps.drop_last()).push(bytes),
            _ => appended(steps.drop_last()),
        }
    }
}

/// How often the steps open the file, and so empty it.
pub open spec fn openings(steps: Seq<StepView>) -> nat
    decreases steps.len(),
{
    if steps.len() == 0 {
        0
    } else if steps.last() is Open {
        openings(steps.drop_last()) + 1
    } else {
        openings(steps.drop_last())
    }
}

/// What a file that held `before` holds after the steps, every file
/// operation among them having succeeded.
pub open spec fn contents(before: Seq<u8>, steps: Seq<StepView>) -> Seq<u8>
    decreases steps.len(),
{
    if steps.len() == 0 {
        before
    } else {
        match steps.last() {
            StepView::Open => Seq::empty(),
            StepView::Append(bytes) => contents(before, steps.drop_last()) + bytes,
            _ => contents(before, steps.drop_last()),
        }
    }
}

/// The views of the steps, in order.
pub open spec fn views(steps: Seq<Step>) -> Seq<StepView> {
    steps.map_values(|step: Step| step@)
}

/// The answer of a driver to one request.
#[derive(Clone, Debug, PartialEq, Eq)]
pub struct Script {
    /// The path of the file that the operations are meant for.
    pub path: String,
    /// What is to be done, in order.
    pub steps: Vec<Step>,
    /// The request fails for want of an open file once the steps are through.
    pub uninitialized: bool,
}

/// A [`Script`] with its path and steps as sequences.
pub struct ScriptView {
    pub path: Seq<char>,
    pub steps: Seq<StepView>,
    pub uninitialized: bool,
}

impl View for Script {
    type V = ScriptView;

    open spec fn view(&self) -> ScriptView {
        ScriptView { path: self.path@, steps: views(self.steps@), uninitialized: self.uninitialized }
    }
}

impl Script {
    /// The answer to a request to initialize, for a driver whose file is at
    /// `path`: open the file.
    pub fn init(path: &String) -> (script: Script)
        ensures
            script@ == (ScriptView {
                path: path@,
                steps: FileState::init_steps(),
                uninitialized: false,
            }),
    {
        let mut steps: Vec<Step> = Vec::new();
        steps.push(Step::Open);
        proof {
            assert(views(steps@) =~= FileState::init_steps());
        }
        Script { path: path.clone(), steps, uninitialized: false }
    }

    /// The answer to a request to start the file over, for a driver in
    /// `state` whose file is at `path`.
    pub fn reopen(path: &String, state: &FileState) -> (script: Script)
        ensures
            script@ == (ScriptView {
                path: path@,
                steps: state.reopen_steps(),
                uninitialized: !state.open,
            }),
    {
        let mut steps: Vec<Step> = Vec::new();
        if state.open {
            steps.push(Step::Sync);
            steps.push(Step::Open);
            steps.push(Step::Reset);
        }
        proof {
            assert(views(steps@) =~= state.reopen_steps());
        }
        Script { path: path.clone(), steps, uninitialized: !state.open }
    }

    /// The answer to a request to flush, for a driver in `state` whose file
    /// is at `path`.
    pub fn flush(path: &String, state: &FileState) -> (script: Script)
        ensures
            script@ == (ScriptView {
                path: path@,
                steps: state.flush_steps(),
                uninitialized: !state.open,
            }),
    {
        let mut steps: Vec<Step> = Vec::new();
        if state.open {
            steps.push(Step::Flush);
        }
        proof {
            assert(views(steps@) =~= state.flush_steps());
        }
        Script { path: path.clone(), steps, uninitialized: !state.open }
    }
}

/// How far the caller came with a script.
#[derive(Clone, Debug, PartialEq, Eq)]
pub enum Progress {
    /// Every step was gone through, every file operation succeeded.
    Completed,
    /// A file operation failed, and nothing was done after it.
    Failed {
        /// How many steps of the script lie before the one that failed.
        done: usize,
        /// The kind of operation that failed.
        kind: IoKind,
        /// What the operating system said.
        cause: String,
    },
}

/// A [`Progress`] with its text as a sequence of characters.
pub enum ProgressView {
    /// See [`Progress::Completed`].
    Completed,
    /// See [`Progress::Failed`].
    Failed { done: nat, kind: IoKind, cause: Seq<char> },
}

impl View for Progress {
    type V = ProgressView;

    open spec fn view(&self) -> ProgressView {
        match self {
            Progress::Completed => ProgressView::Completed,
            Progress::Failed { done, kind, cause } => ProgressView::Failed {
                done: *done as nat,
                kind: *kind,
                cause: cause@,
            },
        }
    }
}

impl ProgressView {
    /// How many of `len` steps were gone through.
    pub open spec fn reached(self, len: nat) -> nat {
        match self {
            ProgressView::Completed => len,
            ProgressView::Failed { done, .. } => if done < len {
                done
            } else {
                len
            },
        }
    }

    /// What the request comes to, for a driver whose file is at `path`: the
    /// failure of the file operation where one failed, else the want of an
    /// open file where the script says so, else success.
    pub open spec fn outcome(self, path: Seq<char>, uninitialized: bool) -> Result<
        (),
        LogErrorView,
    > {
        match self {
            ProgressView::Failed { kind, cause, .. } => Err(LogErrorView::Io { path, kind, cause }),
            ProgressView::Completed => if uninitialized {
                Err(LogErrorView::Uninitialized)
            } else {
                Ok(())
            },
        }
    }
}

/// The view of a result whose error is a [`LogError`].
pub open spec fn result_view(result: Result<(), LogError>) -> Result<(), LogErrorView> {
    match result {
        Ok(()) => Ok(()),
        Err(e) => Err(e@),
    }
}

/// What a driver knows of its file.
#[derive(Clone, Copy, Debug, PartialEq, Eq)]
pub struct FileState {
    /// A file is held open.
    pub open: bool,
    /// The size that the running total may reach before the file is started
    /// over; `None` where it is never started over for its size.
    pub limit: Option<usize>,
    /// The running total: the bytes of the records accounted for since the
    /// file was last started over.
    pub written: usize,
}

impl FileState {
    /// The running total with `size` more bytes. It stops at the largest
    /// number that the machine can hold.
    pub open spec fn counted(self, size: nat) -> usize {
        if self.written + size > usize::MAX {
            usize::MAX
        } else {
            (self.written + size) as usize
        }
    }

    /// With `size` more bytes the bytes accounted for are more than the
    /// limit allows, whether or not the machine can hold their number.
    pub open spec fn exceeds(self, size: nat) -> bool {
        self.limit matches Some(max) && self.written + size > max
    }

    /// The state after one step.
    pub open spec fn after(self, step: StepView) -> FileState {
        match step {
            StepView::Account(size) => FileState { written: self.counted(size), ..self },
            StepView::Open => FileState { open: true, ..self },
            StepView::Reset => FileState { written: 0, ..self },
            _ => self,
        }
    }

    /// The state after the steps, gone through in order.
    pub open spec fn run(self, steps: Seq<StepView>) -> FileState
        decreases steps.len(),
    {
        if steps.len() == 0 {
            self
        } else {
            self.run(steps.drop_last()).after(steps.last())
        }
    }

    /// The steps for one record. Its size is accounted for first. If the
    /// total is then over the limit, the file is made durable and started
    /// over, and the total with it. Last the record is written with a
    /// newline behind it.
    pub open spec fn record_steps(self, record: Seq<u8>) -> Seq<StepView> {
        if self.exceeds(record.len()) {
            seq![
                StepView::Account(record.len()),
                StepView::Sync,
                StepView::Open,
                StepView::Reset,
                StepView::Append(record.push(NEWLINE)),
            ]
        } else {
            seq![StepView::Account(record.len()), StepView::Append(record.push(NEWLINE))]
        }
    }

    /// The state after the steps for one record of `size` bytes: where the
    /// file was started over for the record, a file is open and nothing is
    /// counted; else the record is counted.
    pub open spec fn after_record(self, size: nat) -> FileState {
        if self.exceeds(size) {
            FileState { open: true, written: 0, ..self }
        } else {
            FileState { written: self.counted(size), ..self }
        }
    }

    /// The steps for some records in order: those for all but the last, then
    /// those for the last as the state stands by then.
    pub open spec fn records_steps(self, records: Seq<Seq<u8>>) -> Seq<StepView>
        decreases records.len(),
    {
        if records.len() == 0 {
            Seq::empty()
        } else {
            let before = self.records_steps(records.drop_last());
            before + self.run(before).record_steps(records.last())
        }
    }

    /// The steps that writing `records` comes to. Without an open file no
    /// file operation is asked for; the first record is still accounted for.
    pub open spec fn write_steps(self, records: Seq<Seq<u8>>) -> Seq<StepView> {
        if self.open {
            self.records_steps(records)
        } else if records.len() > 0 {
            seq![StepView::Account(records[0].len())]
        } else {
            Seq::empty()
        }
    }

    /// The steps that opening the file comes to.
    pub open spec fn init_steps() -> Seq<StepView> {
        seq![StepView::Open]
    }

    /// The steps that starting the file over comes to: what it holds is made
    /// durable, it is opened anew, and the running total starts again.
    pub open spec fn reopen_steps(self) -> Seq<StepView> {
        if self.open {
            seq![StepView::Sync, StepView::Open, StepView::Reset]
        } else {
            Seq::empty()
        }
    }

    /// The steps that flushing comes to.
    pub open spec fn flush_steps(self) -> Seq<StepView> {
        if self.open {
            seq![StepView::Flush]
        } else {
            Seq::empty()
        }
    }

    /// The state of a driver that was just made: no file, nothing counted.
    pub fn new(limit: Option<usize>) -> (state: FileState)
        ensures
            state == (FileState { open: false, limit, written: 0 }),
    {
        FileState { open: false, limit, written: 0 }
    }

    /// Takes one step.
    pub fn apply(&mut self, step: &Step)
        ensures
            *final(self) == old(self).after(step@),
    {
        match step {
            Step::Account(size) => {
                self.written = self.written.saturating_add(*size);
            },
            Step::Open => {
                self.open = true;
            },
            Step::Reset => {
                self.written = 0;
            },
            _ => {},
        }
    }

    /// Takes the first `count` steps, or all of them where there are fewer.
    pub fn advance(&mut self, steps: &Vec<Step>, count: usize)
        ensures
            *final(self) == old(self).run(
                views(steps@).take(
                    if count < steps@.len() {
                        count as int
                    } else {
                        steps@.len() as int
                    },
                ),
            ),
    {
        let stop = if count < steps.len() {
            count
        } else {
            steps.len()
        };
        let mut at: usize = 0;
        assert(views(steps@).take(0) =~= Seq::<StepView>::empty());
        while at < stop
            invariant
                at <= stop <= steps@.len(),
                *self == old(self).run(views(steps@).take(at as int)),
            decreases stop - at,
        {
            self.apply(&steps[at]);
            proof {
                let next = views(steps@).take(at + 1);
                assert(next.drop_last() =~= views(steps@).take(at as int));
                assert(next.last() == steps@[at as int]@);
            }
            at = at + 1;
        }
    }

    /// Takes the steps of `script` that the caller reached.
    pub fn settle(&mut self, script: &Script, progress: &Progress)
        ensures
            *final(self) == old(self).run(
                script@.steps.take(progress@.reached(script@.steps.len()) as int),
            ),
    {
        let count = match progress {
            Progress::Completed => script.steps.len(),
            Progress::Failed { done, kind: _, cause: _ } => *done,
        };
        self.advance(&script.steps, count);
    }

    /// Adds the steps for one record to `steps`, and takes them.
    pub fn plan_record(&mut self, record: Vec<u8>, steps: &mut Vec<Step>)
        ensures
            views(final(steps)@) == views(old(steps)@) + old(self).record_steps(record@),
            *final(self) == old(self).run(old(self).record_steps(record@)),
            *final(self) == old(self).after_record(record@.len()),
    {
        let ghost before = *self;
        let ghost plan = before.record_steps(record@);
        let size = record.len();
        let mut line = record;
        line.push(NEWLINE);
        steps.push(Step::Account(size));
        let over = match self.limit {
            Some(max) => match self.written.checked_add(size) {
                Some(total) => total > max,
                None => true,
            },
            None => false,
        };
        self.written = self.written.saturating_add(size);
        if over {
            steps.push(Step::Sync);
            steps.push(Step::Open);
            steps.push(Step::Reset);
            self.open = true;
            self.written = 0;
        }
        steps.push(Step::Append(line));
        proof {
            assert(views(steps@) =~= views(old(steps)@) + plan);
            lemma_run_few(before, plan);
        }
    }
}

/// States what `run` comes to on the short lists that one record gives.
proof fn lemma_run_few(state: FileState, steps: Seq<StepView>)
    ensures
        steps.len() == 2 ==> state.run(steps) == state.after(steps[0]).after(steps[1]),
        steps.len() == 5 ==> state.run(steps) == state.after(steps[0]).after(steps[1]).after(
            steps[2],
        ).after(steps[3]).after(steps[4]),
{
    reveal_with_fuel(FileState::run, 6);
    if steps.len() == 2 {
        assert(steps.drop_last().drop_last().len() == 0);
    }
    if steps.len() == 5 {
        let s4 = steps.drop_last();
        let s3 = s4.drop_last();
        let s2 = s3.drop_last();
        let s1 = s2.drop_last();
        assert(s1.drop_last().len() == 0);
    }
}

/// Going through two lists one behind the other is going through the first
/// and then, from where that ends, through the second.
pub proof fn lemma_run_concat(state: FileState, first: Seq<StepView>, second: Seq<StepView>)
    ensures
        state.run(first + second) == state.run(first).run(second),
    decreases second.len(),
{
    if second.len() == 0 {
        assert(first + second =~= first);
    } else {
        assert((first + second).drop_last() =~= first + second.drop_last());
        lemma_run_concat(state, first, second.drop_last());
    }
}

/// What a request comes to once the caller has said how far it came.
pub fn outcome(path: &String, uninitialized: bool, progress: &Progress) -> (result: Result<
    (),
    LogError,
>)
    ensures
        result_view(result) == progress@.outcome(path@, uninitialized),
{
    match progress {
        Progress::Failed { done: _, kind, cause } => Err(
            LogError::Io { path: path.clone(), kind: *kind, cause: cause.clone() },
        ),
        Progress::Completed => if uninitialized {
            Err(LogError::Uninitialized)
        } else {
            Ok(())
        },
    }
}

} // verus!
