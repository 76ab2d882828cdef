//! The set of drivers that one container's output goes to.
use crate::cri_logger::CriLogger;
use crate::driver::LoggerView;
use crate::error::{ConfigError, LogError, LogErrorView};
use crate::json_logger::JsonLogger;
use crate::pipe::Pipe;
use crate::record::Format;
use crate::script::{result_view, Progress, ProgressView, Script, ScriptView};
use crate::text::utf8_text;
use vstd::prelude::*;
use vstd::utf8::{decode_utf8, encode_utf8_decode_utf8, valid_utf8};

verus! {

/// The type of a driver as the configuration names it.
#[derive(Clone, Copy, Debug, PartialEq, Eq, Structural)]
pub enum DriverKind {
    /// The driver that writes tagged lines of text.
    ContainerRuntimeInterface,
    /// The driver that writes JSON objects.
    Json,
    /// A type that is not known. Holds the number that stood for it.
    Unknown(u16),
}

/// One driver as the configuration describes it.
#[derive(Clone, Debug, PartialEq, Eq)]
pub struct DriverSpec {
    /// The type of the driver.
    pub kind: DriverKind,
    /// The path of the driver's log file, as the bytes of its text.
    pub path: Vec<u8>,
    /// The size limit in bytes; 0 for none.
    pub max_size: u64,
}

/// A [`DriverSpec`] with its path as a sequence of bytes.
pub struct DriverSpecView {
    pub kind: DriverKind,
    pub path: Seq<u8>,
    pub max_size: u64,
}

impl View for DriverSpec {
    type V = DriverSpecView;

    open spec fn view(&self) -> DriverSpecView {
        DriverSpecView { kind: self.kind, path: self.path@, max_size: self.max_size }
    }
}

/// The size limit that a configured size stands for: none for 0, else the
/// size as the machine holds it.
pub open spec fn limit_of(max_size: u64) -> Option<usize> {
    if max_size == 0 {
        None
    } else {
        Some(max_size as usize)
    }
}

impl DriverSpecView {
    /// Why no driver can be made from this description, if none can: its type
    /// is unknown or, with a known type, its path is no UTF-8 text or is
    /// empty.
    pub open spec fn problem(self) -> Option<ConfigError> {
        match self.kind {
            DriverKind::Unknown(number) => Some(ConfigError::UnknownType(number)),
            _ => if !valid_utf8(self.path) || decode_utf8(self.path).len() == 0 {
                Some(ConfigError::MalformedPath)
            } else {
                None
            },
        }
    }

    /// The driver that is made from this description.
    pub open spec fn driver(self) -> LoggerView {
        LoggerView::fresh(
            match self.kind {
                DriverKind::Json => Format::Json,
                _ => Format::Cri,
            },
            decode_utf8(self.path),
            limit_of(self.max_size),
        )
    }
}

/// The drivers that are made from the descriptions, in their order; or, where
/// a description has a problem, the problem of the first that has one.
pub open spec fn drivers_of(specs: Seq<DriverSpecView>) -> Result<Seq<LoggerView>, ConfigError>
    decreases specs.len(),
{
    if specs.len() == 0 {
        Ok(Seq::empty())
    } else {
        match drivers_of(specs.drop_last()) {
            Err(e) => Err(e),
            Ok(drivers) => match specs.last().problem() {
                Some(e) => Err(e),
                None => Ok(drivers.push(specs.last().driver())),
            },
        }
    }
}

/// The first failure among the results in their order, or success where
/// there is none.
pub open spec fn first_error(results: Seq<Result<(), LogErrorView>>) -> Result<(), LogErrorView>
    decreases results.len(),
{
    if results.len() == 0 {
        Ok(())
    } else {
        match first_error(results.drop_last()) {
            Err(e) => Err(e),
            Ok(()) => results.last(),
        }
    }
}

/// The views of the descriptions, in order.
pub open spec fn spec_views(specs: Seq<DriverSpec>) -> Seq<DriverSpecView> {
    specs.map_values(|spec: DriverSpec| spec@)
}

/// The views of the scripts, in order.
pub open spec fn script_views(scripts: Seq<Script>) -> Seq<ScriptView> {
    scripts.map_values(|script: Script| script@)
}

/// The views of the reports, in order.
pub open spec fn progress_views(reports: Seq<Progress>) -> Seq<ProgressView> {
    reports.map_values(|report: Progress| report@)
}

/// How many drivers have both a script and a report.
pub open spec fn paired(drivers: nat, scripts: nat, reports: nat) -> nat {
    if drivers <= scripts && drivers <= reports {
        drivers
    } else if scripts <= reports {
        scripts
    } else {
        reports
    }
}

/// What the request comes to for each driver that has a script and a report.
pub open spec fn outcomes(
    drivers: Seq<LoggerView>,
    scripts: Seq<ScriptView>,
    reports: Seq<ProgressView>,
) -> Seq<Result<(), LogErrorView>> {
    Seq::new(
        paired(drivers.len(), scripts.len(), reports.len()),
        |i: int| drivers[i].outcome(scripts[i], reports[i]),
    )
}

/// The drivers after each that has a script and a report took note of how far
/// the caller came with its script. The others are as they were.
pub open spec fn settled(
    drivers: Seq<LoggerView>,
    scripts: Seq<ScriptView>,
    reports: Seq<ProgressView>,
) -> Seq<LoggerView> {
    Seq::new(
        drivers.len(),
        |i: int|
            if i < scripts.len() && i < reports.len() {
                drivers[i].settled(scripts[i], reports[i])
            } else {
                drivers[i]
            },
    )
}

/// One driver of either kind.
#[derive(Debug)]
pub enum LogDriver {
    /// A driver that writes tagged lines of text.
    ContainerRuntimeInterface(CriLogger),
    /// A driver that writes JSON objects.
    Json(JsonLogger),
}

impl View for LogDriver {
    type V = LoggerView;

    open spec fn view(&self) -> LoggerView {
        match self {
            LogDriver::ContainerRuntimeInterface(logger) => logger@,
            LogDriver::Json(logger) => logger@,
        }
    }
}

impl LogDriver {
    /// Makes the driver that `spec` describes. No file is touched.
    pub fn new(spec: &DriverSpec) -> (made: Result<LogDriver, ConfigError>)
        ensures
            match made {
                Ok(driver) => spec@.problem() is None && driver@ == spec@.driver(),
                Err(e) => spec@.problem() == Some(e),
            },
    {
        let limit = if spec.max_size > 0 {
            Some(spec.max_size as usize)
        } else {
            None
        };
        if let DriverKind::Unknown(number) = spec.kind {
            return Err(ConfigError::UnknownType(number));
        }
        let path = match utf8_text(spec.path.as_slice()) {
            Some(path) => path,
            None => {
                return Err(ConfigError::MalformedPath);
            },
        };
        proof {
            encode_utf8_decode_utf8(path@);
        }
        match spec.kind {
            DriverKind::Json => match JsonLogger::new(path.as_str(), limit) {
                Ok(logger) => Ok(LogDriver::Json(logger)),
                Err(e) => Err(e),
            },
            _ => match CriLogger::new(path.as_str(), limit) {
                Ok(logger) => Ok(LogDriver::ContainerRuntimeInterface(logger)),
                Err(e) => Err(e),
            },
        }
    }

    /// Asks for the driver's file to be opened.
    pub fn init(&self) -> (script: Script)
        ensures
            script@ == self@.init_script(),
    {
        match self {
            LogDriver::ContainerRuntimeInterface(logger) => logger.init(),
            LogDriver::Json(logger) => logger.init(),
        }
    }

    /// Asks for the driver's file to be started over.
    pub fn reopen(&self) -> (script: Script)
        ensures
            script@ == self@.reopen_script(),
    {
        match self {
            LogDriver::ContainerRuntimeInterface(logger) => logger.reopen(),
            LogDriver::Json(logger) => logger.reopen(),
        }
    }

    /// Asks for the complete lines of `bytes`, which came on `pipe`, to be
    /// written to the driver's file.
    pub fn write(&self, pipe: Pipe, bytes: &[u8]) -> (script: Script)
        ensures
            self@.writes(pipe, bytes@, script@),
    {
        match self {
            LogDriver::ContainerRuntimeInterface(logger) => logger.write(pipe, bytes),
            LogDriver::Json(logger) => logger.write(pipe, bytes),
        }
    }

    /// Takes note of how far the caller came with `script`, and says what the
    /// request comes to.
    pub fn commit(&mut self, script: &Script, progress: &Progress) -> (result: Result<(), LogError>)
        ensures
            final(self)@ == old(self)@.settled(script@, progress@),
            result_view(result) == old(self)@.outcome(script@, progress@),
    {
        match self {
            LogDriver::ContainerRuntimeInterface(logger) => logger.commit(script, progress),
            LogDriver::Json(logger) => logger.commit(script, progress),
        }
    }
}

/// The drivers of one container, in the order of the configuration.
///
/// Every request goes to all of them. Each answers with a script of its own,
/// and the scripts are independent of each other: the caller may carry them
/// out side by side. `commit` then hears how far each came.
#[derive(Debug)]
pub struct ContainerLog {
    drivers: Vec<LogDriver>,
}

impl View for ContainerLog {
    type V = Seq<LoggerView>;

    closed spec fn view(&self) -> Seq<LoggerView> {
        self.drivers@.map_values(|driver: LogDriver| driver@)
    }
}

impl ContainerLog {
    /// A set of no drivers.
    pub fn new() -> (log: ContainerLog)
        ensures
            log@ == Seq::<LoggerView>::empty(),
    {
        let log = ContainerLog { drivers: Vec::new() };
        assert(log@ =~= Seq::<LoggerView>::empty());
        log
    }

    /// Makes the drivers that the configuration describes, in its order. No
    /// file is touched.
    ///
    /// Where a description cannot be made into a driver, no set is made at
    /// all, and the first such description says why.
    pub fn from(specs: &Vec<DriverSpec>) -> (made: Result<ContainerLog, ConfigError>)
        ensures
            match made {
                Ok(log) => drivers_of(spec_views(specs@)) == Ok::<Seq<LoggerView>, ConfigError>(log@),
                Err(e) => drivers_of(spec_views(specs@)) == Err::<Seq<LoggerView>, ConfigError>(e),
            },
    {
        let mut log = ContainerLog { drivers: Vec::new() };
        let mut at: usize = 0;
        proof {
            assert(spec_views(specs@).take(0) =~= Seq::<DriverSpecView>::empty());
            assert(log@ =~= Seq::<LoggerView>::empty());
        }
        while at < specs.len()
            invariant
                at <= specs@.len(),
                drivers_of(spec_views(specs@).take(at as int)) == Ok::<
                    Seq<LoggerView>,
                    ConfigError,
                >(log@),
            decreases specs@.len() - at,
        {
            let ghost next = spec_views(specs@).take(at + 1);
            proof {
                assert(next.drop_last() =~= spec_views(specs@).take(at as int));
                assert(next.last() == specs@[at as int]@);
            }
            match LogDriver::new(&specs[at]) {
                Ok(driver) => {
                    let ghost before = log@;
                    log.drivers.push(driver);
                    proof {
                        assert(log@ =~= before.push(driver@));
                    }
                },
                Err(e) => {
                    proof {
                        lemma_drivers_of_stays_err(spec_views(specs@), at + 1);
                    }
                    return Err(e);
                },
            }
            at = at + 1;
        }
        proof {
            assert(spec_views(specs@).take(at as int) =~= spec_views(specs@));
        }
        Ok(log)
    }

    /// How many drivers there are.
    pub fn len(&self) -> (count: usize)
        ensures
            count == self@.len(),
    {
        self.drivers.len()
    }

    /// Asks every driver for its file to be opened: one script for each
    /// driver, in their order.
    pub fn init(&self) -> (scripts: Vec<Script>)
        ensures
            scripts@.len() == self@.len(),
            forall|i: int|
                0 <= i < self@.len() ==> (#[trigger] scripts@[i])@ == self@[i].init_script(),
    {
        let mut scripts: Vec<Script> = Vec::new();
        let mut at: usize = 0;
        while at < self.drivers.len()
            invariant
                at <= self.drivers@.len(),
                scripts@.len() == at,
                forall|i: int| 0 <= i < at ==> (#[trigger] scripts@[i])@ == self@[i].init_script(),
            decreases self.drivers@.len() - at,
        {
            let script = self.drivers[at].init();
            scripts.push(script);
            at = at + 1;
        }
        scripts
    }

    /// Asks every driver for its file to be started over: one script for each
    /// driver, in their order.
    pub fn reopen(&self) -> (scripts: Vec<Script>)
        ensures
            scripts@.len() == self@.len(),
            forall|i: int|
                0 <= i < self@.len() ==> (#[trigger] scripts@[i])@ == self@[i].reopen_script(),
    {
        let mut scripts: Vec<Script> = Vec::new();
        let mut at: usize = 0;
        while at < self.drivers.len()
            invariant
                at <= self.drivers@.len(),
                scripts@.len() == at,
                forall|i: int|
                    0 <= i < at ==> (#[trigger] scripts@[i])@ == self@[i].reopen_script(),
            decreases self.drivers@.len() - at,
        {
            let script = self.drivers[at].reopen();
            scripts.push(script);
            at = at + 1;
        }
        scripts
    }

    /// Asks every driver to write the complete lines of `bytes`, which came
    /// on `pipe`: one script for each driver, in their order.
    ///
    /// Every driver is given all of `bytes`, and makes its records from all
    /// of their complete lines, whatever the other drivers do.
    pub fn write(&self, pipe: Pipe, bytes: &[u8]) -> (scripts: Vec<Script>)
        ensures
            scripts@.len() == self@.len(),
            forall|i: int|
                0 <= i < self@.len() ==> self@[i].writes(pipe, bytes@, (#[trigger] scripts@[i])@),
    {
        let mut scripts: Vec<Script> = Vec::new();
        let mut at: usize = 0;
        while at < self.drivers.len()
            invariant
                at <= self.drivers@.len(),
                scripts@.len() == at,
                forall|i: int|
                    0 <= i < at ==> self@[i].writes(pipe, bytes@, (#[trigger] scripts@[i])@),
            decreases self.drivers@.len() - at,
        {
            let script = self.drivers[at].write(pipe, bytes);
            scripts.push(script);
            at = at + 1;
        }
        scripts
    }

    /// Hears how far the caller came with each driver's script, and says what
    /// the request comes to.
    ///
    /// `scripts` and `reports` go by the drivers' order. Each driver takes
    /// the steps of its script that were reached, whatever became of the
    /// other drivers: nothing is undone. The request fails if it fails for
    /// one driver, and then with the failure of the first such driver. A
    /// driver without a script or without a report is left as it is.
    pub fn commit(&mut self, scripts: &Vec<Script>, reports: &Vec<Progress>) -> (result: Result<
        (),
        LogError,
    >)
        ensures
            final(self)@ == settled(old(self)@, script_views(scripts@), progress_views(reports@)),
            result_view(result) == first_error(
                outcomes(old(self)@, script_views(scripts@), progress_views(reports@)),
            ),
    {
        let mut count = self.drivers.len();
        if scripts.len() < count {
            count = scripts.len();
        }
        if reports.len() < count {
            count = reports.len();
        }
        let ghost all = outcomes(old(self)@, script_views(scripts@), progress_views(reports@));
        let mut first: Result<(), LogError> = Ok(());
        let mut at: usize = 0;
        proof {
            assert(all.take(0) =~= Seq::<Result<(), LogErrorView>>::empty());
        }
        while at < count
            invariant
                at <= count,
                count == paired(old(self)@.len(), scripts@.len(), reports@.len()),
                all == outcomes(old(self)@, script_views(scripts@), progress_views(reports@)),
                self@.len() == old(self)@.len(),
                forall|i: int|
                    0 <= i < at ==> (#[trigger] self@[i]) == old(self)@[i].settled(
                        scripts@[i]@,
                        reports@[i]@,
                    ),
                forall|i: int| at <= i < self@.len() ==> (#[trigger] self@[i]) == old(self)@[i],
                result_view(first) == first_error(all.take(at as int)),
            decreases count - at,
        {
            let ghost before = self@;
            proof {
                assert(before[at as int] == old(self)@[at as int]);
                assert(before[at as int] == self.drivers@[at as int]@);
                assert(script_views(scripts@)[at as int] == scripts@[at as int]@);
                assert(progress_views(reports@)[at as int] == reports@[at as int]@);
            }
            let result = self.drivers[at].commit(&scripts[at], &reports[at]);
            proof {
                assert(self@ =~= before.update(at as int, self.drivers@[at as int]@));
                assert(all[at as int] == old(self)@[at as int].outcome(
                    script_views(scripts@)[at as int],
                    progress_views(reports@)[at as int],
                ));
                let next = all.take(at + 1);
                assert(next.drop_last() =~= all.take(at as int));
                assert(next.last() == result_view(result));
            }
            if first.is_ok() {
                first = result;
            }
            at = at + 1;
        }
        proof {
            assert(all.take(at as int) =~= all);
            assert(self@ =~= settled(old(self)@, script_views(scripts@), progress_views(reports@)));
        }
        first
    }
}

impl Default for ContainerLog {
    fn default() -> (log: ContainerLog)
        ensures
            log@ == Seq::<LoggerView>::empty(),
    {
        ContainerLog::new()
    }
}

/// Once the descriptions up to some place cannot be made into drivers,
/// neither can all of them, and for the same reason.
pub proof fn lemma_drivers_of_stays_err(specs: Seq<DriverSpecView>, upto: int)
    requires
        0 <= upto <= specs.len(),
        drivers_of(specs.take(upto)) is Err,
    ensures
        drivers_of(specs) == drivers_of(specs.take(upto)),
    decreases specs.len() - upto,
{
    if upto == specs.len() {
        assert(specs.take(upto) =~= specs);
    } else {
        assert(specs.take(upto + 1).drop_last() =~= specs.take(upto));
        lemma_drivers_of_stays_err(specs, upto + 1);
    }
}

} // verus!
