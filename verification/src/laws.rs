//! What holds of the drivers whatever they are asked.
use crate::container_log::{drivers_of, first_error, outcomes, settled, DriverSpecView};
use crate::driver::LoggerView;
use crate::error::LogErrorView;
use crate::lines::{
    complete_len, is_line, joined, lemma_complete_prefix, lemma_lines_are_lines,
    lemma_lines_of_concat, lemma_lines_of_joined, lines_of, NEWLINE,
};
use crate::pipe::Pipe;
use crate::record::Format;
use crate::script::{
    appended, contents, lemma_run_concat, openings, FileState, ProgressView, ScriptView, StepView,
};
use crate::text::{json_object, trimmed, utf8_lossy};
use vstd::prelude::*;
use vstd::utf8::encode_utf8;

verus! {

/// The records, each with a newline behind it.
pub open spec fn with_newlines(records: Seq<Seq<u8>>) -> Seq<Seq<u8>> {
    Seq::new(records.len(), |i: int| records[i].push(NEWLINE))
}

/// The bytes of all the records together.
pub open spec fn total_len(records: Seq<Seq<u8>>) -> nat
    decreases records.len(),
{
    if records.len() == 0 {
        0
    } else {
        total_len(records.drop_last()) + records.last().len()
    }
}

/// The steps for records that are written without the file being started
/// over: each is accounted for and written.
pub open spec fn plain_steps(records: Seq<Seq<u8>>) -> Seq<StepView>
    decreases records.len(),
{
    if records.len() == 0 {
        Seq::empty()
    } else {
        plain_steps(records.drop_last()) + seq![
            StepView::Account(records.last().len()),
            StepView::Append(records.last().push(NEWLINE)),
        ]
    }
}

/// The steps for a record that is written after the file was started over
/// for it.
pub open spec fn rotating_steps(record: Seq<u8>) -> Seq<StepView> {
    seq![
        StepView::Account(record.len()),
        StepView::Sync,
        StepView::Open,
        StepView::Reset,
        StepView::Append(record.push(NEWLINE)),
    ]
}

/// `bytes` is the record of `line` in the given form, made at some time, with
/// a newline behind it.
pub open spec fn is_record(format: Format, pipe: Pipe, line: Seq<u8>, bytes: Seq<u8>) -> bool {
    exists|stamp: Seq<char>| bytes == (#[trigger] format.record(pipe, line, stamp)).push(NEWLINE)
}

/// What two lists of steps write, one behind the other.
pub proof fn lemma_appended_concat(first: Seq<StepView>, second: Seq<StepView>)
    ensures
        appended(first + second) == appended(first) + appended(second),
    decreases second.len(),
{
    if second.len() == 0 {
        assert(first + second =~= first);
        assert(appended(first) + appended(second) =~= appended(first));
    } else {
        assert((first + second).drop_last() =~= first + second.drop_last());
        lemma_appended_concat(first, second.drop_last());
        assert(appended(first + second) =~= appended(first) + appended(second));
    }
}

/// How often two lists of steps open the file, one behind the other.
pub proof fn lemma_openings_concat(first: Seq<StepView>, second: Seq<StepView>)
    ensures
        openings(first + second) == openings(first) + openings(second),
    decreases second.len(),
{
    if second.len() == 0 {
        assert(first + second =~= first);
    } else {
        assert((first + second).drop_last() =~= first + second.drop_last());
        lemma_openings_concat(first, second.drop_last());
    }
}

/// What the file holds after two lists of steps, one behind the other.
pub proof fn lemma_contents_concat(before: Seq<u8>, first: Seq<StepView>, second: Seq<StepView>)
    ensures
        contents(before, first + second) == contents(contents(before, first), second),
    decreases second.len(),
{
    if second.len() == 0 {
        assert(first + second =~= first);
    } else {
        assert((first + second).drop_last() =~= first + second.drop_last());
        lemma_contents_concat(before, first, second.drop_last());
    }
}

/// What the steps for one record write, how often they open the file, what
/// the file holds after them, and what the driver has counted by then.
pub proof fn lemma_record_steps(state: FileState, record: Seq<u8>, before: Seq<u8>)
    ensures
        state.record_steps(record) == if state.exceeds(record.len()) {
            rotating_steps(record)
        } else {
            plain_steps(seq![record])
        },
        appended(state.record_steps(record)) == seq![record.push(NEWLINE)],
        openings(state.record_steps(record)) == if state.exceeds(record.len()) {
            1nat
        } else {
            0nat
        },
        contents(before, state.record_steps(record)) == if state.exceeds(record.len()) {
            record.push(NEWLINE)
        } else {
            before + record.push(NEWLINE)
        },
        state.run(state.record_steps(record)) == state.after_record(record.len()),
{
    let steps = state.record_steps(record);
    let line = record.push(NEWLINE);
    assert(seq![record].drop_last() =~= Seq::<Seq<u8>>::empty());
    assert(plain_steps(seq![record].drop_last()) =~= Seq::<StepView>::empty());
    assert(plain_steps(seq![record]) =~= seq![
        StepView::Account(record.len()),
        StepView::Append(line),
    ]);
    if state.exceeds(record.len()) {
        let s4 = steps.drop_last();
        let s3 = s4.drop_last();
        let s2 = s3.drop_last();
        let s1 = s2.drop_last();
        let s0 = s1.drop_last();
        assert(s0.len() == 0);
        assert(appended(s0) =~= Seq::<Seq<u8>>::empty());
        assert(openings(s0) == 0);
        assert(contents(before, s0) == before);
        assert(state.run(s0) == state);
        assert(appended(s1) =~= Seq::<Seq<u8>>::empty());
        assert(appended(s2) == appended(s1));
        assert(appended(s3) == appended(s2));
        assert(appended(s4) == appended(s3));
        assert(appended(steps) =~= seq![line]);
        assert(openings(s1) == 0);
        assert(openings(s2) == 0);
        assert(openings(s3) == 1);
        assert(openings(s4) == 1);
        assert(contents(before, s3) =~= Seq::<u8>::empty());
        assert(contents(before, s4) == contents(before, s3));
        assert(contents(before, steps) =~= line);
        assert(state.run(s1) == state.after(steps[0]));
        assert(state.run(s2) == state.run(s1));
        assert(state.run(s3) == state.run(s2).after(StepView::Open));
        assert(state.run(s4) == state.run(s3).after(StepView::Reset));
        assert(state.run(steps) == state.run(s4));
    } else {
        let s1 = steps.drop_last();
        let s0 = s1.drop_last();
        assert(s0.len() == 0);
        assert(appended(s0) =~= Seq::<Seq<u8>>::empty());
        assert(openings(s0) == 0);
        assert(contents(before, s0) == before);
        assert(state.run(s0) == state);
        assert(appended(s1) =~= Seq::<Seq<u8>>::empty());
        assert(appended(steps) =~= seq![line]);
        assert(openings(s1) == 0);
        assert(contents(before, s1) == before);
        assert(state.run(s1) == state.after(steps[0]));
        assert(state.run(steps) == state.run(s1));
    }
}

/// The steps for some records, then for some more.
pub proof fn lemma_records_steps_concat(
    state: FileState,
    first: Seq<Seq<u8>>,
    second: Seq<Seq<u8>>,
)
    ensures
        state.records_steps(first + second) == state.records_steps(first) + state.run(
            state.records_steps(first),
        ).records_steps(second),
    decreases second.len(),
{
    let head = state.records_steps(first);
    let then = state.run(head);
    if second.len() == 0 {
        assert(first + second =~= first);
        assert(head + then.records_steps(second) =~= head);
    } else {
        let front = second.drop_last();
        assert((first + second).drop_last() =~= first + front);
        assert((first + second).last() == second.last());
        lemma_records_steps_concat(state, first, front);
        lemma_run_concat(state, head, then.records_steps(front));
        assert(state.records_steps(first + second) =~= head + then.records_steps(second));
    }
}

/// Every record is written once, in order, with a newline behind it, whether
/// or not the file is started over meanwhile.
pub proof fn law_every_record_is_written(state: FileState, records: Seq<Seq<u8>>)
    ensures
        appended(state.records_steps(records)) == with_newlines(records),
    decreases records.len(),
{
    if records.len() == 0 {
        assert(with_newlines(records) =~= Seq::<Seq<u8>>::empty());
    } else {
        let front = records.drop_last();
        let before = state.records_steps(front);
        law_every_record_is_written(state, front);
        lemma_record_steps(state.run(before), records.last(), Seq::empty());
        lemma_appended_concat(before, state.run(before).record_steps(records.last()));
        assert(appended(state.records_steps(records)) =~= with_newlines(records));
    }
}

/// One record per line: a driver that holds an open file, asked to write `k`
/// lines, writes `k` records to the file, the `i`-th being the record of the
/// `i`-th line on the channel that was named, with a newline behind it.
///
/// For the JSON form the record is an object of the three members
/// `timestamp`, `pipe` and `message`, the last being the line's text, decoded
/// and trimmed.
pub proof fn law_one_record_per_line(
    format: Format,
    state: FileState,
    pipe: Pipe,
    lines: Seq<Seq<u8>>,
    steps: Seq<StepView>,
)
    requires
        state.open,
        forall|k: int| 0 <= k < lines.len() ==> is_line(#[trigger] lines[k]),
        format.writes(state, pipe, joined(lines), steps),
    ensures
        appended(steps).len() == lines.len(),
        forall|i: int|
            0 <= i < lines.len() ==> is_record(format, pipe, #[trigger] lines[i], appended(steps)[i]),
{
    lemma_lines_of_joined(lines);
    let stamps = choose|stamps: Seq<Seq<char>>|
        stamps.len() == lines.len() && steps == state.write_steps(
            #[trigger] format.records(pipe, lines, stamps),
        );
    let records = format.records(pipe, lines, stamps);
    law_every_record_is_written(state, records);
    assert forall|i: int| 0 <= i < lines.len() implies is_record(
        format,
        pipe,
        #[trigger] lines[i],
        appended(steps)[i],
    ) by {
        assert(appended(steps)[i] == format.record(pipe, lines[i], stamps[i]).push(NEWLINE));
    }
}

/// A JSON record is what `serde_json` writes for an object of exactly three
/// members, put into it in this order: `timestamp` with the time, `pipe`
/// with the channel's name, and `message` with the line's text, decoded and
/// trimmed. The bytes written for it are the UTF-8 bytes of that text and a
/// newline.
pub proof fn law_json_record_members(pipe: Pipe, line: Seq<u8>, bytes: Seq<u8>)
    requires
        is_record(Format::Json, pipe, line, bytes),
    ensures
        exists|stamp: Seq<char>|
            bytes == encode_utf8(
                #[trigger] json_object(
                    "timestamp"@,
                    stamp,
                    "pipe"@,
                    pipe.label(),
                    "message"@,
                    trimmed(utf8_lossy(line)),
                ),
            ).push(NEWLINE),
{
    let stamp = choose|stamp: Seq<char>|
        bytes == (#[trigger] Format::Json.record(pipe, line, stamp)).push(NEWLINE);
    assert(bytes == encode_utf8(
        json_object(
            "timestamp"@,
            stamp,
            "pipe"@,
            pipe.label(),
            "message"@,
            trimmed(utf8_lossy(line)),
        ),
    ).push(NEWLINE));
}

/// Without an open file nothing is done to any file: a request to write, to
/// flush or to start the file over fails as uninitialized, and its script
/// holds no file operation.
pub proof fn law_uninitialized_touches_nothing(
    driver: LoggerView,
    pipe: Pipe,
    bytes: Seq<u8>,
    script: ScriptView,
)
    requires
        !driver.state.open,
        driver.writes(pipe, bytes, script) || script == driver.flush_script() || script
            == driver.reopen_script(),
    ensures
        script.uninitialized,
        driver.outcome(script, ProgressView::Completed) == Err::<(), LogErrorView>(
            LogErrorView::Uninitialized,
        ),
        forall|i: int| 0 <= i < script.steps.len() ==> !(#[trigger] script.steps[i]).touches_file(),
        !driver.settled(script, ProgressView::Completed).state.open,
{
    let done = script.steps.take(script.steps.len() as int);
    assert(done =~= script.steps);
    if script.steps.len() > 0 {
        assert(script.steps.len() == 1);
        assert(script.steps.drop_last().len() == 0);
        assert(driver.state.run(script.steps.drop_last()) == driver.state);
        assert(driver.state.run(script.steps) == driver.state.after(script.steps[0]));
    }
}

/// A driver holds an open file only once a file was opened for it, and keeps
/// one from then on: steps that open no file leave a driver without a file
/// without one, and no step takes the file from a driver that has one.
pub proof fn law_open_only_by_opening(state: FileState, steps: Seq<StepView>)
    ensures
        state.open ==> state.run(steps).open,
        openings(steps) == 0 ==> state.run(steps).open == state.open,
        state.run(steps).limit == state.limit,
    decreases steps.len(),
{
    if steps.len() > 0 {
        law_open_only_by_opening(state, steps.drop_last());
    }
}

/// Without a size limit the file is never started over: what is written is
/// put behind what the file holds.
pub proof fn law_unlimited_file_grows(state: FileState, records: Seq<Seq<u8>>, before: Seq<u8>)
    requires
        state.limit is None,
    ensures
        state.records_steps(records) == plain_steps(records),
        openings(state.records_steps(records)) == 0,
        contents(before, state.records_steps(records)) == before + joined(with_newlines(records)),
    decreases records.len(),
{
    if records.len() == 0 {
        assert(with_newlines(records) =~= Seq::<Seq<u8>>::empty());
        assert(before + joined(with_newlines(records)) =~= before);
    } else {
        let front = records.drop_last();
        let head = state.records_steps(front);
        let then = state.run(head);
        law_unlimited_file_grows(state, front, before);
        law_open_only_by_opening(state, head);
        let held = contents(before, head);
        lemma_record_steps(then, records.last(), held);
        lemma_openings_concat(head, then.record_steps(records.last()));
        lemma_contents_concat(before, head, then.record_steps(records.last()));
        assert(with_newlines(records) =~= with_newlines(front).push(
            records.last().push(NEWLINE),
        ));
        crate::lines::lemma_joined_push(with_newlines(front), records.last().push(NEWLINE));
        assert(contents(before, state.records_steps(records)) =~= before + joined(
            with_newlines(records),
        ));
    }
}

/// While the bytes counted stay within the limit the file is not started
/// over: the records are accounted for and written, nothing else.
pub proof fn lemma_within_limit(state: FileState, records: Seq<Seq<u8>>, before: Seq<u8>)
    requires
        state.limit matches Some(max) && state.written + total_len(records) <= max,
    ensures
        state.records_steps(records) == plain_steps(records),
        openings(state.records_steps(records)) == 0,
        contents(before, state.records_steps(records)) == before + joined(with_newlines(records)),
        state.run(state.records_steps(records)) == (FileState {
            written: (state.written + total_len(records)) as usize,
            ..state
        }),
    decreases records.len(),
{
    if records.len() == 0 {
        assert(with_newlines(records) =~= Seq::<Seq<u8>>::empty());
        assert(before + joined(with_newlines(records)) =~= before);
    } else {
        let front = records.drop_last();
        let head = state.records_steps(front);
        let then = state.run(head);
        lemma_within_limit(state, front, before);
        let held = contents(before, head);
        lemma_record_steps(then, records.last(), held);
        lemma_openings_concat(head, then.record_steps(records.last()));
        lemma_contents_concat(before, head, then.record_steps(records.last()));
        lemma_run_concat(state, head, then.record_steps(records.last()));
        assert(with_newlines(records) =~= with_newlines(front).push(
            records.last().push(NEWLINE),
        ));
        crate::lines::lemma_joined_push(with_newlines(front), records.last().push(NEWLINE));
        assert(contents(before, state.records_steps(records)) =~= before + joined(
            with_newlines(records),
        ));
    }
}

/// The file is started over exactly when the limit is crossed, and before
/// the record that crosses it is written.
///
/// A driver with an open file and the limit `max` writes records of which
/// the `at`-th is the first to bring the bytes counted over `max`, and those
/// behind it do not come to more than `max` together. Then the records before
/// the `at`-th are written to the file as it is. The file is opened once,
/// when they are written and the `at`-th is not. In the end the file holds
/// the `at`-th record and those behind it, the `at`-th first, and the driver
/// has counted the bytes of those behind it alone.
pub proof fn law_rotation(
    state: FileState,
    max: usize,
    records: Seq<Seq<u8>>,
    at: int,
    before: Seq<u8>,
)
    requires
        state.open,
        state.limit == Some(max),
        0 <= at < records.len(),
        state.written + total_len(records.take(at)) <= max,
        state.written + total_len(records.take(at + 1)) > max,
        total_len(records.skip(at + 1)) <= max,
    ensures
        state.records_steps(records) == plain_steps(records.take(at)) + rotating_steps(records[at])
            + plain_steps(records.skip(at + 1)),
        openings(state.records_steps(records)) == 1,
        contents(before, state.records_steps(records)) == joined(with_newlines(records.skip(at))),
        state.run(state.records_steps(records)) == (FileState {
            written: total_len(records.skip(at + 1)) as usize,
            ..state
        }),
{
    let early = records.take(at);
    let late = records.skip(at + 1);
    let one = seq![records[at]];
    assert(records =~= early + one + late);
    // The records before the one that crosses the limit.
    let head = state.records_steps(early);
    let s1 = state.run(head);
    lemma_within_limit(state, early, before);
    // The record that crosses it.
    assert(records.take(at + 1).drop_last() =~= early);
    assert(records.take(at + 1).last() == records[at]);
    assert(s1.exceeds(records[at].len()));
    let held = contents(before, head);
    lemma_record_steps(s1, records[at], held);
    let middle = s1.record_steps(records[at]);
    let s2 = s1.run(middle);
    assert(one.drop_last() =~= Seq::<Seq<u8>>::empty());
    assert(s1.records_steps(one.drop_last()) =~= Seq::<StepView>::empty());
    assert(s1.records_steps(one) =~= middle);
    // The records behind it.
    lemma_within_limit(s2, late, records[at].push(NEWLINE));
    let tail = s2.records_steps(late);
    // All of them.
    lemma_records_steps_concat(state, early, one);
    lemma_run_concat(state, head, middle);
    lemma_records_steps_concat(state, early + one, late);
    lemma_run_concat(state, head + middle, tail);
    lemma_openings_concat(head, middle);
    lemma_openings_concat(head + middle, tail);
    lemma_contents_concat(before, head, middle);
    lemma_contents_concat(before, head + middle, tail);
    let kept = with_newlines(records.skip(at));
    assert(kept.drop_first() =~= with_newlines(late));
    assert(kept[0] == records[at].push(NEWLINE));
    assert(joined(kept) == kept[0] + joined(kept.drop_first()));
}

/// The first failure is the one that the request fails with: where the
/// result at `at` is a failure and those before it are none, `first_error`
/// gives that failure; where no result is a failure, it gives success.
pub proof fn lemma_first_error(results: Seq<Result<(), LogErrorView>>)
    ensures
        first_error(results) is Ok <==> forall|i: int|
            0 <= i < results.len() ==> (#[trigger] results[i]) is Ok,
        forall|at: int|
            0 <= at < results.len() && (#[trigger] results[at]) is Err && (forall|i: int|
                0 <= i < at ==> (#[trigger] results[i]) is Ok) ==> first_error(results)
                == results[at],
    decreases results.len(),
{
    if results.len() > 0 {
        let front = results.drop_last();
        lemma_first_error(front);
        assert forall|i: int| 0 <= i < front.len() implies front[i] == results[i] by {}
        if first_error(front) is Ok {
            assert forall|i: int| 0 <= i < front.len() implies (#[trigger] results[i]) is Ok by {
                assert(front[i] is Ok);
            }
        } else {
            let bad = choose|i: int| 0 <= i < front.len() && !((#[trigger] front[i]) is Ok);
            assert(results[bad] is Err);
        }
        assert forall|at: int|
            0 <= at < results.len() && (#[trigger] results[at]) is Err && (forall|i: int|
                0 <= i < at ==> (#[trigger] results[i]) is Ok) implies first_error(results)
            == results[at] by {
            if at < front.len() {
                assert(front[at] is Err);
                assert forall|i: int| 0 <= i < at implies (#[trigger] front[i]) is Ok by {
                    assert(results[i] is Ok);
                }
            } else {
                assert forall|i: int| 0 <= i < front.len() implies (#[trigger] front[i]) is Ok by {
                    assert(results[i] is Ok);
                }
            }
        }
    }
}

/// One driver's failure does not hold up the others: where a request fails
/// for exactly one driver, it fails with that driver's failure, and every
/// other driver, those behind it too, has taken all the steps of its script.
pub proof fn law_partial_failure(
    drivers: Seq<LoggerView>,
    scripts: Seq<ScriptView>,
    reports: Seq<ProgressView>,
    failed: int,
)
    requires
        drivers.len() == scripts.len(),
        drivers.len() == reports.len(),
        0 <= failed < drivers.len(),
        drivers[failed].outcome(scripts[failed], reports[failed]) is Err,
        forall|i: int|
            0 <= i < drivers.len() && i != failed ==> (#[trigger] drivers[i]).outcome(
                scripts[i],
                reports[i],
            ) is Ok,
    ensures
        first_error(outcomes(drivers, scripts, reports)) == drivers[failed].outcome(
            scripts[failed],
            reports[failed],
        ),
        forall|i: int|
            0 <= i < drivers.len() && i != failed ==> (#[trigger] settled(
                drivers,
                scripts,
                reports,
            )[i]).state == drivers[i].state.run(scripts[i].steps),
{
    let all = outcomes(drivers, scripts, reports);
    lemma_first_error(all);
    assert(all[failed] is Err);
    assert forall|i: int| 0 <= i < failed implies (#[trigger] all[i]) is Ok by {
        assert(drivers[i].outcome(scripts[i], reports[i]) is Ok);
    }
    assert forall|i: int| 0 <= i < drivers.len() && i != failed implies (#[trigger] settled(
        drivers,
        scripts,
        reports,
    )[i]).state == drivers[i].state.run(scripts[i].steps) by {
        assert(drivers[i].outcome(scripts[i], reports[i]) is Ok);
        assert(reports[i] is Completed);
        assert(scripts[i].steps.take(scripts[i].steps.len() as int) =~= scripts[i].steps);
    }
}

/// Every driver gets every line: asked to write `k` lines, each driver that
/// holds an open file writes `k` records to its own file, the `i`-th being
/// its record of the `i`-th line, whatever the other drivers are and do.
pub proof fn law_fan_out(
    drivers: Seq<LoggerView>,
    pipe: Pipe,
    lines: Seq<Seq<u8>>,
    scripts: Seq<ScriptView>,
)
    requires
        scripts.len() == drivers.len(),
        forall|k: int| 0 <= k < lines.len() ==> is_line(#[trigger] lines[k]),
        forall|d: int|
            0 <= d < drivers.len() ==> (#[trigger] drivers[d]).writes(
                pipe,
                joined(lines),
                scripts[d],
            ),
    ensures
        forall|d: int|
            0 <= d < drivers.len() && (#[trigger] drivers[d]).state.open ==> {
                &&& appended(scripts[d].steps).len() == lines.len()
                &&& forall|i: int|
                    0 <= i < lines.len() ==> is_record(
                        drivers[d].format,
                        pipe,
                        #[trigger] lines[i],
                        appended(scripts[d].steps)[i],
                    )
            },
{
    assert forall|d: int| 0 <= d < drivers.len() && (#[trigger] drivers[d]).state.open implies {
        &&& appended(scripts[d].steps).len() == lines.len()
        &&& forall|i: int|
            0 <= i < lines.len() ==> is_record(
                drivers[d].format,
                pipe,
                #[trigger] lines[i],
                appended(scripts[d].steps)[i],
            )
    } by {
        law_one_record_per_line(drivers[d].format, drivers[d].state, pipe, lines, scripts[d].steps);
    }
}

/// All drivers or none: a set of drivers is made exactly where every
/// description can be made into a driver, and then holds the driver of each
/// in order; otherwise the failure is that of the first description that
/// cannot.
pub proof fn law_all_or_nothing(specs: Seq<DriverSpecView>)
    ensures
        match drivers_of(specs) {
            Ok(drivers) => {
                &&& drivers.len() == specs.len()
                &&& forall|i: int|
                    0 <= i < specs.len() ==> (#[trigger] specs[i]).problem() is None && drivers[i]
                        == specs[i].driver()
            },
            Err(e) => exists|at: int|
                {
                    &&& 0 <= at < specs.len()
                    &&& (#[trigger] specs[at]).problem() == Some(e)
                    &&& forall|i: int| 0 <= i < at ==> (#[trigger] specs[i]).problem() is None
                },
        },
    decreases specs.len(),
{
    if specs.len() > 0 {
        let front = specs.drop_last();
        law_all_or_nothing(front);
        assert forall|i: int| 0 <= i < front.len() implies front[i] == specs[i] by {}
        match drivers_of(front) {
            Ok(drivers) => {
                match specs.last().problem() {
                    Some(e) => {
                        let at = specs.len() - 1;
                        assert(specs[at].problem() == Some(e));
                        assert forall|i: int| 0 <= i < at implies (#[trigger] specs[i]).problem()
                            is None by {
                            assert(front[i].problem() is None);
                        }
                    },
                    None => {
                        let all = drivers.push(specs.last().driver());
                        assert forall|i: int| 0 <= i < specs.len() implies (#[trigger] specs[i]).problem()
                            is None && all[i] == specs[i].driver() by {
                            if i < front.len() {
                                assert(front[i].problem() is None);
                            }
                        }
                    },
                }
            },
            Err(e) => {
                let at = choose|at: int|
                    {
                        &&& 0 <= at < front.len()
                        &&& (#[trigger] front[at]).problem() == Some(e)
                        &&& forall|i: int| 0 <= i < at ==> (#[trigger] front[i]).problem() is None
                    };
                assert(specs[at].problem() == Some(e));
                assert forall|i: int| 0 <= i < at implies (#[trigger] specs[i]).problem()
                    is None by {
                    assert(front[i].problem() is None);
                }
            },
        }
    }
}

/// The lines do not depend on how the bytes arrive: cutting some bytes, and
/// then what was left of them with more bytes behind it, gives the lines of
/// all the bytes together.
pub proof fn law_chunks(first: Seq<u8>, second: Seq<u8>)
    ensures
        lines_of(first + second) == lines_of(first) + lines_of(
            first.skip(complete_len(first)) + second,
        ),
{
    lemma_complete_prefix(first);
    lemma_lines_are_lines(first);
    let taken = complete_len(first);
    let left = first.skip(taken);
    lemma_lines_of_concat(lines_of(first), left + second);
    assert(first + second =~= first.take(taken) + (left + second));
}

} // verus!
