//! Records: what one line of output becomes in a log file.
use crate::lines::{first_newline_at, lemma_lines_of_step, lines_of, next_line, NEWLINE};
use crate::pipe::Pipe;
use crate::script::{lemma_run_concat, views, FileState, Step, StepView};
use crate::text::{json_object, lossy_text, object_text, trim_text, trimmed, utf8_lossy, wall_clock};
use vstd::prelude::*;
use vstd::slice::{slice_subrange, slice_to_vec};
use vstd::string::StrSliceExecFns;
use vstd::utf8::encode_utf8;

verus! {

/// The form in which a driver writes its records.
#[derive(Clone, Copy, Debug, PartialEq, Eq, Structural)]
pub enum Format {
    /// One JSON object per line of output.
    Json,
    /// One tagged line of text per line of output.
    Cri,
}

/// The JSON record of one line: an object with the time at which the line
/// was handled, the channel it came on, and its text, decoded as UTF-8 and
/// trimmed.
pub open spec fn json_record(pipe: Pipe, line: Seq<u8>, stamp: Seq<char>) -> Seq<u8> {
    encode_utf8(
        json_object(
            "timestamp"@,
            stamp,
            "pipe"@,
            pipe.label(),
            "message"@,
            trimmed(utf8_lossy(line)),
        ),
    )
}

/// The byte of a blank.
pub const BLANK: u8 = 0x20;

/// The byte of the tag `F`, which marks a record that holds a full line.
pub const FULL: u8 = 0x46;

/// The bytes of a line without the newline at its end.
pub open spec fn content(line: Seq<u8>) -> Seq<u8> {
    if line.len() > 0 && line.last() == NEWLINE {
        line.drop_last()
    } else {
        line
    }
}

/// The tagged record of one line: the time at which the line was handled,
/// the channel it came on, the tag for a full line, and the bytes of the line
/// without its newline, with one blank between each two.
pub open spec fn tagged_record(pipe: Pipe, line: Seq<u8>, stamp: Seq<char>) -> Seq<u8> {
    encode_utf8(stamp) + seq![BLANK] + encode_utf8(pipe.label()) + seq![BLANK, FULL, BLANK]
        + content(line)
}

impl Format {
    /// The record of one line in this form.
    pub open spec fn record(self, pipe: Pipe, line: Seq<u8>, stamp: Seq<char>) -> Seq<u8> {
        match self {
            Format::Json => json_record(pipe, line, stamp),
            Format::Cri => tagged_record(pipe, line, stamp),
        }
    }

    /// The records of some lines in this form, each with its own time.
    pub open spec fn records(self, pipe: Pipe, lines: Seq<Seq<u8>>, stamps: Seq<Seq<char>>) -> Seq<
        Seq<u8>,
    > {
        Seq::new(lines.len(), |i: int| self.record(pipe, lines[i], stamps[i]))
    }

    /// `steps` is what writing `bytes` comes to for a driver in `state`: the
    /// steps for the records of the complete lines of `bytes`, each record
    /// made with some time of its own.
    pub open spec fn writes(
        self,
        state: FileState,
        pipe: Pipe,
        bytes: Seq<u8>,
        steps: Seq<StepView>,
    ) -> bool {
        exists|stamps: Seq<Seq<char>>|
            stamps.len() == lines_of(bytes).len() && steps == state.write_steps(
                #[trigger] self.records(pipe, lines_of(bytes), stamps),
            )
    }

    /// The record of one line, handled at the time `stamp`.
    ///
    /// `line` is taken with its newline where it has one.
    pub fn entry(self, pipe: Pipe, line: &[u8], stamp: &str) -> (record: Vec<u8>)
        ensures
            record@ == self.record(pipe, line@, stamp@),
    {
        match self {
            Format::Json => {
                let decoded = lossy_text(line);
                let message = trim_text(decoded.as_str());
                let text = object_text(
                    "timestamp",
                    stamp,
                    "pipe",
                    pipe.name(),
                    "message",
                    message.as_str(),
                );
                text.as_str().as_bytes_vec()
            },
            Format::Cri => {
                let mut record = stamp.as_bytes_vec();
                record.push(BLANK);
                let mut channel = pipe.name().as_bytes_vec();
                record.append(&mut channel);
                record.push(BLANK);
                record.push(FULL);
                record.push(BLANK);
                let body = if line.len() > 0 && line[line.len() - 1] == NEWLINE {
                    slice_subrange(line, 0, line.len() - 1)
                } else {
                    line
                };
                let mut tail = slice_to_vec(body);
                record.append(&mut tail);
                proof {
                    assert(body@ =~= content(line@));
                    assert(record@ =~= tagged_record(pipe, line@, stamp@));
                }
                record
            },
        }
    }

    /// The steps that writing `bytes` comes to for a driver in `state`.
    ///
    /// Each complete line of `bytes` becomes one record, stamped with the
    /// time at which it is handled here. Bytes behind the last newline are
    /// not taken.
    pub fn plan(self, state: &FileState, pipe: Pipe, bytes: &[u8]) -> (steps: Vec<Step>)
        ensures
            self.writes(*state, pipe, bytes@, views(steps@)),
    {
        let mut steps: Vec<Step> = Vec::new();
        if !state.open {
            match next_line(bytes, 0) {
                Some(end) => {
                    let line = slice_subrange(bytes, 0, end);
                    let stamp = wall_clock();
                    let record = self.entry(pipe, line, stamp.as_str());
                    steps.push(Step::Account(record.len()));
                    proof {
                        assert(bytes@.skip(0) =~= bytes@);
                        lemma_lines_of_step(bytes@, end - 1);
                        let lines = lines_of(bytes@);
                        let stamps = Seq::new(lines.len(), |i: int| stamp@);
                        let records = self.records(pipe, lines, stamps);
                        assert(lines[0] == line@);
                        assert(views(steps@) =~= state.write_steps(records));
                    }
                },
                None => {
                    proof {
                        assert(bytes@.skip(0) =~= bytes@);
                        let stamps = Seq::<Seq<char>>::empty();
                        let records = self.records(pipe, lines_of(bytes@), stamps);
                        assert(views(steps@) =~= state.write_steps(records));
                    }
                },
            }
            return steps;
        }
        let mut sim = *state;
        let mut start: usize = 0;
        let ghost mut done: Seq<Seq<u8>> = Seq::empty();
        let ghost mut stamps: Seq<Seq<char>> = Seq::empty();
        proof {
            assert(bytes@.skip(0) =~= bytes@);
            assert(done + lines_of(bytes@) =~= lines_of(bytes@));
            assert(views(steps@) =~= state.records_steps(self.records(pipe, done, stamps)));
        }
        loop
            invariant
                state.open,
                start <= bytes@.len(),
                lines_of(bytes@) == done + lines_of(bytes@.skip(start as int)),
                stamps.len() == done.len(),
                views(steps@) == state.records_steps(self.records(pipe, done, stamps)),
                sim == state.run(views(steps@)),
            decreases bytes@.len() - start,
        {
            match next_line(bytes, start) {
                Some(end) => {
                    let line = slice_subrange(bytes, start, end);
                    let stamp = wall_clock();
                    let record = self.entry(pipe, line, stamp.as_str());
                    let ghost before = views(steps@);
                    sim.plan_record(record, &mut steps);
                    proof {
                        let rest = bytes@.skip(start as int);
                        lemma_lines_of_step(rest, end - 1 - start);
                        assert(rest.take(end - start) =~= line@);
                        assert(rest.skip(end - start) =~= bytes@.skip(end as int));
                        assert(done + (seq![line@] + lines_of(bytes@.skip(end as int)))
                            =~= done.push(line@) + lines_of(bytes@.skip(end as int)));
                        let records = self.records(pipe, done.push(line@), stamps.push(stamp@));
                        assert(records.drop_last() =~= self.records(pipe, done, stamps));
                        assert(records.last() == record@);
                        lemma_run_concat(*state, before, state.run(before).record_steps(record@));
                        done = done.push(line@);
                        stamps = stamps.push(stamp@);
                    }
                    start = end;
                },
                None => {
                    proof {
                        assert(lines_of(bytes@) =~= done);
                        assert(views(steps@) == state.write_steps(
                            self.records(pipe, lines_of(bytes@), stamps),
                        ));
                    }
                    return steps;
                },
            }
        }
    }
}

} // verus!
