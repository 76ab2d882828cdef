//! Cutting a run of bytes into lines.
//!
//! A line ends with a newline byte and holds no other. Bytes behind the last
//! newline form no line: they are not taken, and stay with whoever holds the
//! stream until the rest of their line arrives.
use vstd::prelude::*;

verus! {

/// The byte that ends a line.
pub const NEWLINE: u8 = 0x0A;

/// `i` is the place of the first newline in `bytes`.
pub open spec fn first_newline_at(bytes: Seq<u8>, i: int) -> bool {
    &&& 0 <= i < bytes.len()
    &&& bytes[i] == NEWLINE
    &&& forall|j: int| 0 <= j < i ==> bytes[j] != NEWLINE
}

/// The place of the first newline in `bytes`, if there is one.
pub open spec fn line_break(bytes: Seq<u8>) -> Option<int> {
    if exists|i: int| first_newline_at(bytes, i) {
        Some(choose|i: int| first_newline_at(bytes, i))
    } else {
        None
    }
}

/// The complete lines of `bytes` in order, each with its newline.
pub open spec fn lines_of(bytes: Seq<u8>) -> Seq<Seq<u8>>
    decreases bytes.len(),
{
    match line_break(bytes) {
        Some(i) => if 0 <= i < bytes.len() {
            seq![bytes.take(i + 1)] + lines_of(bytes.skip(i + 1))
        } else {
            Seq::empty()
        },
        None => Seq::empty(),
    }
}

/// `line` is one line: it ends with a newline and holds no other.
pub open spec fn is_line(line: Seq<u8>) -> bool {
    first_newline_at(line, line.len() - 1)
}

/// The lines written one behind the other.
pub open spec fn joined(lines: Seq<Seq<u8>>) -> Seq<u8>
    decreases lines.len(),
{
    if lines.len() == 0 {
        Seq::empty()
    } else {
        lines[0] + joined(lines.drop_first())
    }
}

/// How many leading bytes of `bytes` belong to complete lines.
pub open spec fn complete_len(bytes: Seq<u8>) -> int {
    joined(lines_of(bytes)).len() as int
}

/// The first newline is where a newline with none before it stands.
pub proof fn lemma_line_break_at(bytes: Seq<u8>, i: int)
    requires
        first_newline_at(bytes, i),
    ensures
        line_break(bytes) == Some(i),
{
    let k = choose|k: int| first_newline_at(bytes, k);
    assert(first_newline_at(bytes, k));
    if k < i {
        assert(bytes[k] != NEWLINE);
    } else if i < k {
        assert(bytes[i] != NEWLINE);
    }
}

/// Bytes without a newline have no first newline, and no line.
pub proof fn lemma_no_line_break(bytes: Seq<u8>)
    requires
        forall|j: int| 0 <= j < bytes.len() ==> bytes[j] != NEWLINE,
    ensures
        line_break(bytes) is None,
        lines_of(bytes) == Seq::<Seq<u8>>::empty(),
{
}

/// Where the first newline of `bytes` stands at `i`, the first line is what
/// leads up to it, and the other lines are those of what follows.
pub proof fn lemma_lines_of_step(bytes: Seq<u8>, i: int)
    requires
        first_newline_at(bytes, i),
    ensures
        lines_of(bytes) == seq![bytes.take(i + 1)] + lines_of(bytes.skip(i + 1)),
        is_line(bytes.take(i + 1)),
{
    lemma_line_break_at(bytes, i);
}

/// Every element of `lines_of` is a line.
pub proof fn lemma_lines_are_lines(bytes: Seq<u8>)
    ensures
        forall|k: int| 0 <= k < lines_of(bytes).len() ==> is_line(#[trigger] lines_of(bytes)[k]),
    decreases bytes.len(),
{
    match line_break(bytes) {
        Some(i) => {
            if 0 <= i < bytes.len() {
                assert(first_newline_at(bytes, i));
                lemma_lines_of_step(bytes, i);
                lemma_lines_are_lines(bytes.skip(i + 1));
                let rest = lines_of(bytes.skip(i + 1));
                assert forall|k: int| 0 <= k < lines_of(bytes).len() implies is_line(
                    #[trigger] lines_of(bytes)[k],
                ) by {
                    if k > 0 {
                        assert(lines_of(bytes)[k] == rest[k - 1]);
                    }
                }
            }
        },
        None => {},
    }
}

/// The complete lines of `bytes`, one behind the other, are a leading part
/// of `bytes`, and what follows them holds no newline.
pub proof fn lemma_complete_prefix(bytes: Seq<u8>)
    ensures
        0 <= complete_len(bytes) <= bytes.len(),
        joined(lines_of(bytes)) == bytes.take(complete_len(bytes)),
        forall|j: int| complete_len(bytes) <= j < bytes.len() ==> bytes[j] != NEWLINE,
    decreases bytes.len(),
{
    match line_break(bytes) {
        Some(i) => {
            assert(first_newline_at(bytes, i));
            lemma_lines_of_step(bytes, i);
            let rest = bytes.skip(i + 1);
            lemma_complete_prefix(rest);
            let all = lines_of(bytes);
            assert(all.drop_first() =~= lines_of(rest));
            assert(joined(all) == bytes.take(i + 1) + joined(lines_of(rest)));
            assert(joined(all) =~= bytes.take(i + 1 + complete_len(rest)));
            assert forall|j: int| complete_len(bytes) <= j < bytes.len() implies bytes[j]
                != NEWLINE by {
                assert(bytes[j] == rest[j - (i + 1)]);
            }
        },
        None => {
            assert(joined(lines_of(bytes)) =~= bytes.take(0));
            assert forall|j: int| 0 <= j < bytes.len() implies bytes[j] != NEWLINE by {
                if bytes[j] == NEWLINE {
                    lemma_has_first_newline(bytes, j);
                }
            }
        },
    }
}

/// Where a newline stands anywhere, a first one stands at or before it.
pub proof fn lemma_has_first_newline(bytes: Seq<u8>, j: int)
    requires
        0 <= j < bytes.len(),
        bytes[j] == NEWLINE,
    ensures
        exists|i: int| 0 <= i <= j && first_newline_at(bytes, i),
    decreases j,
{
    if exists|k: int| 0 <= k < j && bytes[k] == NEWLINE {
        let k = choose|k: int| 0 <= k < j && bytes[k] == NEWLINE;
        lemma_has_first_newline(bytes, k);
    } else {
        assert(first_newline_at(bytes, j));
    }
}

/// Bytes that begin with whole lines are cut into those lines and the lines
/// of what follows them.
pub proof fn lemma_lines_of_concat(lines: Seq<Seq<u8>>, rest: Seq<u8>)
    requires
        forall|k: int| 0 <= k < lines.len() ==> is_line(#[trigger] lines[k]),
    ensures
        lines_of(joined(lines) + rest) == lines + lines_of(rest),
    decreases lines.len(),
{
    if lines.len() == 0 {
        assert(joined(lines) + rest =~= rest);
        assert(lines + lines_of(rest) =~= lines_of(rest));
    } else {
        let head = lines[0];
        let tail = lines.drop_first();
        assert(is_line(head));
        assert forall|k: int| 0 <= k < tail.len() implies is_line(#[trigger] tail[k]) by {
            assert(tail[k] == lines[k + 1]);
        }
        lemma_lines_of_concat(tail, rest);
        let all = joined(lines) + rest;
        assert(joined(lines) == head + joined(tail));
        assert(first_newline_at(all, head.len() - 1));
        lemma_lines_of_step(all, head.len() - 1);
        assert(all.take(head.len() as int) =~= head);
        assert(all.skip(head.len() as int) =~= joined(tail) + rest);
        assert(lines + lines_of(rest) =~= seq![head] + (tail + lines_of(rest)));
    }
}

/// Lines written one behind the other are cut into the same lines again.
pub proof fn lemma_lines_of_joined(lines: Seq<Seq<u8>>)
    requires
        forall|k: int| 0 <= k < lines.len() ==> is_line(#[trigger] lines[k]),
    ensures
        lines_of(joined(lines)) == lines,
{
    let none = Seq::<u8>::empty();
    lemma_lines_of_concat(lines, none);
    lemma_no_line_break(none);
    assert(joined(lines) + none =~= joined(lines));
    assert(lines + lines_of(none) =~= lines);
}

/// Where the line that begins at `start` ends.
///
/// Returns the place just behind the first newline at or after `start`, or
/// `None` where no newline follows (also where `start` lies behind the end).
pub fn next_line(bytes: &[u8], start: usize) -> (end: Option<usize>)
    ensures
        match end {
            Some(e) => start < e <= bytes@.len() && first_newline_at(
                bytes@.skip(start as int),
                e - 1 - start,
            ),
            None => start <= bytes@.len() ==> line_break(bytes@.skip(start as int)) is None,
        },
{
    let mut at: usize = start;
    while at < bytes.len()
        invariant
            start <= at,
            forall|j: int| start <= j < at && j < bytes@.len() ==> bytes@[j] != NEWLINE,
        decreases bytes@.len() - at,
    {
        if bytes[at] == NEWLINE {
            proof {
                let rest = bytes@.skip(start as int);
                assert forall|j: int| 0 <= j < at - start implies rest[j] != NEWLINE by {
                    assert(rest[j] == bytes@[start + j]);
                }
            }
            return Some(at + 1);
        }
        at = at + 1;
    }
    proof {
        if start <= bytes@.len() {
            let rest = bytes@.skip(start as int);
            assert forall|j: int| 0 <= j < rest.len() implies rest[j] != NEWLINE by {
                assert(rest[j] == bytes@[start + j]);
            }
            lemma_no_line_break(rest);
        }
    }
    None
}

/// How many leading bytes of `bytes` belong to complete lines: the place just
/// behind the last newline, or 0 where there is none.
pub fn complete_prefix(bytes: &[u8]) -> (taken: usize)
    ensures
        taken == complete_len(bytes@),
        taken <= bytes@.len(),
        lines_of(bytes@.take(taken as int)) == lines_of(bytes@),
{
    let mut start: usize = 0;
    let ghost mut done: Seq<Seq<u8>> = Seq::empty();
    proof {
        assert(bytes@.skip(0) =~= bytes@);
        assert(done + lines_of(bytes@) =~= lines_of(bytes@));
    }
    loop
        invariant
            start <= bytes@.len(),
            lines_of(bytes@) == done + lines_of(bytes@.skip(start as int)),
            joined(done).len() == start,
        decreases bytes@.len() - start,
    {
        match next_line(bytes, start) {
            Some(end) => {
                proof {
                    let rest = bytes@.skip(start as int);
                    lemma_lines_of_step(rest, end - 1 - start);
                    let line = rest.take(end - start);
                    assert(rest.skip(end - start) =~= bytes@.skip(end as int));
                    assert(done + (seq![line] + lines_of(bytes@.skip(end as int))) =~= done.push(
                        line,
                    ) + lines_of(bytes@.skip(end as int)));
                    lemma_joined_push(done, line);
                    done = done.push(line);
                }
                start = end;
            },
            None => {
                proof {
                    assert(lines_of(bytes@) =~= done);
                    lemma_complete_prefix(bytes@);
                    lemma_lines_are_lines(bytes@);
                    lemma_lines_of_joined(lines_of(bytes@));
                }
                return start;
            },
        }
    }
}

/// Joining one more line puts it at the end.
pub proof fn lemma_joined_push(lines: Seq<Seq<u8>>, line: Seq<u8>)
    ensures
        joined(lines.push(line)) == joined(lines) + line,
    decreases lines.len(),
{
    if lines.len() == 0 {
        assert(lines.push(line).drop_first() =~= Seq::<Seq<u8>>::empty());
        assert(joined(lines.push(line).drop_first()) =~= Seq::<u8>::empty());
        assert(joined(lines.push(line)) =~= joined(lines) + line);
    } else {
        assert(lines.push(line).drop_first() =~= lines.drop_first().push(line));
        lemma_joined_push(lines.drop_first(), line);
        assert(joined(lines.push(line)) =~= joined(lines) + line);
    }
}

} // verus!
