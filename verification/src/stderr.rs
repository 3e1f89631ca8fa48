//! Bounded capture of what a command prints to its standard error.

use vstd::prelude::*;

use crate::error::MAX_REALIZATION_DIAGNOSTIC_BYTES;

verus! {

// ---------------------------------------------------------------------------
// Model
// ---------------------------------------------------------------------------

/// The byte that ends a line.
pub const NEWLINE: u8 = 10;

/// What follows the last line ending of a stream.
pub open spec fn open_line(stream: Seq<u8>) -> Seq<u8>
    decreases stream.len(),
{
    if stream.len() == 0 || stream.last() == NEWLINE {
        Seq::empty()
    } else {
        open_line(stream.drop_last()).push(stream.last())
    }
}

/// The ended lines of a stream, each with its line ending.
pub open spec fn ended_lines(stream: Seq<u8>) -> Seq<Seq<u8>>
    decreases stream.len(),
{
    if stream.len() == 0 {
        Seq::empty()
    } else if stream.last() == NEWLINE {
        ended_lines(stream.drop_last()).push(open_line(stream.drop_last()).push(NEWLINE))
    } else {
        ended_lines(stream.drop_last())
    }
}

/// All lines of a stream; the last may lack its line ending.
pub open spec fn all_lines(stream: Seq<u8>) -> Seq<Seq<u8>> {
    if open_line(stream).len() == 0 {
        ended_lines(stream)
    } else {
        ended_lines(stream).push(open_line(stream))
    }
}

/// The lines that are short enough to be shown whole.
pub open spec fn short_lines(lines: Seq<Seq<u8>>) -> Seq<Seq<u8>>
    decreases lines.len(),
{
    if lines.len() == 0 {
        Seq::empty()
    } else if lines.last().len() <= MAX_REALIZATION_DIAGNOSTIC_BYTES {
        short_lines(lines.drop_last()).push(lines.last())
    } else {
        short_lines(lines.drop_last())
    }
}

/// The last lines that together take at most `budget` bytes.
pub open spec fn last_within(lines: Seq<Seq<u8>>, budget: int) -> Seq<Seq<u8>>
    decreases lines.len(),
{
    if lines.len() == 0 || lines.last().len() > budget {
        Seq::empty()
    } else {
        last_within(lines.drop_last(), budget - lines.last().len()).push(lines.last())
    }
}

/// Lines one behind the other.
pub open spec fn flat(lines: Seq<Seq<u8>>) -> Seq<u8>
    decreases lines.len(),
{
    if lines.len() == 0 {
        Seq::empty()
    } else {
        flat(lines.drop_last()) + lines.last()
    }
}

/// What is kept of a stream: as many of its last lines as the bound allows,
/// among those that are short enough to be shown whole.
pub open spec fn retained(stream: Seq<u8>) -> Seq<u8> {
    flat(last_within(short_lines(all_lines(stream)), MAX_REALIZATION_DIAGNOSTIC_BYTES as int))
}

// ---------------------------------------------------------------------------
// Facts about lines
// ---------------------------------------------------------------------------

/// The line ends where it should, and nowhere before.
spec fn is_ended(line: Seq<u8>) -> bool {
    line.len() > 0 && line.last() == NEWLINE && forall|i: int|
        0 <= i < line.len() - 1 ==> #[trigger] line[i] != NEWLINE
}

spec fn are_ended(lines: Seq<Seq<u8>>) -> bool {
    forall|i: int| 0 <= i < lines.len() ==> is_ended(#[trigger] lines[i])
}

proof fn lemma_open_line(stream: Seq<u8>)
    ensures
        forall|i: int| 0 <= i < open_line(stream).len() ==> #[trigger] open_line(stream)[i] != NEWLINE,
    decreases stream.len(),
{
    if stream.len() > 0 && stream.last() != NEWLINE {
        let rest = open_line(stream.drop_last());
        lemma_open_line(stream.drop_last());
        assert forall|i: int| 0 <= i < open_line(stream).len() implies #[trigger] open_line(
            stream,
        )[i] != NEWLINE by {
            if i < rest.len() {
                assert(open_line(stream)[i] == rest[i]);
            }
        }
    }
}

proof fn lemma_last_within_ended(lines: Seq<Seq<u8>>, budget: int)
    requires
        are_ended(lines),
    ensures
        are_ended(last_within(lines, budget)),
    decreases lines.len(),
{
    if lines.len() > 0 && lines.last().len() <= budget {
        let rest = lines.drop_last();
        lemma_last_within_ended(rest, budget - lines.last().len());
        assert(is_ended(lines[lines.len() - 1]));
    }
}

/// The lines kept within a bound take no more than the bound.
pub proof fn lemma_last_within_fits(lines: Seq<Seq<u8>>, budget: int)
    requires
        budget >= 0,
    ensures
        flat(last_within(lines, budget)).len() <= budget,
    decreases lines.len(),
{
    if lines.len() > 0 && lines.last().len() <= budget {
        let rest = lines.drop_last();
        lemma_last_within_fits(rest, budget - lines.last().len());
        let kept = last_within(lines, budget);
        assert(kept.drop_last() =~= last_within(rest, budget - lines.last().len()));
        assert(kept.last() == lines.last());
    }
}

proof fn lemma_flat_first(lines: Seq<Seq<u8>>)
    requires
        lines.len() > 0,
    ensures
        flat(lines) == lines[0] + flat(lines.drop_first()),
    decreases lines.len(),
{
    if lines.len() == 1 {
        assert(lines.drop_last() =~= Seq::empty());
        assert(lines.drop_first() =~= Seq::empty());
        assert(flat(lines) =~= lines[0] + flat(lines.drop_first()));
    } else {
        lemma_flat_first(lines.drop_last());
        assert(lines.drop_last().drop_first() =~= lines.drop_first().drop_last());
        assert(lines.drop_first().last() == lines.last());
        assert(flat(lines) =~= lines[0] + flat(lines.drop_first()));
    }
}

/// Lines that fit are all kept.
proof fn lemma_last_within_all(lines: Seq<Seq<u8>>, budget: int)
    requires
        flat(lines).len() <= budget,
    ensures
        last_within(lines, budget) == lines,
    decreases lines.len(),
{
    if lines.len() > 0 {
        lemma_last_within_all(lines.drop_last(), budget - lines.last().len());
        assert(last_within(lines, budget) =~= lines);
    } else {
        assert(last_within(lines, budget) =~= lines);
    }
}

/// Of lines that do not fit the first is not kept.
proof fn lemma_last_within_skips(lines: Seq<Seq<u8>>, budget: int)
    requires
        lines.len() > 0,
        flat(lines).len() > budget,
    ensures
        last_within(lines, budget) == last_within(lines.drop_first(), budget),
    decreases lines.len(),
{
    let rest = lines.drop_last();
    if lines.len() == 1 {
        assert(rest =~= Seq::empty());
        assert(lines.drop_first() =~= Seq::empty());
        assert(flat(rest) =~= Seq::empty());
        assert(flat(lines) =~= lines.last());
    } else {
        assert(lines.drop_first().last() == lines.last());
        assert(lines.drop_first().drop_last() =~= rest.drop_first());
        if lines.last().len() <= budget {
            lemma_last_within_skips(rest, budget - lines.last().len());
        }
    }
}

/// A smaller bound keeps the same of what a larger bound kept.
proof fn lemma_last_within_again(lines: Seq<Seq<u8>>, budget: int, smaller: int)
    requires
        smaller <= budget,
    ensures
        last_within(last_within(lines, budget), smaller) == last_within(lines, smaller),
    decreases lines.len(),
{
    if lines.len() > 0 && lines.last().len() <= budget {
        let kept = last_within(lines, budget);
        let rest = lines.drop_last();
        assert(kept.last() == lines.last());
        assert(kept.drop_last() =~= last_within(rest, budget - lines.last().len()));
        if lines.last().len() <= smaller {
            lemma_last_within_again(
                rest,
                budget - lines.last().len(),
                smaller - lines.last().len(),
            );
        }
    }
}

// ---------------------------------------------------------------------------
// Capture
// ---------------------------------------------------------------------------

/// Keeps the last whole lines of a stream within a bound, however the stream
/// is cut into pieces.
pub struct BoundedStderr {
    complete: Vec<u8>,
    line: Vec<u8>,
    dropping_line: bool,
    seen: Ghost<Seq<u8>>,
}

impl View for BoundedStderr {
    type V = Seq<u8>;

    /// The stream so far.
    closed spec fn view(&self) -> Seq<u8> {
        self.seen@
    }
}

impl Default for BoundedStderr {
    fn default() -> (result: Self)
        ensures
            result.well_formed(),
            result@ == Seq::<u8>::empty(),
    {
        let result = BoundedStderr {
            complete: Vec::new(),
            line: Vec::new(),
            dropping_line: false,
            seen: Ghost(Seq::empty()),
        };
        assert(result.complete@ =~= flat(result.kept()));
        assert(result.line@ =~= open_line(result@));
        result
    }
}

impl BoundedStderr {
    /// The ended lines that are kept.
    closed spec fn kept(self) -> Seq<Seq<u8>> {
        last_within(
            short_lines(ended_lines(self.seen@)),
            MAX_REALIZATION_DIAGNOSTIC_BYTES as int,
        )
    }

    /// The buffers hold what is kept of the stream so far.
    pub closed spec fn well_formed(self) -> bool {
        &&& self.complete@ == flat(self.kept())
        &&& are_ended(self.kept())
        &&& if self.dropping_line {
            self.line@.len() == 0 && open_line(self.seen@).len() > MAX_REALIZATION_DIAGNOSTIC_BYTES
        } else {
            self.line@ == open_line(self.seen@) && self.line@.len()
                <= MAX_REALIZATION_DIAGNOSTIC_BYTES
        }
    }

    /// Takes the next piece of the stream.
    pub fn push(&mut self, chunk: &[u8])
        requires
            old(self).well_formed(),
        ensures
            final(self).well_formed(),
            final(self)@ == old(self)@ + chunk@,
    {
        let ghost before = self@;
        assert(before + chunk@.take(0) =~= before);
        for i in 0..chunk.len()
            invariant
                self.well_formed(),
                self@ == before + chunk@.take(i as int),
        {
            self.push_byte(chunk[i]);
            assert(self@ =~= before + chunk@.take(i + 1));
        }
        assert(chunk@.take(chunk.len() as int) =~= chunk@);
    }

    fn push_byte(&mut self, byte: u8)
        requires
            old(self).well_formed(),
        ensures
            final(self).well_formed(),
            final(self)@ == old(self)@.push(byte),
    {
        let ghost before = self.seen@;
        let ghost after = before.push(byte);
        let ghost kept = self.kept();
        proof {
            assert(after.drop_last() =~= before);
            assert(after.last() == byte);
            lemma_open_line(before);
            lemma_last_within_fits(
                short_lines(ended_lines(before)),
                MAX_REALIZATION_DIAGNOSTIC_BYTES as int,
            );
        }
        if self.dropping_line {
            if byte == NEWLINE {
                self.dropping_line = false;
            }
            self.seen = Ghost(after);
            proof {
                if byte == NEWLINE {
                    self.lemma_long_line(before);
                    assert(self.line@ =~= open_line(after));
                }
            }
            return;
        }
        if self.line.len() == MAX_REALIZATION_DIAGNOSTIC_BYTES {
            self.line.clear();
            self.dropping_line = byte != NEWLINE;
            self.seen = Ghost(after);
            proof {
                if byte == NEWLINE {
                    self.lemma_long_line(before);
                    assert(self.line@ =~= open_line(after));
                }
            }
            return;
        }
        self.line.push(byte);
        if byte == NEWLINE {
            let ghost line = self.line@;
            proof {
                assert(line == open_line(before).push(NEWLINE));
                assert forall|k: int| 0 <= k < line.len() - 1 implies #[trigger] line[k]
                    != NEWLINE by {
                    assert(line[k] == open_line(before)[k]);
                }
                assert(is_ended(line));
            }
            self.finish_line(Ghost(kept));
            self.seen = Ghost(after);
            proof {
                let lines = short_lines(ended_lines(before));
                let all = short_lines(ended_lines(after));
                assert(ended_lines(after).drop_last() =~= ended_lines(before));
                assert(ended_lines(after).last() == line);
                assert(all =~= lines.push(line));
                lemma_push_within(lines, line);
                assert(self.line@ =~= open_line(after));
                let rest = last_within(
                    kept,
                    MAX_REALIZATION_DIAGNOSTIC_BYTES - line.len(),
                );
                lemma_last_within_ended(kept, MAX_REALIZATION_DIAGNOSTIC_BYTES - line.len());
                assert(self.kept() == rest.push(line));
                assert(rest.push(line).drop_last() =~= rest);
            }
        } else {
            self.seen = Ghost(after);
        }
    }

    /// Nothing changes for the kept lines when an overlong line ends.
    proof fn lemma_long_line(self, before: Seq<u8>)
        requires
            self.seen@ == before.push(NEWLINE),
            open_line(before).len() >= MAX_REALIZATION_DIAGNOSTIC_BYTES,
        ensures
            self.kept() == last_within(
                short_lines(ended_lines(before)),
                MAX_REALIZATION_DIAGNOSTIC_BYTES as int,
            ),
    {
        let after = before.push(NEWLINE);
        assert(after.drop_last() =~= before);
        assert(ended_lines(after).drop_last() =~= ended_lines(before));
    }

    /// Moves the current line behind the kept ones, making room for it.
    fn finish_line(&mut self, Ghost(kept): Ghost<Seq<Seq<u8>>>)
        requires
            old(self).complete@ == flat(kept),
            are_ended(kept),
            old(self).line@.len() <= MAX_REALIZATION_DIAGNOSTIC_BYTES,
            flat(kept).len() <= MAX_REALIZATION_DIAGNOSTIC_BYTES,
        ensures
            final(self).complete@ == flat(
                last_within(
                    kept,
                    MAX_REALIZATION_DIAGNOSTIC_BYTES - old(self).line@.len(),
                ),
            ) + old(self).line@,
            final(self).line@.len() == 0,
            final(self).dropping_line == old(self).dropping_line,
            final(self).seen == old(self).seen,
    {
        let ghost line = self.line@;
        let ghost budget = MAX_REALIZATION_DIAGNOSTIC_BYTES - line.len();
        let ghost mut lines = kept;
        while self.complete.len() + self.line.len() > MAX_REALIZATION_DIAGNOSTIC_BYTES
            invariant
                self.complete@ == flat(lines),
                are_ended(lines),
                self.line@ == line,
                line == old(self).line@,
                line.len() <= MAX_REALIZATION_DIAGNOSTIC_BYTES,
                budget == MAX_REALIZATION_DIAGNOSTIC_BYTES - line.len(),
                flat(lines).len() <= MAX_REALIZATION_DIAGNOSTIC_BYTES,
                last_within(lines, budget) == last_within(kept, budget),
                self.dropping_line == old(self).dropping_line,
                self.seen == old(self).seen,
            decreases self.complete.len(),
        {
            proof {
                assert(lines.len() > 0) by {
                    if lines.len() == 0 {
                        assert(flat(lines).len() == 0);
                    }
                }
                lemma_flat_first(lines);
                lemma_last_within_skips(lines, budget);
                assert(is_ended(lines[0]));
            }
            let end = self.first_line_end(Ghost(lines));
            let mut rest: Vec<u8> = Vec::new();
            let ghost whole = self.complete@;
            for i in end..self.complete.len()
                invariant
                    whole == self.complete@,
                    0 < end <= whole.len(),
                    rest@ == whole.subrange(end as int, i as int),
            {
                rest.push(self.complete[i]);
                assert(rest@ =~= whole.subrange(end as int, i + 1));
            }
            proof {
                let tail = lines.drop_first();
                assert(rest@ =~= flat(tail));
                assert forall|k: int| 0 <= k < tail.len() implies is_ended(#[trigger] tail[k]) by {
                    assert(tail[k] == lines[k + 1]);
                }
                lines = tail;
            }
            self.complete = rest;
        }
        proof {
            lemma_last_within_all(lines, budget);
        }
        let ghost room = self.complete@;
        let count = self.line.len();
        assert(room + line.take(0) =~= room);
        for i in 0..count
            invariant
                count == line.len(),
                self.line@ == line,
                self.complete@ == room + line.take(i as int),
                self.dropping_line == old(self).dropping_line,
                self.seen == old(self).seen,
        {
            let byte = self.line[i];
            self.complete.push(byte);
            assert(self.complete@ =~= room + line.take(i + 1));
        }
        assert(line.take(line.len() as int) =~= line);
        self.line.clear();
    }

    /// Where the first of the kept lines ends.
    fn first_line_end(&self, Ghost(lines): Ghost<Seq<Seq<u8>>>) -> (result: usize)
        requires
            lines.len() > 0,
            self.complete@ == lines[0] + flat(lines.drop_first()),
            is_ended(lines[0]),
        ensures
            result == lines[0].len(),
            0 < result <= self.complete.len(),
    {
        let mut end: usize = 0;
        while end < self.complete.len() && self.complete[end] != NEWLINE
            invariant
                lines.len() > 0,
                self.complete@ == lines[0] + flat(lines.drop_first()),
                is_ended(lines[0]),
                end < lines[0].len(),
            decreases self.complete.len() - end,
        {
            assert(self.complete@[end as int] == lines[0][end as int]);
            assert(end as int != lines[0].len() - 1);
            end += 1;
        }
        assert(self.complete@[end as int] == lines[0][end as int]);
        assert(end as int == lines[0].len() - 1) by {
            if end < lines[0].len() - 1 {
                assert(lines[0][end as int] != NEWLINE);
            }
        }
        end + 1
    }

    /// Ends the stream and gives what is kept of it.
    pub fn finish(self) -> (result: Vec<u8>)
        requires
            self.well_formed(),
        ensures
            result@ == retained(self@),
            result@.len() <= MAX_REALIZATION_DIAGNOSTIC_BYTES,
    {
        let mut capture = self;
        let ghost stream = self.seen@;
        let ghost ended = ended_lines(stream);
        let ghost open = open_line(stream);
        let ghost kept = self.kept();
        proof {
            lemma_last_within_fits(
                short_lines(ended),
                MAX_REALIZATION_DIAGNOSTIC_BYTES as int,
            );
            lemma_last_within_fits(
                short_lines(all_lines(stream)),
                MAX_REALIZATION_DIAGNOSTIC_BYTES as int,
            );
            if open.len() > 0 {
                assert(all_lines(stream).drop_last() =~= ended);
                assert(all_lines(stream).last() == open);
            }
        }
        if !capture.dropping_line && capture.line.len() > 0 {
            capture.finish_line(Ghost(kept));
            proof {
                let lines = short_lines(ended);
                assert(short_lines(all_lines(stream)) =~= lines.push(open));
                lemma_push_within(lines, open);
                let rest = last_within(kept, MAX_REALIZATION_DIAGNOSTIC_BYTES - open.len());
                assert(rest.push(open).drop_last() =~= rest);
            }
        }
        capture.complete
    }
}

/// A new line takes the place of the oldest ones.
proof fn lemma_push_within(lines: Seq<Seq<u8>>, line: Seq<u8>)
    requires
        line.len() <= MAX_REALIZATION_DIAGNOSTIC_BYTES,
    ensures
        last_within(lines.push(line), MAX_REALIZATION_DIAGNOSTIC_BYTES as int) == last_within(
            last_within(lines, MAX_REALIZATION_DIAGNOSTIC_BYTES as int),
            MAX_REALIZATION_DIAGNOSTIC_BYTES - line.len(),
        ).push(line),
{
    assert(lines.push(line).drop_last() =~= lines);
    lemma_last_within_again(
        lines,
        MAX_REALIZATION_DIAGNOSTIC_BYTES as int,
        MAX_REALIZATION_DIAGNOSTIC_BYTES - line.len(),
    );
}

/// What is kept of a stream never exceeds the bound.
pub proof fn law_retained_is_bounded(stream: Seq<u8>)
    ensures
        retained(stream).len() <= MAX_REALIZATION_DIAGNOSTIC_BYTES,
{
    lemma_last_within_fits(
        short_lines(all_lines(stream)),
        MAX_REALIZATION_DIAGNOSTIC_BYTES as int,
    );
}

/// A short stream is kept whole.
pub proof fn law_short_stream_is_retained(stream: Seq<u8>)
    requires
        stream.len() <= MAX_REALIZATION_DIAGNOSTIC_BYTES,
    ensures
        retained(stream) == stream,
{
    lemma_lines_make_stream(stream);
    let lines = all_lines(stream);
    lemma_short_lines_all(lines);
    lemma_last_within_all(lines, MAX_REALIZATION_DIAGNOSTIC_BYTES as int);
}

proof fn lemma_lines_make_stream(stream: Seq<u8>)
    ensures
        flat(ended_lines(stream)) + open_line(stream) == stream,
        flat(all_lines(stream)) == stream,
    decreases stream.len(),
{
    if stream.len() > 0 {
        let rest = stream.drop_last();
        lemma_lines_make_stream(rest);
        assert(rest.push(stream.last()) =~= stream);
        if stream.last() == NEWLINE {
            let lines = ended_lines(stream);
            assert(lines.drop_last() =~= ended_lines(rest));
            assert(flat(lines) =~= stream);
            assert(flat(lines) + open_line(stream) =~= stream);
        } else {
            assert(flat(ended_lines(stream)) + open_line(stream) =~= stream);
        }
    } else {
        assert(flat(ended_lines(stream)) + open_line(stream) =~= stream);
    }
    if open_line(stream).len() > 0 {
        let lines = all_lines(stream);
        assert(lines.drop_last() =~= ended_lines(stream));
        assert(lines.last() == open_line(stream));
    } else {
        assert(flat(ended_lines(stream)) =~= stream);
    }
}

proof fn lemma_short_lines_all(lines: Seq<Seq<u8>>)
    requires
        flat(lines).len() <= MAX_REALIZATION_DIAGNOSTIC_BYTES,
    ensures
        short_lines(lines) == lines,
    decreases lines.len(),
{
    if lines.len() > 0 {
        lemma_short_lines_all(lines.drop_last());
        assert(short_lines(lines) =~= lines);
    } else {
        assert(short_lines(lines) =~= lines);
    }
}

/// What is kept of a stream are whole lines from its end, in order: as many of
/// those that are no longer than the bound as fit into it together.
pub proof fn law_the_longest_tail_is_retained(stream: Seq<u8>) -> (from: int)
    ensures
        ({
            let lines = all_lines(stream).filter(
                |line: Seq<u8>| line.len() <= MAX_REALIZATION_DIAGNOSTIC_BYTES,
            );
            &&& 0 <= from <= lines.len()
            &&& retained(stream) == flat(lines.skip(from))
            &&& from > 0 ==> flat(lines.skip(from - 1)).len() > MAX_REALIZATION_DIAGNOSTIC_BYTES
        }),
{
    let lines = short_lines(all_lines(stream));
    lemma_short_are_filtered(all_lines(stream));
    lemma_longest_tail(lines, MAX_REALIZATION_DIAGNOSTIC_BYTES as int)
}

proof fn lemma_short_are_filtered(lines: Seq<Seq<u8>>)
    ensures
        short_lines(lines) == lines.filter(
            |line: Seq<u8>| line.len() <= MAX_REALIZATION_DIAGNOSTIC_BYTES,
        ),
    decreases lines.len(),
{
    reveal(Seq::filter);
    if lines.len() > 0 {
        lemma_short_are_filtered(lines.drop_last());
    }
}

proof fn lemma_longest_tail(lines: Seq<Seq<u8>>, budget: int) -> (from: int)
    requires
        budget >= 0,
    ensures
        0 <= from <= lines.len(),
        last_within(lines, budget) == lines.skip(from),
        from > 0 ==> flat(lines.skip(from - 1)).len() > budget,
    decreases lines.len(),
{
    if lines.len() == 0 {
        assert(last_within(lines, budget) =~= lines.skip(0));
        0
    } else if lines.last().len() > budget {
        let from = lines.len() as int;
        assert(lines.skip(from) =~= Seq::empty());
        let last = lines.skip(from - 1);
        assert(last =~= seq![lines.last()]);
        assert(last.drop_last() =~= Seq::empty());
        assert(flat(last.drop_last()) =~= Seq::empty());
        assert(last.last() == lines.last());
        assert(flat(last) =~= lines.last());
        from
    } else {
        let rest = lines.drop_last();
        let from = lemma_longest_tail(rest, budget - lines.last().len());
        assert(rest.skip(from).push(lines.last()) =~= lines.skip(from));
        if from > 0 {
            let longer = lines.skip(from - 1);
            assert(longer.drop_last() =~= rest.skip(from - 1));
            assert(longer.last() == lines.last());
        }
        from
    }
}

/// The lines of a stream are the stream: written one after the other they give
/// it back. A line ends at a line feed, which belongs to it, and holds no other.
pub proof fn law_lines_are_the_stream(stream: Seq<u8>, i: int)
    ensures
        flat(all_lines(stream)) == stream,
        0 <= i < all_lines(stream).len() ==> all_lines(stream)[i].len() > 0 && forall|k: int|
            0 <= k < all_lines(stream)[i].len() - 1 ==> #[trigger] all_lines(stream)[i][k] != 10,
        0 <= i < all_lines(stream).len() - 1 ==> all_lines(stream)[i].last() == 10,
{
    lemma_lines_are_ended(stream);
    lemma_open_line(stream);
    lemma_lines_make_stream(stream);
    let ended = ended_lines(stream);
    if 0 <= i < ended.len() {
        assert(is_ended(ended[i]));
    }
}

proof fn lemma_lines_are_ended(stream: Seq<u8>)
    ensures
        are_ended(ended_lines(stream)),
    decreases stream.len(),
{
    if stream.len() > 0 {
        lemma_lines_are_ended(stream.drop_last());
        lemma_open_line(stream.drop_last());
        if stream.last() == NEWLINE {
            let line = open_line(stream.drop_last()).push(NEWLINE);
            assert(is_ended(line));
        }
    }
}

} // verus!
