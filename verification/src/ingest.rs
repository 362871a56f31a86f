//! Taking in a submitted batch: one log event for every non-empty line.

use crate::models::{texts_view, LogEvent};
use crate::parsers::{label_view, parsed_line, ParsedEvent};
use crate::text::{chars_of, find_char, split_segments, text_of};
use vstd::prelude::*;

verus! {

/// The lines of `lines` that are not empty, in order.
pub open spec fn keep_non_empty(lines: Seq<Seq<char>>) -> Seq<Seq<char>>
    decreases lines.len(),
{
    if lines.len() == 0 {
        Seq::empty()
    } else if lines.last().len() > 0 {
        keep_non_empty(lines.drop_last()).push(lines.last())
    } else {
        keep_non_empty(lines.drop_last())
    }
}

/// The lines of a batch: what stands between line feeds, empty lines left out.
pub open spec fn batch_lines(body: Seq<char>) -> Seq<Seq<char>> {
    keep_non_empty(split_segments(body, '\n'))
}

/// Whether `event` is what the line `line` gives.
pub open spec fn is_event_of(event: LogEvent, line: Seq<char>) -> bool {
    &&& event.raw@ == line
    &&& event.fields.wf()
    &&& label_view(event.parser) == parsed_line(line).parser
    &&& event.fields@ == parsed_line(line).fields
}

/// The non-empty lines of a batch, in order.
pub fn lines_of(body: &str) -> (lines: Vec<String>)
    ensures
        texts_view(lines@) == batch_lines(body@),
{
    let chars = chars_of(body);
    let n = chars.len();
    let mut lines: Vec<String> = Vec::new();
    let mut start: usize = 0;
    let ghost mut done: Seq<Seq<char>> = Seq::empty();
    proof {
        assert(chars@.skip(0) =~= chars@);
        assert(done + split_segments(chars@.skip(0), '\n') =~= split_segments(chars@, '\n'));
        assert(texts_view(lines@) =~= keep_non_empty(done));
    }
    loop
        invariant
            start <= n,
            n == chars.len(),
            chars@ == body@,
            split_segments(chars@, '\n') == done + split_segments(chars@.skip(start as int), '\n'),
            texts_view(lines@) == keep_non_empty(done),
        decreases n - start,
    {
        let end = find_char(&chars, start, n, '\n');
        let ghost rest = chars@.skip(start as int);
        let ghost segment = chars@.subrange(start as int, end as int);
        let ghost kept = texts_view(lines@);
        proof {
            assert(rest =~= chars@.subrange(start as int, n as int));
            assert(done.push(segment).drop_last() =~= done);
        }
        if end > start {
            lines.push(text_of(&chars, start, end));
            assert(texts_view(lines@) =~= kept.push(segment));
        }
        if end == n {
            proof {
                assert(segment =~= rest);
                assert(done + seq![rest] =~= done.push(segment));
            }
            return lines;
        }
        proof {
            assert(rest.take(end - start) =~= segment);
            assert(rest.skip(end - start + 1) =~= chars@.skip(end + 1));
            assert(done + (seq![segment] + split_segments(chars@.skip(end + 1), '\n'))
                =~= done.push(segment) + split_segments(chars@.skip(end + 1), '\n'));
            done = done.push(segment);
        }
        start = end + 1;
    }
}

impl LogEvent {
    /// The log event of a line that has been through the parsers.
    pub fn from_parsed(event: ParsedEvent) -> (log: LogEvent)
        ensures
            log.time == event.time,
            log.raw == event.input_string,
            log.fields == event.fields,
            log.parser == event.parser,
    {
        LogEvent {
            time: event.time,
            raw: event.input_string,
            fields: event.fields,
            parser: event.parser,
        }
    }

    /// Takes in one line now: stamps it, parses it and makes its log event.
    pub fn from_line(line: String) -> (log: LogEvent)
        ensures
            is_event_of(log, line@),
    {
        let mut event = ParsedEvent::new(line);
        event.parse();
        LogEvent::from_parsed(event)
    }
}

/// Takes in a batch: one log event for every non-empty line, in order. An
/// empty result means that the batch held no line at all.
pub fn read_batch(body: &str) -> (events: Vec<LogEvent>)
    ensures
        events.len() == batch_lines(body@).len(),
        forall|i: int|
            0 <= i < events.len() ==> is_event_of(#[trigger] events[i], batch_lines(body@)[i]),
{
    let lines = lines_of(body);
    let ghost all = texts_view(lines@);
    let mut events: Vec<LogEvent> = Vec::new();
    let n = lines.len();
    let mut i: usize = 0;
    while i < n
        invariant
            i <= n,
            n == lines.len(),
            all == batch_lines(body@),
            all == texts_view(lines@),
            events.len() == i,
            forall|j: int| 0 <= j < i ==> is_event_of(#[trigger] events[j], all[j]),
        decreases n - i,
    {
        let line = lines[i].clone();
        assert(line@ == all[i as int]);
        events.push(LogEvent::from_line(line));
        i += 1;
    }
    events
}

} // verus!
