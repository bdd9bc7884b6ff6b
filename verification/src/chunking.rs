//! What the decoder makes of its input as a whole, and how far that depends
//! on the pieces in which the input arrives.

use crate::framing::crlf_at;
use crate::framing::discarding;
use crate::framing::first_crlf;
use crate::framing::lemma_first_crlf;
use crate::framing::reading;
use crate::framing::spec_step;
use crate::framing::window_end;
use crate::framing::FramerState;
use crate::framing::Scan;
use crate::framing::Step;
use crate::framing::CR;
use crate::framing::LF;
use vstd::arithmetic::div_mod::lemma_mod_add_multiples_vanish;
use vstd::prelude::*;

verus! {

/// What a run of calls leaves and finds.
pub struct Run {
    pub state: FramerState,
    pub rest: Seq<u8>,
    /// What the calls found, in order, but for the last call, which found
    /// nothing.
    pub found: Seq<Scan>,
}

/// The calls of the decoder in state `state` on the buffer `buf`, one after
/// the other, until one finds nothing.
pub open spec fn spec_drain(state: FramerState, buf: Seq<u8>) -> Run
    decreases
            buf.len(),
            if state.is_discarding {
                0nat
            } else {
                1nat
            },
{
    let step = spec_step(state, buf);
    match step.scan {
        Scan::Pending => Run { state: step.state, rest: step.rest, found: Seq::empty() },
        _ => {
            proof {
                lemma_step_rest(state, buf);
            }
            let run = spec_drain(step.state, step.rest);
            Run { found: seq![step.scan] + run.found, ..run }
        },
    }
}

/// The input arrives in the pieces `chunks`, at a decoder that has seen
/// nothing yet: each piece is put behind what is left in the buffer, and then
/// the decoder is called until it finds nothing.
pub open spec fn spec_feed(max_length: nat, chunks: Seq<Seq<u8>>) -> Run
    decreases chunks.len(),
{
    if chunks.len() == 0 {
        Run { state: reading(max_length), rest: Seq::empty(), found: Seq::empty() }
    } else {
        let before = spec_feed(max_length, chunks.drop_last());
        let last = spec_drain(before.state, before.rest + chunks.last());
        Run { found: before.found + last.found, ..last }
    }
}

/// Whether no piece of `chunks` ends between the carriage return and the
/// line feed of a line end.
pub open spec fn pieces_keep_line_ends(chunks: Seq<Seq<u8>>) -> bool
    decreases chunks.len(),
{
    chunks.len() > 0 ==> {
        &&& pieces_keep_line_ends(chunks.drop_last())
        &&& !crlf_at(chunks.flatten(), chunks.drop_last().flatten().len() - 1)
    }
}

/// Whether no window that one call throws away ends between the carriage
/// return and the line feed of a line end.
pub open spec fn step_keeps_line_ends(state: FramerState, buf: Seq<u8>) -> bool
    decreases buf.len(),
{
    let end = window_end(state.max_length, buf.len());
    let found = first_crlf(buf, state.next_index as int, end as int);
    state.is_discarding && found is None && end < buf.len() ==> {
        &&& !crlf_at(buf, end - 1)
        &&& step_keeps_line_ends(discarding(state.max_length), buf.skip(end as int))
    }
}

/// Whether no window that a run of calls throws away ends between the
/// carriage return and the line feed of a line end.
pub open spec fn drain_keeps_line_ends(state: FramerState, buf: Seq<u8>) -> bool
    decreases
            buf.len(),
            if state.is_discarding {
                0nat
            } else {
                1nat
            },
{
    let step = spec_step(state, buf);
    &&& step_keeps_line_ends(state, buf)
    &&& !(step.scan is Pending) ==> {
        proof {
            lemma_step_rest(state, buf);
        }
        drain_keeps_line_ends(step.state, step.rest)
    }
}

/// Whether no window that is thrown away while the input arrives in the
/// pieces `chunks` ends between the carriage return and the line feed of a
/// line end.
pub open spec fn feed_keeps_line_ends(max_length: nat, chunks: Seq<Seq<u8>>) -> bool
    decreases chunks.len(),
{
    chunks.len() > 0 ==> {
        let before = spec_feed(max_length, chunks.drop_last());
        &&& feed_keeps_line_ends(max_length, chunks.drop_last())
        &&& drain_keeps_line_ends(before.state, before.rest + chunks.last())
    }
}

/// Whether a run found no line too long.
pub open spec fn none_too_long(found: Seq<Scan>) -> bool {
    forall|k: int| 0 <= k < found.len() ==> !(#[trigger] found[k] is TooLong)
}

/// The line end.
pub open spec fn line_end() -> Seq<u8> {
    seq![CR, LF]
}

/// Whether `s` holds no line end.
pub open spec fn has_no_line_end(s: Seq<u8>) -> bool {
    forall|j: int| !crlf_at(s, j)
}

/// Two lines, each with its line end.
pub open spec fn two_lines(first: Seq<u8>, second: Seq<u8>) -> Seq<u8> {
    first + line_end() + second + line_end()
}

/// A call that found something finds the same, and leaves the same state, when
/// more bytes stand behind the buffer; it leaves those bytes behind what it
/// left before. What is decided is not taken back by what arrives later.
pub proof fn lemma_step_append(state: FramerState, buf: Seq<u8>, more: Seq<u8>)
    requires
        !(spec_step(state, buf).scan is Pending),
    ensures
        spec_step(state, buf + more) == (Step {
            rest: spec_step(state, buf).rest + more,
            ..spec_step(state, buf)
        }),
    decreases buf.len(),
{
    let max = state.max_length;
    let all = buf + more;
    let end = window_end(max, buf.len());
    let from = state.next_index as int;
    let found = first_crlf(buf, from, end as int);
    lemma_first_crlf(buf, from, end as int);
    lemma_first_crlf_append(buf, more, from, end as int);
    match found {
        Some(i) => {
            lemma_first_crlf(all, from, end as int);
            lemma_first_crlf_extend(all, from, end as int, window_end(max, all.len()) as int);
            assert(all.skip(i + 2) =~= buf.skip(i + 2) + more);
            assert(all.take(i + 2) =~= buf.take(i + 2));
            if state.is_discarding {
                lemma_step_append(reading(max), buf.skip(i + 2), more);
            }
        },
        None => {
            assert(end == max + 1);
            assert(window_end(max, all.len()) == end);
            if state.is_discarding {
                assert(all.skip(end as int) =~= buf.skip(end as int) + more);
                lemma_step_append(discarding(max), buf.skip(end as int), more);
            }
        },
    }
}

/// Chunking does not matter: the decoder finds the same lines in the same
/// order, and is left with the same bytes in the same state, whether its
/// input arrives at once or in pieces, with the decoder called on each piece
/// until it finds nothing.
///
/// This holds as long as no line end is parted. A piece that ends between
/// the carriage return and the line feed of a line end parts it: behind such
/// a piece the search goes on with the line feed, and the line end is missed.
/// So does a window that is thrown away, with a carriage return as its last
/// byte, while a line too long is discarded. Where these windows lie depends
/// on the pieces, so both ways of arrival are asked to part no line end by
/// them.
pub proof fn lemma_chunking_invariance(max_length: nat, chunks: Seq<Seq<u8>>)
    requires
        pieces_keep_line_ends(chunks),
        drain_keeps_line_ends(reading(max_length), chunks.flatten()),
        feed_keeps_line_ends(max_length, chunks),
    ensures
        spec_feed(max_length, chunks) == spec_drain(reading(max_length), chunks.flatten()),
    decreases chunks.len(),
{
    let empty = Seq::<u8>::empty();
    if chunks.len() == 0 {
        assert(first_crlf(empty, 0, 0) is None);
    } else {
        let front = chunks.drop_last();
        let buf = front.flatten();
        let more = chunks.last();
        assert(front.push(more) =~= chunks);
        front.lemma_flatten_push(more);
        assert(chunks.flatten() == buf + more);
        // What is asked of the whole input holds of its front.
        lemma_drain_keeps_line_ends_shorter(reading(max_length), buf, more);
        lemma_chunking_invariance(max_length, front);
        lemma_drain_append(reading(max_length), buf, more);
    }
}

/// Chunking does not matter where every line is within the limit: if the
/// decoder, given its input at once, finds no line too long, it finds the
/// same lines in the same order, and is left with the same bytes in the same
/// state, when the input arrives in pieces none of which ends between the
/// carriage return and the line feed of a line end.
pub proof fn lemma_chunking_invariance_within_limit(max_length: nat, chunks: Seq<Seq<u8>>)
    requires
        pieces_keep_line_ends(chunks),
        none_too_long(spec_drain(reading(max_length), chunks.flatten()).found),
    ensures
        spec_feed(max_length, chunks) == spec_drain(reading(max_length), chunks.flatten()),
        none_too_long(spec_feed(max_length, chunks).found),
    decreases chunks.len(),
{
    let empty = Seq::<u8>::empty();
    if chunks.len() == 0 {
        assert(first_crlf(empty, 0, 0) is None);
    } else {
        let front = chunks.drop_last();
        let buf = front.flatten();
        let more = chunks.last();
        assert(front.push(more) =~= chunks);
        front.lemma_flatten_push(more);
        assert(chunks.flatten() == buf + more);
        // No line is too long in the whole input, so none is in its front,
        // and nothing is ever thrown away.
        lemma_drain_found_shorter(reading(max_length), buf, more);
        assert(none_too_long(spec_drain(reading(max_length), buf).found));
        lemma_within_limit_keeps_line_ends(reading(max_length), buf + more);
        lemma_within_limit_keeps_line_ends(reading(max_length), buf);
        lemma_chunking_invariance_within_limit(max_length, front);
        lemma_drain_append(reading(max_length), buf, more);
    }
}

/// After a line too long the decoder finds its way back: given a line that
/// is longer than the limit allows, its line end, and behind it a line within
/// the limit with its line end, the decoder reports the first line as too
/// long, once, then finds the second line, and nothing else; no byte is left
/// in the buffer.
///
/// This holds where the carriage return of the first line is not the last
/// byte of one of the windows in which the line is thrown away. Where it
/// is, it goes with its window, the line feed is no line end by itself, and
/// the second line is thrown away with the first.
pub proof fn lemma_discard_recovery(max_length: nat, long: Seq<u8>, short: Seq<u8>)
    requires
        has_no_line_end(long),
        has_no_line_end(short),
        long.len() + 2 > max_length + 1,
        short.len() + 2 <= max_length + 1,
        (long.len() + 1) % (max_length + 1) != 0,
    ensures
        spec_drain(reading(max_length), two_lines(long, short)) == (Run {
            state: reading(max_length),
            rest: Seq::empty(),
            found: seq![Scan::TooLong, Scan::Line(short + line_end())],
        }),
{
    let whole = two_lines(long, short);
    let end = window_end(max_length, whole.len()) as int;
    assert forall|j: int| 0 <= j && j + 2 <= end implies !crlf_at(whole, j) by {
        if j + 1 < long.len() {
            assert(!crlf_at(long, j));
        }
    }
    lemma_first_crlf_none(whole, 0, end);
    // The first call reports the line, and takes nothing.
    let first = spec_step(reading(max_length), whole);
    assert(first == Step { state: discarding(max_length), rest: whole, scan: Scan::TooLong });
    // The second call throws the line away and finds the next.
    assert(whole.skip(0) =~= whole);
    lemma_discard_to_next_line(max_length, long, short, 0);
    // The third call finds nothing in an empty buffer.
    let empty = Seq::<u8>::empty();
    let last = spec_drain(reading(max_length), empty);
    assert(last == Run { state: reading(max_length), rest: empty, found: Seq::empty() });
    let tail = spec_drain(discarding(max_length), whole);
    assert(tail.found =~= seq![Scan::Line(short + line_end())]);
    assert(spec_drain(reading(max_length), whole).found =~= seq![
        Scan::TooLong,
        Scan::Line(short + line_end()),
    ]);
}

/// A call leaves a tail of the buffer, and it leaves less than it was given
/// where it found a line or began, while discarding, with a line too long.
pub proof fn lemma_step_rest(state: FramerState, buf: Seq<u8>)
    ensures
        spec_step(state, buf).rest.len() <= buf.len(),
        spec_step(state, buf).rest == buf.skip(buf.len() - spec_step(state, buf).rest.len()),
        spec_step(state, buf).state.max_length == state.max_length,
        spec_step(state, buf).scan is Line ==> spec_step(state, buf).rest.len() < buf.len(),
        spec_step(state, buf).scan is TooLong ==> spec_step(state, buf).state.is_discarding,
        spec_step(state, buf).scan is TooLong && state.is_discarding ==> spec_step(
            state,
            buf,
        ).rest.len() < buf.len(),
    decreases buf.len(),
{
    let end = window_end(state.max_length, buf.len());
    let found = first_crlf(buf, state.next_index as int, end as int);
    lemma_first_crlf(buf, state.next_index as int, end as int);
    if state.is_discarding {
        match found {
            Some(i) => {
                let tail = buf.skip(i + 2);
                lemma_step_rest(reading(state.max_length), tail);
                let k = tail.len() - spec_step(reading(state.max_length), tail).rest.len();
                assert(tail.skip(k) =~= buf.skip(i + 2 + k));
            },
            None => {
                if end < buf.len() {
                    let tail = buf.skip(end as int);
                    lemma_step_rest(discarding(state.max_length), tail);
                    let k = tail.len() - spec_step(discarding(state.max_length), tail).rest.len();
                    assert(tail.skip(k) =~= buf.skip(end + k));
                } else {
                    assert(Seq::<u8>::empty() =~= buf.skip(buf.len() as int));
                }
            },
        }
    } else {
        match found {
            Some(i) => {},
            None => {
                assert(buf =~= buf.skip(0));
            },
        }
    }
}

/// The first line end of a range is what `first_crlf` returns for it.
proof fn lemma_first_crlf_is(s: Seq<u8>, from: int, to: int, i: int)
    requires
        0 <= from <= i,
        i + 2 <= to <= s.len(),
        crlf_at(s, i),
        forall|j: int| from <= j < i ==> !crlf_at(s, j),
    ensures
        first_crlf(s, from, to) == Some(i),
    decreases i - from,
{
    if from < i {
        assert(!crlf_at(s, from));
        lemma_first_crlf_is(s, from + 1, to, i);
    }
}

/// A range that holds no line end gets none from `first_crlf`.
proof fn lemma_first_crlf_none(s: Seq<u8>, from: int, to: int)
    requires
        0 <= from,
        to <= s.len(),
        forall|j: int| from <= j && j + 2 <= to ==> !crlf_at(s, j),
    ensures
        first_crlf(s, from, to) is None,
    decreases to - from,
{
    if from + 1 < to {
        assert(!crlf_at(s, from));
        lemma_first_crlf_none(s, from + 1, to);
    }
}

/// What a search finds in a range of `s` it finds in the same range of `s`
/// with more bytes behind it.
proof fn lemma_first_crlf_append(s: Seq<u8>, more: Seq<u8>, from: int, to: int)
    requires
        0 <= from,
        to <= s.len(),
    ensures
        first_crlf(s + more, from, to) == first_crlf(s, from, to),
    decreases to - from,
{
    if from + 1 < to {
        lemma_first_crlf_append(s, more, from + 1, to);
    }
}

/// A line end that a search finds is found by every search of a range that
/// starts at the same place and ends further on.
proof fn lemma_first_crlf_extend(s: Seq<u8>, from: int, to: int, further: int)
    requires
        0 <= from,
        to <= further <= s.len(),
        first_crlf(s, from, to) is Some,
    ensures
        first_crlf(s, from, further) == first_crlf(s, from, to),
{
    lemma_first_crlf(s, from, to);
    lemma_first_crlf_is(s, from, further, first_crlf(s, from, to)->0);
}

/// A search that starts further on finds the same, where no line end starts
/// in between.
proof fn lemma_first_crlf_from(s: Seq<u8>, from: int, later: int, to: int)
    requires
        0 <= from <= later,
        to <= s.len(),
        forall|j: int| from <= j < later ==> !crlf_at(s, j),
    ensures
        first_crlf(s, from, to) == first_crlf(s, later, to),
{
    lemma_first_crlf(s, later, to);
    match first_crlf(s, later, to) {
        Some(i) => {
            lemma_first_crlf_is(s, from, to, i);
        },
        None => {
            lemma_first_crlf_none(s, from, to);
        },
    }
}

/// A call keeps the place where the next search starts within the window of
/// that search.
proof fn lemma_step_next_index(state: FramerState, buf: Seq<u8>)
    requires
        state.next_index <= window_end(state.max_length, buf.len()),
    ensures
        spec_step(state, buf).state.next_index <= window_end(
            state.max_length,
            spec_step(state, buf).rest.len(),
        ),
    decreases buf.len(),
{
    let end = window_end(state.max_length, buf.len());
    let found = first_crlf(buf, state.next_index as int, end as int);
    lemma_first_crlf(buf, state.next_index as int, end as int);
    if state.is_discarding {
        match found {
            Some(i) => {
                lemma_step_next_index(reading(state.max_length), buf.skip(i + 2));
            },
            None => {
                if end < buf.len() {
                    lemma_step_next_index(discarding(state.max_length), buf.skip(end as int));
                }
            },
        }
    }
}

/// While discarding, a call that parts no line end throws away everything up
/// to the first line end that starts at or behind the place where its search
/// starts, and reads on behind it; and it throws away everything where there
/// is no such line end.
proof fn lemma_discard_finds_first(state: FramerState, buf: Seq<u8>)
    requires
        state.is_discarding,
        state.next_index <= window_end(state.max_length, buf.len()),
        step_keeps_line_ends(state, buf),
    ensures
        spec_step(state, buf) == match first_crlf(
            buf,
            state.next_index as int,
            buf.len() as int,
        ) {
            Some(i) => spec_step(reading(state.max_length), buf.skip(i + 2)),
            None => Step {
                state: discarding(state.max_length),
                rest: Seq::empty(),
                scan: Scan::Pending,
            },
        },
    decreases buf.len(),
{
    let max = state.max_length;
    let from = state.next_index as int;
    let end = window_end(max, buf.len()) as int;
    lemma_first_crlf(buf, from, end);
    match first_crlf(buf, from, end) {
        Some(i) => {
            lemma_first_crlf_extend(buf, from, end, buf.len() as int);
        },
        None => {
            if end < buf.len() {
                let tail = buf.skip(end);
                lemma_discard_finds_first(discarding(max), tail);
                lemma_first_crlf(tail, 0, tail.len() as int);
                assert forall|j: int| 0 <= j implies crlf_at(tail, j) == crlf_at(buf, end + j) by {}
                assert forall|j: int| from <= j < end implies !crlf_at(buf, j) by {}
                match first_crlf(tail, 0, tail.len() as int) {
                    Some(i) => {
                        assert forall|j: int| from <= j < end + i implies !crlf_at(buf, j) by {
                            if j >= end {
                                assert(!crlf_at(tail, j - end));
                            }
                        }
                        lemma_first_crlf_is(buf, from, buf.len() as int, end + i);
                        assert(tail.skip(i + 2) =~= buf.skip(end + i + 2));
                    },
                    None => {
                        assert forall|j: int| from <= j && j + 2 <= buf.len() implies !crlf_at(
                            buf,
                            j,
                        ) by {
                            if j >= end {
                                assert(!crlf_at(tail, j - end));
                            }
                        }
                        lemma_first_crlf_none(buf, from, buf.len() as int);
                    },
                }
            }
        },
    }
}

/// Where a call parts no line end in a buffer, it parts none in the same
/// buffer with fewer bytes at its end.
proof fn lemma_step_keeps_line_ends_shorter(state: FramerState, buf: Seq<u8>, more: Seq<u8>)
    requires
        step_keeps_line_ends(state, buf + more),
    ensures
        step_keeps_line_ends(state, buf),
    decreases buf.len(),
{
    let max = state.max_length;
    let all = buf + more;
    let from = state.next_index as int;
    let end = window_end(max, buf.len()) as int;
    if state.is_discarding && first_crlf(buf, from, end) is None && end < buf.len() {
        lemma_first_crlf_append(buf, more, from, end);
        assert(window_end(max, all.len()) == end);
        assert(all.skip(end) =~= buf.skip(end) + more);
        lemma_step_keeps_line_ends_shorter(discarding(max), buf.skip(end), more);
    }
}

/// Where a run parts no line end in a buffer, it parts none in the same
/// buffer with fewer bytes at its end.
proof fn lemma_drain_keeps_line_ends_shorter(state: FramerState, buf: Seq<u8>, more: Seq<u8>)
    requires
        drain_keeps_line_ends(state, buf + more),
    ensures
        drain_keeps_line_ends(state, buf),
    decreases
            buf.len(),
            if state.is_discarding {
                0nat
            } else {
                1nat
            },
{
    let step = spec_step(state, buf);
    lemma_step_keeps_line_ends_shorter(state, buf, more);
    if !(step.scan is Pending) {
        lemma_step_rest(state, buf);
        lemma_step_append(state, buf, more);
        lemma_drain_keeps_line_ends_shorter(step.state, step.rest, more);
    }
}

/// Two calls that find and leave the same are followed by the same calls.
proof fn lemma_same_step(state: FramerState, buf: Seq<u8>, other: FramerState, other_buf: Seq<u8>)
    requires
        spec_step(state, buf) == spec_step(other, other_buf),
    ensures
        spec_drain(state, buf) == spec_drain(other, other_buf),
        step_keeps_line_ends(state, buf) == step_keeps_line_ends(other, other_buf)
            ==> drain_keeps_line_ends(state, buf) == drain_keeps_line_ends(other, other_buf),
{
}

/// While reading, a buffer that was searched to its end and held no line
/// end can be searched on from there when more bytes have come: the run is
/// the same as if the search had not been made, where the buffer does not
/// end between the carriage return and the line feed of a line end.
proof fn lemma_resume_reading(state: FramerState, buf: Seq<u8>, more: Seq<u8>)
    requires
        !state.is_discarding,
        state.next_index <= buf.len(),
        spec_step(state, buf).scan is Pending,
        !crlf_at(buf + more, buf.len() - 1),
    ensures
        spec_drain(spec_step(state, buf).state, buf + more) == spec_drain(state, buf + more),
        drain_keeps_line_ends(spec_step(state, buf).state, buf + more) == drain_keeps_line_ends(
            state,
            buf + more,
        ),
{
    let max = state.max_length;
    let all = buf + more;
    let after = spec_step(state, buf).state;
    let from = state.next_index as int;
    let end = window_end(max, all.len()) as int;
    lemma_first_crlf(buf, from, buf.len() as int);
    assert forall|j: int| from <= j < buf.len() implies !crlf_at(all, j) by {
        if j + 2 <= buf.len() {
            assert(!crlf_at(buf, j));
        }
    }
    lemma_first_crlf_from(all, from, buf.len() as int, end);
    let first = spec_step(state, all);
    let resumed = spec_step(after, all);
    assert(first.scan == resumed.scan);
    assert(first.rest == resumed.rest);
    if first.scan is TooLong {
        // The two runs now discard, and start their search at different
        // places, with no line end in between.
        assert(spec_step(first.state, all) == spec_step(resumed.state, all));
        assert(step_keeps_line_ends(first.state, all) == step_keeps_line_ends(
            resumed.state,
            all,
        ));
        lemma_same_step(first.state, all, resumed.state, all);
    } else {
        assert(first.state == resumed.state);
    }
}

/// A run on a buffer, and then a run on what it left with more bytes behind
/// it, find together what one run finds on the buffer with those bytes behind
/// it at once, and leave the same: where the buffer does not end between the
/// carriage return and the line feed of a line end, the one run parts no line
/// end, and neither does the first call on what the first run left.
proof fn lemma_drain_append(state: FramerState, buf: Seq<u8>, more: Seq<u8>)
    requires
        state.next_index <= window_end(state.max_length, buf.len()),
        !crlf_at(buf + more, buf.len() - 1),
        drain_keeps_line_ends(state, buf + more),
        spec_drain(state, buf).state.is_discarding ==> step_keeps_line_ends(
            spec_drain(state, buf).state,
            spec_drain(state, buf).rest + more,
        ),
    ensures
        spec_drain(state, buf + more) == (Run {
            found: spec_drain(state, buf).found + spec_drain(
                spec_drain(state, buf).state,
                spec_drain(state, buf).rest + more,
            ).found,
            ..spec_drain(spec_drain(state, buf).state, spec_drain(state, buf).rest + more)
        }),
        drain_keeps_line_ends(state, buf),
        drain_keeps_line_ends(spec_drain(state, buf).state, spec_drain(state, buf).rest + more),
    decreases
            buf.len(),
            if state.is_discarding {
                0nat
            } else {
                1nat
            },
{
    let max = state.max_length;
    let all = buf + more;
    let step = spec_step(state, buf);
    let short = spec_drain(state, buf);
    lemma_step_rest(state, buf);
    lemma_step_next_index(state, buf);
    lemma_step_keeps_line_ends_shorter(state, buf, more);
    if step.scan is Pending {
        assert(short.found + spec_drain(short.state, short.rest + more).found =~= spec_drain(
            short.state,
            short.rest + more,
        ).found);
        if !state.is_discarding {
            lemma_resume_reading(state, buf, more);
        } else {
            let from = state.next_index as int;
            lemma_discard_finds_first(state, buf);
            lemma_discard_finds_first(state, all);
            lemma_first_crlf(buf, from, buf.len() as int);
            lemma_first_crlf_append(buf, more, from, buf.len() as int);
            match first_crlf(buf, from, buf.len() as int) {
                Some(i) => {
                    // The first run has found its way back to a line, and
                    // has searched the start of that line to the end.
                    lemma_first_crlf(all, from, buf.len() as int);
                    lemma_first_crlf_extend(all, from, buf.len() as int, all.len() as int);
                    let tail = buf.skip(i + 2);
                    assert(all.skip(i + 2) =~= tail + more);
                    lemma_resume_reading(reading(max), tail, more);
                    assert(spec_step(state, all) == spec_step(reading(max), tail + more));
                    lemma_same_step(state, all, reading(max), tail + more);
                },
                None => {
                    // The first run has thrown everything away.
                    assert(short.rest + more =~= more);
                    lemma_discard_finds_first(discarding(max), more);
                    lemma_first_crlf(more, 0, more.len() as int);
                    lemma_first_crlf(all, from, all.len() as int);
                    assert forall|j: int| 0 <= j implies crlf_at(more, j) == crlf_at(
                        all,
                        buf.len() + j,
                    ) by {}
                    assert forall|j: int| from <= j < buf.len() implies !crlf_at(all, j) by {
                        if j + 2 <= buf.len() {
                            assert(!crlf_at(buf, j));
                        }
                    }
                    match first_crlf(more, 0, more.len() as int) {
                        Some(i) => {
                            assert forall|j: int| from <= j < buf.len() + i implies !crlf_at(
                                all,
                                j,
                            ) by {
                                if j >= buf.len() {
                                    assert(!crlf_at(more, j - buf.len()));
                                }
                            }
                            lemma_first_crlf_is(all, from, all.len() as int, buf.len() + i);
                            assert(all.skip(buf.len() + i + 2) =~= more.skip(i + 2));
                        },
                        None => {
                            assert forall|j: int| from <= j && j + 2 <= all.len() implies !crlf_at(
                                all,
                                j,
                            ) by {
                                if j >= buf.len() {
                                    assert(!crlf_at(more, j - buf.len()));
                                }
                            }
                            lemma_first_crlf_none(all, from, all.len() as int);
                        },
                    }
                    assert(spec_step(state, all) == spec_step(discarding(max), more));
                    lemma_same_step(state, all, discarding(max), more);
                },
            }
        }
    } else {
        lemma_step_append(state, buf, more);
        let k = buf.len() - step.rest.len();
        assert(step.rest + more =~= all.skip(k));
        lemma_drain_append(step.state, step.rest, more);
        let rest = spec_drain(step.state, step.rest);
        let last = spec_drain(rest.state, rest.rest + more);
        assert(seq![step.scan] + (rest.found + last.found) =~= (seq![step.scan] + rest.found)
            + last.found);
    }
}

/// A run that finds no line too long, from a state in which nothing is being
/// thrown away, throws nothing away.
proof fn lemma_within_limit_keeps_line_ends(state: FramerState, buf: Seq<u8>)
    requires
        !state.is_discarding,
        none_too_long(spec_drain(state, buf).found),
    ensures
        drain_keeps_line_ends(state, buf),
        !spec_drain(state, buf).state.is_discarding,
    decreases buf.len(),
{
    let step = spec_step(state, buf);
    lemma_step_rest(state, buf);
    match step.scan {
        Scan::Pending => {},
        Scan::Line(_) => {
            let run = spec_drain(step.state, step.rest);
            assert forall|k: int| 0 <= k < run.found.len() implies !(#[trigger] run.found[k]
                is TooLong) by {
                assert(run.found[k] == spec_drain(state, buf).found[k + 1]);
            }
            lemma_within_limit_keeps_line_ends(step.state, step.rest);
        },
        Scan::TooLong => {
            assert(spec_drain(state, buf).found[0] is TooLong);
        },
    }
}

/// What a run finds in a buffer is found first by the run on the same
/// buffer with more bytes behind it.
proof fn lemma_drain_found_shorter(state: FramerState, buf: Seq<u8>, more: Seq<u8>)
    ensures
        spec_drain(state, buf).found.len() <= spec_drain(state, buf + more).found.len(),
        forall|k: int|
            0 <= k < spec_drain(state, buf).found.len() ==> spec_drain(state, buf).found[k]
                == spec_drain(state, buf + more).found[k],
    decreases
            buf.len(),
            if state.is_discarding {
                0nat
            } else {
                1nat
            },
{
    let step = spec_step(state, buf);
    if !(step.scan is Pending) {
        lemma_step_rest(state, buf);
        lemma_step_append(state, buf, more);
        lemma_drain_found_shorter(step.state, step.rest, more);
    }
}

/// Throwing away a line too long, window by window, from a place `pos` in
/// it where a window starts, ends at its line end and gives the line behind.
proof fn lemma_discard_to_next_line(max_length: nat, long: Seq<u8>, short: Seq<u8>, pos: int)
    requires
        has_no_line_end(long),
        has_no_line_end(short),
        short.len() + 2 <= max_length + 1,
        (long.len() + 1) % (max_length + 1) != 0,
        0 <= pos <= long.len(),
        pos % (max_length + 1) as int == 0,
    ensures
        spec_step(discarding(max_length), two_lines(long, short).skip(pos)) == (Step {
            state: reading(max_length),
            rest: Seq::empty(),
            scan: Scan::Line(short + line_end()),
        }),
    decreases long.len() - pos,
{
    let width = (max_length + 1) as int;
    let whole = two_lines(long, short);
    let left = whole.skip(pos);
    let end = window_end(max_length, left.len()) as int;
    let at = long.len() - pos;
    assert forall|j: int| 0 <= j < at implies !crlf_at(left, j) by {
        if j + 1 < at {
            assert(!crlf_at(long, pos + j));
        }
    }
    if at + 2 <= end {
        assert(crlf_at(left, at));
        lemma_first_crlf_is(left, 0, end, at);
        let line = short + line_end();
        assert(left.skip(at + 2) =~= line);
        assert forall|j: int| 0 <= j < short.len() implies !crlf_at(line, j) by {
            if j + 1 < short.len() {
                assert(!crlf_at(short, j));
            }
        }
        assert(crlf_at(line, short.len() as int));
        lemma_first_crlf_is(line, 0, line.len() as int, short.len() as int);
        assert(line.take(line.len() as int) =~= line);
        assert(line.skip(line.len() as int) =~= Seq::<u8>::empty());
        assert(spec_step(reading(max_length), line).scan == Scan::Line(line));
    } else {
        lemma_first_crlf_none(left, 0, end);
        lemma_mod_add_multiples_vanish(pos, width);
        assert(left.skip(end) =~= whole.skip(pos + width));
        lemma_discard_to_next_line(max_length, long, short, pos + width);
    }
}

} // verus!
