//! The model of the framer: what one call of the decoder does to the bytes
//! that are buffered, stated over sequences of bytes.
//!
//! A line ends with a carriage return and a line feed. The decoder looks for
//! that pair in a window of the buffer that ends at most one byte past the
//! length limit. A line that does not end inside the window is too long: it
//! is reported once, and then thrown away as it arrives, until a line end
//! shows up in a window.

use vstd::prelude::*;

verus! {

/// Carriage return.
pub const CR: u8 = 0x0d;

/// Line feed.
pub const LF: u8 = 0x0a;

/// What the decoder remembers between two calls.
pub struct FramerState {
    /// The limit on the length of a line, its line end included.
    pub max_length: nat,
    /// Where in the buffer the next search for a line end starts.
    pub next_index: nat,
    /// Whether the rest of a line that was too long is being thrown away.
    pub is_discarding: bool,
}

/// What one call finds.
pub enum Scan {
    /// No complete line yet.
    Pending,
    /// A line, with its line end.
    Line(Seq<u8>),
    /// A line that is longer than the limit allows.
    TooLong,
}

/// The outcome of one call: the state and the buffer that it leaves, and what
/// it found.
pub struct Step {
    pub state: FramerState,
    pub rest: Seq<u8>,
    pub scan: Scan,
}

/// Whether a line end starts at `i`.
pub open spec fn crlf_at(s: Seq<u8>, i: int) -> bool {
    0 <= i && i + 1 < s.len() && s[i] == CR && s[i + 1] == LF
}

/// Where the first line end starts that lies within `from..to`, both of its
/// bytes.
pub open spec fn first_crlf(s: Seq<u8>, from: int, to: int) -> Option<int>
    decreases to - from,
{
    if from + 1 >= to {
        None
    } else if s[from] == CR && s[from + 1] == LF {
        Some(from)
    } else {
        first_crlf(s, from + 1, to)
    }
}

/// Where the window of one search ends: one byte past the limit, or at the
/// end of the buffer if that comes first.
pub open spec fn window_end(max_length: nat, len: nat) -> nat {
    if len <= max_length {
        len
    } else {
        max_length + 1
    }
}

/// The state in which a line is looked for from the start of the buffer.
pub open spec fn reading(max_length: nat) -> FramerState {
    FramerState { max_length, next_index: 0, is_discarding: false }
}

/// The state in which bytes are thrown away from the start of the buffer.
pub open spec fn discarding(max_length: nat) -> FramerState {
    FramerState { max_length, next_index: 0, is_discarding: true }
}

/// One call of the decoder in state `state` on the buffer `buf`.
///
/// While discarding, a line end in the window ends the discarding, and the
/// call goes on behind it; with none in the window, the window is thrown away,
/// and the call goes on with what is left, if anything is. While reading, a
/// line end in the window gives a line. With none, a buffer longer than the
/// limit is a line too long, and the next call discards; a shorter one has
/// been searched to its end, and the next search starts there.
pub open spec fn spec_step(state: FramerState, buf: Seq<u8>) -> Step
    decreases buf.len(),
{
    let end = window_end(state.max_length, buf.len());
    let found = first_crlf(buf, state.next_index as int, end as int);
    if state.is_discarding {
        match found {
            Some(i) => {
                proof {
                    lemma_first_crlf(buf, state.next_index as int, end as int);
                }
                spec_step(reading(state.max_length), buf.skip(i + 2))
            },
            None => if end < buf.len() {
                spec_step(discarding(state.max_length), buf.skip(end as int))
            } else {
                Step {
                    state: discarding(state.max_length),
                    rest: Seq::empty(),
                    scan: Scan::Pending,
                }
            },
        }
    } else {
        match found {
            Some(i) => Step {
                state: reading(state.max_length),
                rest: buf.skip(i + 2),
                scan: Scan::Line(buf.take(i + 2)),
            },
            None => if buf.len() > state.max_length {
                Step {
                    state: FramerState { is_discarding: true, ..state },
                    rest: buf,
                    scan: Scan::TooLong,
                }
            } else {
                Step {
                    state: FramerState { next_index: end, ..state },
                    rest: buf,
                    scan: Scan::Pending,
                }
            },
        }
    }
}

/// What `first_crlf` returns is the first line end of the range, and it
/// returns none only where the range holds none.
pub proof fn lemma_first_crlf(s: Seq<u8>, from: int, to: int)
    requires
        0 <= from,
        to <= s.len(),
    ensures
        match first_crlf(s, from, to) {
            Some(i) => from <= i && i + 2 <= to && crlf_at(s, i) && forall|j: int|
                from <= j < i ==> !crlf_at(s, j),
            None => forall|j: int| from <= j && j + 2 <= to ==> !crlf_at(s, j),
        },
    decreases to - from,
{
    if from + 1 < to && !(s[from] == CR && s[from + 1] == LF) {
        lemma_first_crlf(s, from + 1, to);
    }
}

} // verus!
