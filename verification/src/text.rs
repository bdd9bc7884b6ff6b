//! Text: the characters of a line, the classes of characters that the
//! grammar tells apart, and runs of characters of one class.

use vstd::prelude::*;
use vstd::utf8::decode_utf8;
use vstd::utf8::valid_utf8;

verus! {

/// `std::str::from_utf8`, without the reason of a failure: the text that
/// `bytes` are the UTF-8 encoding of, and `None` where they are the encoding
/// of none. Nothing of this is proved.
#[verifier::external_body]
pub(crate) fn utf8_text(bytes: &[u8]) -> (text: Option<&str>)
    ensures
        match text {
            Some(text) => valid_utf8(bytes@) && text@ == decode_utf8(bytes@),
            None => !valid_utf8(bytes@),
        },
{
    std::str::from_utf8(bytes).ok()
}

/// An ASCII letter, upper or lower case.
pub open spec fn is_letter(c: char) -> bool {
    ('a' <= c && c <= 'z') || ('A' <= c && c <= 'Z')
}

/// The sets of characters that the grammar reads runs of.
#[derive(Clone, Copy, Debug, PartialEq, Eq, Structural)]
pub enum CharClass {
    /// An ASCII letter: what a keyword and a nickname are made of.
    Letter,
    /// Anything but a space, a carriage return or a line feed.
    Token,
    /// Anything but a carriage return or a line feed.
    Text,
}

impl CharClass {
    /// Whether `c` belongs to the class.
    pub open spec fn holds(self, c: char) -> bool {
        match self {
            CharClass::Letter => is_letter(c),
            CharClass::Token => c != ' ' && c != '\r' && c != '\n',
            CharClass::Text => c != '\r' && c != '\n',
        }
    }

    /// Whether every character of `s` belongs to the class.
    pub open spec fn holds_all(self, s: Seq<char>) -> bool {
        forall|i: int| 0 <= i < s.len() ==> self.holds(#[trigger] s[i])
    }

    /// Tests whether `c` belongs to the class.
    pub fn test(self, c: char) -> (b: bool)
        ensures
            b == self.holds(c),
    {
        match self {
            CharClass::Letter => ('a' <= c && c <= 'z') || ('A' <= c && c <= 'Z'),
            CharClass::Token => c != ' ' && c != '\r' && c != '\n',
            CharClass::Text => c != '\r' && c != '\n',
        }
    }
}

/// The number of characters at the front of `s` that belong to `class`.
pub open spec fn span(s: Seq<char>, class: CharClass) -> nat
    decreases s.len(),
{
    if s.len() > 0 && class.holds(s[0]) {
        1 + span(s.drop_first(), class)
    } else {
        0
    }
}

/// A run never reaches beyond the text, it holds the class only, and the
/// character behind it, if there is one, is outside the class.
pub proof fn lemma_span(s: Seq<char>, class: CharClass)
    ensures
        span(s, class) <= s.len(),
        class.holds_all(s.take(span(s, class) as int)),
        span(s, class) < s.len() ==> !class.holds(s[span(s, class) as int]),
    decreases s.len(),
{
    if s.len() > 0 && class.holds(s[0]) {
        let t = s.drop_first();
        lemma_span(t, class);
        let n = span(s, class) as int;
        assert forall|i: int| 0 <= i < n implies class.holds(#[trigger] s.take(n)[i]) by {
            if i > 0 {
                assert(s.take(n)[i] == t.take(n - 1)[i - 1]);
            }
        }
        if n < s.len() {
            assert(s[n] == t[n - 1]);
        }
    }
}

/// A text that starts with `n` characters of the class, and then ends or goes
/// on with a character outside it, has a run of exactly `n`.
pub proof fn lemma_span_is(s: Seq<char>, class: CharClass, n: int)
    requires
        0 <= n <= s.len(),
        class.holds_all(s.take(n)),
        n < s.len() ==> !class.holds(s[n]),
    ensures
        span(s, class) == n,
    decreases n,
{
    if n > 0 {
        assert(s[0] == s.take(n)[0]);
        let t = s.drop_first();
        assert forall|i: int| 0 <= i < n - 1 implies class.holds(#[trigger] t.take(n - 1)[i]) by {
            assert(t.take(n - 1)[i] == s.take(n)[i + 1]);
        }
        if n < s.len() {
            assert(t[n - 1] == s[n]);
        }
        lemma_span_is(t, class, n - 1);
    }
}

/// The characters of `s`, in order.
pub(crate) fn chars_of(s: &str) -> (chars: Vec<char>)
    ensures
        chars@ == s@,
{
    let mut chars: Vec<char> = Vec::new();
    let it = s.chars();
    for c in iter: it
        invariant
            iter.seq() == s@,
            chars@ == iter.history(),
    {
        chars.push(c);
    }
    assert(chars@ =~= s@);
    chars
}

/// Reads the run of `class` that starts at `from` and returns where it ends.
pub(crate) fn scan(chars: &[char], from: usize, class: CharClass) -> (end: usize)
    requires
        from <= chars@.len(),
    ensures
        from <= end <= chars@.len(),
        end - from == span(chars@.skip(from as int), class),
{
    let mut end: usize = from;
    while end < chars.len() && class.test(chars[end])
        invariant
            from <= end <= chars@.len(),
            span(chars@.skip(from as int), class) == (end - from) + span(
                chars@.skip(end as int),
                class,
            ),
        decreases chars@.len() - end,
    {
        assert(chars@.skip(end as int).drop_first() =~= chars@.skip(end + 1));
        end = end + 1;
    }
    end
}

} // verus!
