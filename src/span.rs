//! Source locations: where in the chart text a parsed value came from.
use vstd::prelude::*;
use vstd::std_specs::cmp::PartialEqSpec;

verus! {

/// A location in text: byte offset, and 1-based line and column (counted in characters).
pub struct Loc {
    pub byte: nat,
    pub line: nat,
    pub col: nat,
}

/// The number of bytes of the UTF-8 encoding of `c`.
pub open spec fn utf8_width(c: char) -> nat {
    if (c as u32) < 0x80 {
        1
    } else if (c as u32) < 0x800 {
        2
    } else if (c as u32) < 0x10000 {
        3
    } else {
        4
    }
}

/// The location just after the first `i` characters of `text`.
pub open spec fn loc_at(text: Seq<char>, i: int) -> Loc
    decreases i,
{
    if i <= 0 {
        Loc { byte: 0, line: 1, col: 1 }
    } else {
        let l = loc_at(text, i - 1);
        if text[i - 1] == '\n' {
            Loc { byte: l.byte + utf8_width(text[i - 1]), line: l.line + 1, col: 1 }
        } else {
            Loc { byte: l.byte + utf8_width(text[i - 1]), line: l.line, col: l.col + 1 }
        }
    }
}

/// A range of source text: where it starts (byte offset, line, column), where it ends (line and
/// column just past its last character), and its length in bytes.
#[derive(Copy, Clone, Eq, PartialEq, Hash, Debug, Structural)]
pub struct Span {
    pub byte_offset: usize,
    pub line: usize,
    pub col: usize,
    pub end_line: usize,
    pub end_col: usize,
    pub len: usize,
}

/// The span of the characters `start .. end` of `text`.
pub open spec fn span_of(text: Seq<char>, start: int, end: int) -> Span {
    let a = loc_at(text, start);
    let b = loc_at(text, end);
    Span {
        byte_offset: a.byte as usize,
        line: a.line as usize,
        col: a.col as usize,
        end_line: b.line as usize,
        end_col: b.col as usize,
        len: (b.byte - a.byte) as usize,
    }
}

/// The longest text whose locations are computed without overflow.
pub const TEXT_LIMIT: usize = 0x0fff_ffff;

/// A position in a text being scanned: the index of the next character, and its location.
#[derive(Copy, Clone, Debug)]
pub struct Pos {
    pub idx: usize,
    pub byte: usize,
    pub line: usize,
    pub col: usize,
}

impl Pos {
    /// The position is index `idx` of `text`, with its location.
    pub open spec fn wf(self, text: Seq<char>) -> bool {
        let l = loc_at(text, self.idx as int);
        &&& self.idx <= text.len()
        &&& self.byte == l.byte
        &&& self.line == l.line
        &&& self.col == l.col
    }

    /// The start of a text.
    pub fn start(text: &[char]) -> (r: Pos)
        ensures
            r.idx == 0,
            r.wf(text@),
    {
        Pos { idx: 0, byte: 0, line: 1, col: 1 }
    }

    /// The position after the next character.
    pub fn bump(self, text: &[char]) -> (r: Pos)
        requires
            self.wf(text@),
            self.idx < text@.len(),
            text@.len() <= TEXT_LIMIT,
        ensures
            r.idx == self.idx + 1,
            r.wf(text@),
    {
        proof {
            lemma_loc_bounds(text@, self.idx as int);
        }
        let c = text[self.idx];
        let w: usize = if (c as u32) < 0x80 {
            1
        } else if (c as u32) < 0x800 {
            2
        } else if (c as u32) < 0x10000 {
            3
        } else {
            4
        };
        if c == '\n' {
            Pos { idx: self.idx + 1, byte: self.byte + w, line: self.line + 1, col: 1 }
        } else {
            Pos { idx: self.idx + 1, byte: self.byte + w, line: self.line, col: self.col + 1 }
        }
    }
}

/// Locations grow at most four bytes, one line and one column per character.
pub proof fn lemma_loc_bounds(text: Seq<char>, i: int)
    requires
        i >= 0,
    ensures
        loc_at(text, i).byte <= 4 * i,
        loc_at(text, i).line <= i + 1,
        loc_at(text, i).col <= i + 1,
    decreases i,
{
    if i > 0 {
        lemma_loc_bounds(text, i - 1);
    }
}

/// Locations never move backwards.
pub proof fn lemma_loc_monotonic(text: Seq<char>, i: int, j: int)
    requires
        0 <= i <= j,
    ensures
        loc_at(text, i).byte <= loc_at(text, j).byte,
    decreases j - i,
{
    if i < j {
        lemma_loc_monotonic(text, i, j - 1);
    }
}

impl Span {
    /// The span between two positions of the same text.
    pub fn from_start_end(start: Pos, end: Pos, text: &[char]) -> (r: Span)
        requires
            start.wf(text@),
            end.wf(text@),
            start.idx <= end.idx,
        ensures
            r == span_of(text@, start.idx as int, end.idx as int),
    {
        proof {
            lemma_loc_monotonic(text@, start.idx as int, end.idx as int);
        }
        Span {
            byte_offset: start.byte,
            line: start.line,
            col: start.col,
            end_line: end.line,
            end_col: end.col,
            len: end.byte - start.byte,
        }
    }
}

/// A value with the span of source text it was parsed from.
///
/// Two such values are equal where the values are, whatever their spans.
#[derive(Debug)]
pub struct Sp<T>(pub T, pub Span);

impl<T: PartialEq> PartialEq for Sp<T> {
    fn eq(&self, other: &Self) -> (r: bool)
        ensures
            T::obeys_eq_spec() ==> r == self.0.eq_spec(&other.0),
    {
        self.0.eq(&other.0)
    }
}

impl<T: PartialEq> vstd::std_specs::cmp::PartialEqSpecImpl for Sp<T> {
    open spec fn obeys_eq_spec() -> bool {
        T::obeys_eq_spec()
    }

    open spec fn eq_spec(&self, other: &Self) -> bool {
        self.0.eq_spec(&other.0)
    }
}

impl<T: Eq> Eq for Sp<T> {
}

impl<T: View> View for Sp<T> {
    type V = Sp<T::V>;

    open spec fn view(&self) -> Sp<T::V> {
        Sp(self.0@, self.1)
    }
}

impl<T: Clone> Clone for Sp<T> {
    fn clone(&self) -> (r: Self) {
        Sp(self.0.clone(), self.1)
    }
}

impl<T> Sp<T> {
    /// Attaches a span to a value.
    pub fn new(obj: T, span: Span) -> (r: Self)
        ensures
            r.0 == obj,
            r.1 == span,
    {
        Sp(obj, span)
    }

    /// The span that the value was parsed from.
    pub fn span(&self) -> (r: Span)
        ensures
            r == self.1,
    {
        self.1
    }

    /// The value without its span.
    pub fn into_inner(self) -> (r: T)
        ensures
            r == self.0,
    {
        self.0
    }

    /// The value.
    pub fn inner(&self) -> (r: &T)
        ensures
            *r == self.0,
    {
        &self.0
    }
}

} // verus!
