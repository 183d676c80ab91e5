//! Text buffers as byte sequences, their line index, and positions.
//!
//! A position is a line number and a column; both count from zero, and the
//! column counts UTF-16 code units within the line, as editors send it. An
//! offset is a byte index into the buffer, which holds UTF-8. Positions past
//! the end of a line or of the buffer are clamped.

use vstd::prelude::*;

verus! {

/// The byte that ends a line.
pub const NEWLINE: u8 = 10u8;

/// A line and a column within it, in UTF-16 code units.
#[derive(Debug, PartialEq, Eq, Clone, Copy, Structural)]
pub struct Position {
    pub line: usize,
    pub character: usize,
}

/// A pair of positions, as editors send them.
#[derive(Debug, PartialEq, Eq, Clone, Copy, Structural)]
pub struct PositionRange {
    pub start: Position,
    pub end: Position,
}

/// A half-open range of byte offsets.
#[derive(Debug, PartialEq, Eq, Clone, Copy, Structural)]
pub struct Span {
    pub start: usize,
    pub end: usize,
}

/// The offsets at which the lines of `text` start: zero, and one past each
/// newline byte, in increasing order.
pub open spec fn line_starts(text: Seq<u8>) -> Seq<int>
    decreases text.len(),
{
    if text.len() == 0 {
        seq![0int]
    } else {
        let before = line_starts(text.drop_last());
        if text.last() == NEWLINE {
            before.push(text.len() as int)
        } else {
            before
        }
    }
}

/// What makes a sequence of offsets usable as a line table for a buffer of
/// `len` bytes: it starts at zero, increases strictly, and stays in the buffer.
pub open spec fn starts_ordered(starts: Seq<int>, len: int) -> bool {
    &&& starts.len() >= 1
    &&& starts[0] == 0
    &&& forall|k: int| 0 <= k < starts.len() ==> 0 <= #[trigger] starts[k] <= len
    &&& forall|j: int, k: int| 0 <= j < k < starts.len() ==> #[trigger] starts[j] < #[trigger] starts[k]
}

/// The line table of a text is ordered, every entry but the first follows a
/// newline, and every newline is followed by an entry.
pub proof fn lemma_line_starts(text: Seq<u8>)
    ensures
        starts_ordered(line_starts(text), text.len() as int),
        forall|k: int|
            1 <= k < line_starts(text).len() ==> text[#[trigger] line_starts(text)[k] - 1]
                == NEWLINE,
        forall|i: int|
            0 <= i < text.len() && #[trigger] text[i] == NEWLINE ==> line_starts(text).contains(
                i + 1,
            ),
    decreases text.len(),
{
    if text.len() > 0 {
        let shorter = text.drop_last();
        lemma_line_starts(shorter);
        let before = line_starts(shorter);
        let now = line_starts(text);
        assert forall|i: int| 0 <= i < text.len() && #[trigger] text[i] == NEWLINE implies now.contains(
            i + 1,
        ) by {
            if i < text.len() - 1 {
                assert(shorter[i] == text[i]);
                let k = choose|k: int| 0 <= k < before.len() && before[k] == i + 1;
                assert(now[k] == i + 1);
            } else {
                assert(now[now.len() - 1] == i + 1);
            }
        }
        assert forall|k: int| 1 <= k < now.len() implies text[#[trigger] now[k] - 1] == NEWLINE by {
            if k < before.len() {
                assert(shorter[before[k] - 1] == text[before[k] - 1]);
            }
        }
    }
}

/// How many bytes the character takes whose first byte is `lead`, in UTF-8.
/// A byte that cannot start a character counts as a character of its own.
pub open spec fn width_of(lead: u8) -> int {
    if lead >= 0xF0 {
        4
    } else if lead >= 0xE0 {
        3
    } else if lead >= 0xC0 {
        2
    } else {
        1
    }
}

/// How many bytes the character at `at` takes before `end`.
pub open spec fn step_bytes(text: Seq<u8>, at: int, end: int) -> int {
    if at + width_of(text[at]) <= end {
        width_of(text[at])
    } else {
        end - at
    }
}

/// How many UTF-16 code units the character at `at` takes: two if it takes
/// four bytes, one otherwise.
pub open spec fn step_units(text: Seq<u8>, at: int, end: int) -> int {
    if width_of(text[at]) == 4 && at + 4 <= end {
        2
    } else {
        1
    }
}

/// The offset reached from `at` after whole characters of no more than
/// `units` UTF-16 code units, without passing `end`.
pub open spec fn advance(text: Seq<u8>, at: int, end: int, units: int) -> int
    decreases end - at,
{
    if at >= end || units < step_units(text, at, end) {
        at
    } else {
        advance(text, at + step_bytes(text, at, end), end, units - step_units(text, at, end))
    }
}

/// How many UTF-16 code units the characters take that start in `[from, to)`.
pub open spec fn units_between(text: Seq<u8>, from: int, to: int) -> int
    decreases to - from,
{
    if from >= to {
        0
    } else {
        step_units(text, from, to) + units_between(text, from + step_bytes(text, from, to), to)
    }
}

/// Where a line ends: before the newline that ends it, or at the end of the
/// text.
pub open spec fn line_end(starts: Seq<int>, len: int, line: int) -> int {
    if line + 1 < starts.len() {
        starts[line + 1] - 1
    } else {
        len
    }
}

/// The byte offset that a position stands for in `text`. The column counts
/// UTF-16 code units, as editors send it. A line past the last one gives the
/// end of the text; a column past the end of its line gives the end of that
/// line, before its newline; a column inside a character gives the start of
/// that character.
pub open spec fn offset_of(text: Seq<u8>, position: Position) -> int {
    let starts = line_starts(text);
    if position.line >= starts.len() {
        text.len() as int
    } else {
        advance(
            text,
            starts[position.line as int],
            line_end(starts, text.len() as int, position.line as int),
            position.character as int,
        )
    }
}

/// Whether `line` is the line of the byte offset `at` under the line table
/// `starts`.
pub open spec fn holds_line(starts: Seq<int>, line: int, at: int) -> bool {
    &&& 0 <= line < starts.len()
    &&& starts[line] <= at
    &&& line + 1 < starts.len() ==> at < starts[line + 1]
}

/// Whether `position` is the line and column of `offset` in `text`, the
/// offset being clamped to the length of the text and the column counting
/// UTF-16 code units.
pub open spec fn position_of(text: Seq<u8>, offset: int, position: Position) -> bool {
    let at = if offset <= text.len() {
        offset
    } else {
        text.len() as int
    };
    &&& holds_line(line_starts(text), position.line as int, at)
    &&& position.character == units_between(text, line_starts(text)[position.line as int], at)
}

/// Whether `position` names a place of `text`: its line is a line of the
/// text, and its column is the start of a character of that line, or its
/// end. The offset of any other position is that of the nearest such place
/// before it: the position is clamped.
pub open spec fn in_range(text: Seq<u8>, position: Position) -> bool {
    position_of(text, offset_of(text, position), position)
}

/// The position of `offset` in `text`.
pub open spec fn position_at(text: Seq<u8>, offset: int) -> Position {
    choose|position: Position| position_of(text, offset, position)
}

/// Whether `at` is the start of a character, counting characters from `from`.
pub open spec fn on_boundary(text: Seq<u8>, from: int, at: int) -> bool
    decreases at - from,
{
    if from >= at {
        from == at
    } else if from + width_of(text[from]) > at {
        false
    } else {
        on_boundary(text, from + width_of(text[from]), at)
    }
}

/// Advancing stays between where it starts and the end.
pub proof fn lemma_advance(text: Seq<u8>, at: int, end: int, units: int)
    requires
        at <= end,
    ensures
        at <= advance(text, at, end, units) <= end,
    decreases end - at,
{
    if at < end && units >= step_units(text, at, end) {
        lemma_advance(text, at + step_bytes(text, at, end), end, units - step_units(text, at, end));
    }
}

/// Characters take no more code units than bytes.
pub proof fn lemma_units_between(text: Seq<u8>, from: int, to: int)
    ensures
        0 <= units_between(text, from, to),
        from <= to ==> units_between(text, from, to) <= to - from,
    decreases to - from,
{
    if from < to {
        lemma_units_between(text, from + step_bytes(text, from, to), to);
    }
}

/// At most one position locates an offset.
pub proof fn lemma_position_unique(text: Seq<u8>, offset: int, a: Position, b: Position)
    requires
        0 <= offset,
        position_of(text, offset, a),
        position_of(text, offset, b),
    ensures
        a == b,
{
    lemma_line_starts(text);
    let starts = line_starts(text);
    if a.line < b.line {
        assert(starts[a.line + 1] <= starts[b.line as int]) by {
            if a.line + 1 < b.line {
            }
        }
    } else if b.line < a.line {
        assert(starts[b.line + 1] <= starts[a.line as int]) by {
            if b.line + 1 < a.line {
            }
        }
    }
}

/// A position that locates an offset is the position of that offset.
pub proof fn lemma_position_at(text: Seq<u8>, offset: int, position: Position)
    requires
        0 <= offset,
        position_of(text, offset, position),
    ensures
        position == position_at(text, offset),
{
    lemma_position_unique(text, offset, position, position_at(text, offset));
}

/// Counting the code units up to the start of a character and advancing by
/// as many leads back to that start.
pub proof fn lemma_advance_units(text: Seq<u8>, from: int, at: int, end: int)
    requires
        from <= at <= end,
        on_boundary(text, from, at),
    ensures
        advance(text, from, end, units_between(text, from, at)) == at,
    decreases at - from,
{
    if from < at {
        let width = width_of(text[from]);
        lemma_advance_units(text, from + width, at, end);
        lemma_units_between(text, from + width, at);
    }
}

/// A position that locates the start of a character converts back to the
/// offset of that start. In a text of ASCII characters every offset is such
/// a start.
pub proof fn lemma_position_round_trip(text: Seq<u8>, offset: int, position: Position)
    requires
        0 <= offset <= text.len(),
        position_of(text, offset, position),
        on_boundary(text, line_starts(text)[position.line as int], offset),
    ensures
        offset_of(text, position) == offset,
{
    lemma_line_starts(text);
    let starts = line_starts(text);
    let line = position.line as int;
    lemma_advance_units(text, starts[line], offset, line_end(starts, text.len() as int, line));
}

/// An offset computed from a position lies within the text.
pub proof fn lemma_offset_in_bounds(text: Seq<u8>, position: Position)
    ensures
        0 <= offset_of(text, position) <= text.len(),
{
    lemma_line_starts(text);
    let starts = line_starts(text);
    if position.line < starts.len() {
        let line = position.line as int;
        if line + 1 < starts.len() {
            assert(starts[line] < starts[line + 1]);
        }
        lemma_advance(
            text,
            starts[line],
            line_end(starts, text.len() as int, line),
            position.character as int,
        );
    }
}

/// The line table of a buffer, for converting between offsets and positions.
pub struct LineIndex {
    starts: Vec<usize>,
    len: usize,
}

impl LineIndex {
    /// The line start offsets held.
    pub closed spec fn starts(&self) -> Seq<int> {
        Seq::new(self.starts@.len(), |k: int| self.starts@[k] as int)
    }

    /// The length of the buffer that the table was made for.
    pub closed spec fn len(&self) -> int {
        self.len as int
    }

    /// The table is ordered and within its buffer.
    pub open spec fn wf(&self) -> bool {
        starts_ordered(self.starts(), self.len())
    }

    /// The table is the line table of `text`.
    pub open spec fn describes(&self, text: Seq<u8>) -> bool {
        &&& self.starts() == line_starts(text)
        &&& self.len() == text.len()
    }

    /// Builds the line table of `text` in one pass.
    pub fn new(text: &[u8]) -> (index: LineIndex)
        ensures
            index.wf(),
            index.describes(text@),
    {
        let mut starts: Vec<usize> = Vec::new();
        starts.push(0);
        let mut i: usize = 0;
        assert(text@.take(0) =~= Seq::<u8>::empty());
        while i < text.len()
            invariant
                0 <= i <= text.len(),
                starts@.len() == line_starts(text@.take(i as int)).len(),
                forall|k: int|
                    0 <= k < starts@.len() ==> starts@[k] as int == line_starts(
                        text@.take(i as int),
                    )[k],
            decreases text.len() - i,
        {
            assert(text@.take(i + 1).drop_last() =~= text@.take(i as int));
            assert(text@.take(i + 1).last() == text@[i as int]);
            if text[i] == NEWLINE {
                starts.push(i + 1);
            }
            i += 1;
        }
        assert(text@.take(i as int) =~= text@);
        let index = LineIndex { starts, len: text.len() };
        proof {
            lemma_line_starts(text@);
            assert(index.starts() =~= line_starts(text@));
        }
        index
    }

    /// The number of lines, counting the one after the last newline.
    pub fn line_count(&self) -> (count: usize)
        ensures
            count == self.starts().len(),
    {
        self.starts.len()
    }

    /// The byte offset of `position` in `text`, whose line table this is.
    pub fn offset(&self, text: &[u8], position: Position) -> (offset: usize)
        requires
            self.wf(),
            self.describes(text@),
        ensures
            offset == offset_of(text@, position),
            offset <= text@.len(),
    {
        proof {
            lemma_offset_in_bounds(text@, position);
        }
        if position.line >= self.starts.len() {
            return self.len;
        }
        let start = self.starts[position.line];
        assert(start as int == self.starts()[position.line as int]);
        let end = if position.line + 1 < self.starts.len() {
            let next = self.starts[position.line + 1];
            assert(next as int == self.starts()[position.line + 1]);
            next - 1
        } else {
            self.len
        };
        let mut at: usize = start;
        let mut left: usize = position.character;
        proof {
            lemma_line_starts(text@);
        }
        assert(start <= end);
        while at < end
            invariant
                start <= at <= end <= text@.len(),
                advance(text@, at as int, end as int, left as int) == offset_of(text@, position),
            decreases end - at,
        {
            let lead = text[at];
            let width: usize = if lead >= 0xF0 {
                4
            } else if lead >= 0xE0 {
                3
            } else if lead >= 0xC0 {
                2
            } else {
                1
            };
            let units: usize = if width == 4 && end - at >= 4 {
                2
            } else {
                1
            };
            if left < units {
                return at;
            }
            at = if end - at >= width {
                at + width
            } else {
                end
            };
            left = left - units;
        }
        at
    }

    /// Whether `position` names a place of `text`, whose line table this is,
    /// so that its offset is taken without clamping.
    pub fn holds(&self, text: &[u8], position: Position) -> (exact: bool)
        requires
            self.wf(),
            self.describes(text@),
        ensures
            exact == in_range(text@, position),
    {
        let offset = self.offset(text, position);
        let back = self.line_col(text, offset);
        proof {
            if in_range(text@, position) {
                lemma_position_unique(text@, offset as int, position, back);
            }
        }
        back.line == position.line && back.character == position.character
    }

    /// The line and column of `offset` in `text`, whose line table this is.
    /// The line is found by binary search over the line starts. An offset
    /// past the end of the text gives the position of its end.
    pub fn line_col(&self, text: &[u8], offset: usize) -> (position: Position)
        requires
            self.wf(),
            self.describes(text@),
        ensures
            position_of(text@, offset as int, position),
    {
        let at = if offset <= self.len {
            offset
        } else {
            self.len
        };
        let mut low: usize = 0;
        let mut high: usize = self.starts.len();
        assert(self.starts()[0] == 0);
        while high - low > 1
            invariant
                self.wf(),
                0 <= low < high <= self.starts@.len(),
                self.starts@[low as int] <= at,
                high < self.starts@.len() ==> at < self.starts@[high as int],
            decreases high - low,
        {
            let middle = low + (high - low) / 2;
            if self.starts[middle] <= at {
                low = middle;
            } else {
                high = middle;
            }
        }
        let start = self.starts[low];
        assert(start as int == self.starts()[low as int]);
        assert(low + 1 < self.starts@.len() ==> self.starts@[low + 1] as int == self.starts()[low
            + 1]);
        let mut from: usize = start;
        let mut units: usize = 0;
        proof {
            lemma_units_between(text@, start as int, at as int);
        }
        while from < at
            invariant
                start <= from <= at <= text@.len(),
                units <= from - start,
                units + units_between(text@, from as int, at as int) == units_between(
                    text@,
                    start as int,
                    at as int,
                ),
            decreases at - from,
        {
            let lead = text[from];
            let width: usize = if lead >= 0xF0 {
                4
            } else if lead >= 0xE0 {
                3
            } else if lead >= 0xC0 {
                2
            } else {
                1
            };
            if width == 4 && at - from >= 4 {
                units = units + 2;
            } else {
                units = units + 1;
            }
            from = if at - from >= width {
                from + width
            } else {
                at
            };
        }
        Position { line: low, character: units }
    }
}

} // verus!
