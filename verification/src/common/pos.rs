use vstd::prelude::*;
use std::sync::Arc;
use std::cmp::Ordering;
use crate::util::{arc_string_clone, arc_string_eq, arc_string_as_str, str_slice_bytes, utf8_offset, char_boundary};
use vstd::std_specs::cmp::PartialEqSpec;

verus! {

/// A position in a character stream.
///
/// `source` counts the characters before the position; `line` and `col` are zero-based.
#[derive(Debug, PartialEq)]
pub struct Pos {
    pub source: usize,
    pub line: usize,
    pub col: usize,
    pub source_name: Arc<String>,
    pub source_text: Arc<String>,
}

/// `a` lies strictly before `b` by line and column.
pub open spec fn line_col_before(a: Pos, b: Pos) -> bool {
    a.line < b.line || (a.line == b.line && a.col < b.col)
}

/// `a` and `b` lie in the same source, and `a` comes first.
pub open spec fn source_before(a: Pos, b: Pos) -> bool {
    a.source_name@ == b.source_name@ && a.source < b.source
}

/// How two positions compare: only positions within one source compare, by character index.
pub open spec fn pos_partial_cmp(a: Pos, b: Pos) -> Option<Ordering> {
    if a.source_name@ != b.source_name@ {
        None
    } else if a.source < b.source {
        Some(Ordering::Less)
    } else if a.source == b.source {
        Some(Ordering::Equal)
    } else {
        Some(Ordering::Greater)
    }
}

impl Clone for Pos {
    fn clone(&self) -> (r: Self)
        ensures
            r == *self,
    {
        Pos {
            source: self.source,
            line: self.line,
            col: self.col,
            source_name: arc_string_clone(&self.source_name),
            source_text: arc_string_clone(&self.source_text),
        }
    }
}

impl Pos {
    /// Increments the source index and the column index.
    pub fn adv(&mut self)
        requires
            old(self).source < usize::MAX,
            old(self).col < usize::MAX,
        ensures
            *final(self) == (Pos { source: (old(self).source + 1) as usize, col: (old(self).col + 1) as usize, ..*old(self) }),
    {
        self.source = self.source + 1;
        self.col = self.col + 1;
    }

    /// Resets the column index, and increments the line index.
    pub fn line(&mut self)
        requires
            old(self).line < usize::MAX,
        ensures
            *final(self) == (Pos { line: (old(self).line + 1) as usize, col: 0, ..*old(self) }),
    {
        self.line = self.line + 1;
        self.col = 0;
    }

    /// The start of the given source.
    pub fn new(source_name: Arc<String>, source_text: Arc<String>) -> (r: Self)
        ensures
            r == (Pos { source: 0, line: 0, col: 0, source_name, source_text }),
    {
        Pos { source: 0, line: 0, col: 0, source_name, source_text }
    }

    /// The later of two positions by line and column; `self` when they share line and column.
    pub fn max<'n>(&'n self, other: &'n Pos) -> (r: &'n Self)
        ensures
            *r == if line_col_before(*self, *other) { *other } else { *self },
    {
        if self.line < other.line {
            other
        } else if self.line == other.line {
            if self.col < other.col {
                other
            } else {
                self
            }
        } else {
            self
        }
    }

    /// The earlier of two positions by line and column; `self` when they share line and column.
    pub fn min<'n>(&'n self, other: &'n Pos) -> (r: &'n Self)
        ensures
            *r == if line_col_before(*other, *self) { *other } else { *self },
    {
        if self.line > other.line {
            other
        } else if self.line == other.line {
            if self.col > other.col {
                other
            } else {
                self
            }
        } else {
            self
        }
    }

    /// The position as it is shown to a reader: one-based line and column.
    pub fn display_line_col(&self) -> (r: (usize, usize))
        requires
            self.line < usize::MAX,
            self.col < usize::MAX,
        ensures
            r == ((self.line + 1) as usize, (self.col + 1) as usize),
    {
        (self.line + 1, self.col + 1)
    }
}

impl Default for Pos {
    fn default() -> (r: Self)
        ensures
            r.source == 0 && r.line == 0 && r.col == 0,
            r.source_name@ == Seq::<char>::empty(),
            r.source_text@ == Seq::<char>::empty(),
    {
        Pos {
            source: 0,
            line: 0,
            col: 0,
            source_name: Arc::new(String::new()),
            source_text: Arc::new(String::new()),
        }
    }
}

impl PartialOrd for Pos {
    fn partial_cmp(&self, other: &Self) -> (r: Option<Ordering>)
        ensures
            r == pos_partial_cmp(*self, *other),
    {
        if !arc_string_eq(&self.source_name, &other.source_name) {
            None
        } else if self.source < other.source {
            Some(Ordering::Less)
        } else if self.source == other.source {
            Some(Ordering::Equal)
        } else {
            Some(Ordering::Greater)
        }
    }
}

impl vstd::std_specs::cmp::PartialOrdSpecImpl for Pos {
    open spec fn obeys_partial_cmp_spec() -> bool {
        true
    }

    open spec fn partial_cmp_spec(&self, other: &Self) -> Option<Ordering> {
        pos_partial_cmp(*self, *other)
    }
}

/// A span of source between two positions, held in source order where the two are comparable.
#[derive(Debug, PartialEq)]
pub struct SrcRange(pub Pos, pub Pos);

impl Clone for SrcRange {
    fn clone(&self) -> (r: Self)
        ensures
            r == *self,
    {
        SrcRange(self.0.clone(), self.1.clone())
    }
}

/// The span between two positions: in the order given where `start` comes first in a common
/// source, and swapped otherwise.
pub open spec fn src_range_new(start: Pos, end: Pos) -> SrcRange {
    if source_before(start, end) {
        SrcRange(start, end)
    } else {
        SrcRange(end, start)
    }
}

impl SrcRange {
    /// The span between two positions: in the order given where `start` comes first in a common
    /// source, and swapped otherwise.
    pub fn new(start: Pos, end: Pos) -> (r: Self)
        ensures
            r == src_range_new(start, end),
    {
        if start < end {
            SrcRange(start, end)
        } else {
            SrcRange(end, start)
        }
    }

    pub fn start(&self) -> (r: &Pos)
        ensures
            *r == self.0,
    {
        &self.0
    }

    pub fn end(&self) -> (r: &Pos)
        ensures
            *r == self.1,
    {
        &self.1
    }

    /// The smallest span, by line and column, that covers both spans.
    pub fn union(&self, other: &SrcRange) -> (r: Self)
        ensures
            r.0 == if line_col_before(other.0, self.0) { other.0 } else { self.0 },
            r.1 == if line_col_before(self.1, other.1) { other.1 } else { self.1 },
    {
        let start = self.start().min(other.start());
        let end = self.end().max(other.end());
        SrcRange(start.clone(), end.clone())
    }

    /// The text that the span covers, taken from the source text of its start: the text
    /// between the byte offsets that the two positions' source indexes name.
    pub fn source_text(&self) -> (r: &str)
        requires
            src_text_in_bounds(*self),
        ensures
            forall|i: int, j: int| 0 <= i <= j <= self.0.source_text@.len()
                && utf8_offset(self.0.source_text@, i) == self.0.source
                && utf8_offset(self.0.source_text@, j) == self.1.source
                ==> r@ == self.0.source_text@.subrange(i, j),
    {
        let start_source = self.start().source;
        let end_source = self.end().source;
        str_slice_bytes(arc_string_as_str(&self.0.source_text), start_source, end_source)
    }

    /// The name of the source of the span's start.
    pub fn source_name(&self) -> (r: &str)
        ensures
            r@ == self.0.source_name@,
    {
        arc_string_as_str(&self.0.source_name)
    }
}

/// Where a piece of code comes from: a span of source, or the language itself.
#[derive(Debug, PartialEq)]
pub enum Range {
    Src(SrcRange),
    Builtin,
}

impl Clone for Range {
    fn clone(&self) -> (r: Self)
        ensures
            r == *self,
    {
        match self {
            Range::Src(s) => Range::Src(s.clone()),
            Range::Builtin => Range::Builtin,
        }
    }
}

/// The text that stands for a built-in range.
pub open spec fn builtin_text() -> Seq<char> {
    seq!['<', 'b', 'u', 'i', 'l', 't', 'i', 'n', '>']
}

/// A range whose span, if it has one, lies within its source text.
pub open spec fn range_text_in_bounds(r: Range) -> bool {
    match r {
        Range::Src(s) => src_text_in_bounds(s),
        Range::Builtin => true,
    }
}

/// Whether a span's source indexes, read as byte offsets into the source text of its start,
/// fall on character boundaries in order.
pub open spec fn src_text_in_bounds(s: SrcRange) -> bool {
    &&& s.0.source <= s.1.source
    &&& char_boundary(s.0.source_text@, s.0.source as int)
    &&& char_boundary(s.0.source_text@, s.1.source as int)
}

/// The union of two ranges: a built-in range absorbs everything.
pub open spec fn range_union(a: Range, b: Range) -> Range {
    match (a, b) {
        (Range::Src(x), Range::Src(y)) => Range::Src(SrcRange(
            if line_col_before(y.0, x.0) { y.0 } else { x.0 },
            if line_col_before(x.1, y.1) { y.1 } else { x.1 },
        )),
        _ => Range::Builtin,
    }
}

/// The union of two ranges covers both: it starts no later and ends no earlier than either,
/// by line and column; with a built-in range, the union is built in.
pub proof fn lemma_range_union_covers(a: Range, b: Range)
    ensures
        match (a, b, range_union(a, b)) {
            (Range::Src(x), Range::Src(y), Range::Src(u)) => {
                &&& !line_col_before(x.0, u.0) && !line_col_before(y.0, u.0)
                &&& !line_col_before(u.1, x.1) && !line_col_before(u.1, y.1)
                &&& (u.0 == x.0 || u.0 == y.0) && (u.1 == x.1 || u.1 == y.1)
            },
            (Range::Src(_), Range::Src(_), Range::Builtin) => false,
            _ => range_union(a, b) == Range::Builtin,
        },
{
}

/// Of two positions, `max` gives one that neither comes after, and `min` one that neither
/// comes before, by line and column.
pub proof fn lemma_pos_max_min(a: Pos, b: Pos)
    ensures
        ({
            let hi = if line_col_before(a, b) { b } else { a };
            let lo = if line_col_before(b, a) { b } else { a };
            &&& !line_col_before(hi, a) && !line_col_before(hi, b)
            &&& !line_col_before(a, lo) && !line_col_before(b, lo)
        }),
{
}

impl Range {
    /// The text that the range covers; built-in ranges read `<builtin>`.
    pub fn source_text(&self) -> (r: &str)
        requires
            range_text_in_bounds(*self),
        ensures
            match *self {
                Range::Src(s) => forall|i: int, j: int| 0 <= i <= j <= s.0.source_text@.len()
                    && utf8_offset(s.0.source_text@, i) == s.0.source
                    && utf8_offset(s.0.source_text@, j) == s.1.source
                    ==> r@ == s.0.source_text@.subrange(i, j),
                Range::Builtin => r@ == builtin_text(),
            },
    {
        match self {
            Range::Src(range) => range.source_text(),
            Range::Builtin => {
                proof {
                    reveal_strlit("<builtin>");
                }
                "<builtin>"
            },
        }
    }

    /// The name of the range's source; built-in ranges read `<builtin>`.
    pub fn source_name(&self) -> (r: &str)
        ensures
            r@ == match *self {
                Range::Src(s) => s.0.source_name@,
                Range::Builtin => builtin_text(),
            },
    {
        match self {
            Range::Src(range) => range.source_name(),
            Range::Builtin => {
                proof {
                    reveal_strlit("<builtin>");
                }
                "<builtin>"
            },
        }
    }

    /// The smallest range that covers both ranges.
    pub fn union(&self, other: &Range) -> (r: Self)
        ensures
            r == range_union(*self, *other),
    {
        match (self, other) {
            (Range::Src(first), Range::Src(second)) => Range::Src(first.union(second)),
            _ => Range::Builtin,
        }
    }
}

/// A value paired with the range of code it was read from.
#[derive(Debug)]
pub struct RangeWrapper<T>(pub Range, pub T);

impl<T> RangeWrapper<T> {
    /// Makes a new ranged value.
    pub fn new(range: Range, value: T) -> (r: Self)
        ensures
            r == RangeWrapper(range, value),
    {
        RangeWrapper(range, value)
    }

    /// Maps the wrapped value to another value, keeping the range.
    pub fn map<Out, F: FnOnce(&T) -> Out>(&self, mapfn: F) -> (r: RangeWrapper<Out>)
        requires
            mapfn.requires((&self.1,)),
        ensures
            r.0 == self.0,
            mapfn.ensures((&self.1,), r.1),
    {
        let inner = mapfn(&self.1);
        RangeWrapper(self.0.clone(), inner)
    }

    pub fn into_inner(self) -> (r: T)
        ensures
            r == self.1,
    {
        self.1
    }

    pub fn as_inner(&self) -> (r: &T)
        ensures
            *r == self.1,
    {
        &self.1
    }

    /// The range of the wrapped value.
    pub fn range(&self) -> (r: Range)
        ensures
            r == self.0,
    {
        self.0.clone()
    }
}

impl<T: Clone> Clone for RangeWrapper<T> {
    fn clone(&self) -> (r: Self)
        ensures
            r.0 == self.0,
            cloned::<T>(self.1, r.1),
    {
        RangeWrapper(self.0.clone(), self.1.clone())
    }
}

impl<T: PartialEq> PartialEq for RangeWrapper<T> {
    fn eq(&self, other: &Self) -> (r: bool) {
        self.1 == other.1
    }
}

impl<T: PartialEq> vstd::std_specs::cmp::PartialEqSpecImpl for RangeWrapper<T> {
    open spec fn obeys_eq_spec() -> bool {
        T::obeys_eq_spec()
    }

    open spec fn eq_spec(&self, other: &Self) -> bool {
        self.1.eq_spec(&other.1)
    }
}

/// A thing that occupies a range of code.
pub trait Ranged {
    /// The range this thing occupies.
    spec fn spec_range(&self) -> Range;

    fn range(&self) -> (r: Range)
        ensures
            r == self.spec_range(),
    ;
}

impl<T> Ranged for RangeWrapper<T> {
    open spec fn spec_range(&self) -> Range {
        self.0
    }

    fn range(&self) -> (r: Range) {
        self.0.clone()
    }
}

} // verus!
