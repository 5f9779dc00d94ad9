use vstd::prelude::*;

verus! {

/// A half-open byte range `[begin, end)` of the source buffer.
#[derive(Clone, Copy, Debug, PartialEq, Eq, Structural)]
pub struct Loc {
    pub begin: usize,
    pub end: usize,
}

impl Loc {
    pub open spec fn with_end_spec(self, end: usize) -> Loc {
        Loc { begin: self.begin, end }
    }

    /// The range from this one's begin to `end`.
    pub fn with_end(self, end: usize) -> (r: Loc)
        ensures
            r == self.with_end_spec(end),
    {
        Loc { begin: self.begin, end }
    }

    pub open spec fn join_spec(self, other: Loc) -> Loc {
        Loc {
            begin: if self.begin <= other.begin { self.begin } else { other.begin },
            end: if self.end >= other.end { self.end } else { other.end },
        }
    }

    /// The smallest range that holds both ranges.
    pub fn join(self, other: Loc) -> (r: Loc)
        ensures
            r == self.join_spec(other),
    {
        Loc {
            begin: if self.begin <= other.begin { self.begin } else { other.begin },
            end: if self.end >= other.end { self.end } else { other.end },
        }
    }
}

/// The line of `b` that `pos` lies on: the number of line breaks before it.
pub open spec fn line_of(b: Seq<u8>, pos: int) -> int
    decreases pos,
{
    if pos <= 0 {
        0
    } else if b[pos - 1] == 10u8 {
        line_of(b, pos - 1) + 1
    } else {
        line_of(b, pos - 1)
    }
}

/// Where the line that `pos` lies on begins.
pub open spec fn line_start(b: Seq<u8>, pos: int) -> int
    decreases pos,
{
    if pos <= 0 {
        0
    } else if b[pos - 1] == 10u8 {
        pos
    } else {
        line_start(b, pos - 1)
    }
}

/// Where the line that `pos` lies on ends, before its line break.
pub open spec fn line_end(b: Seq<u8>, pos: int) -> int
    decreases b.len() - pos,
{
    if pos < 0 || pos >= b.len() {
        b.len() as int
    } else if b[pos] == 10u8 {
        pos
    } else {
        line_end(b, pos + 1)
    }
}

/// The classes of bytes that a range can be widened over.
#[derive(Clone, Copy, PartialEq, Eq, Structural)]
pub enum ByteClass {
    Comma,
    Blank,
    Newline,
    Whitespace,
}

pub open spec fn in_class(c: ByteClass, x: u8) -> bool {
    match c {
        ByteClass::Comma => x == 44u8,
        ByteClass::Blank => x == 32u8 || x == 9u8,
        ByteClass::Newline => x == 10u8,
        ByteClass::Whitespace => x == 32u8 || x == 9u8 || x == 10u8 || x == 12u8 || x == 13u8,
    }
}

/// `pos` moved left over the bytes of class `c`.
pub open spec fn skip_left(b: Seq<u8>, pos: int, c: ByteClass) -> int
    decreases pos,
{
    if pos <= 0 || pos > b.len() {
        pos
    } else if in_class(c, b[pos - 1]) {
        skip_left(b, pos - 1, c)
    } else {
        pos
    }
}

/// `pos` moved right over the bytes of class `c`.
pub open spec fn skip_right(b: Seq<u8>, pos: int, c: ByteClass) -> int
    decreases b.len() - pos,
{
    if pos < 0 || pos >= b.len() {
        pos
    } else if in_class(c, b[pos]) {
        skip_right(b, pos + 1, c)
    } else {
        pos
    }
}

/// `pos` moved left over backslash-newline line continuations.
pub open spec fn skip_continuations_left(b: Seq<u8>, pos: int) -> int
    decreases pos,
{
    if 2 <= pos <= b.len() && b[pos - 2] == 92u8 && b[pos - 1] == 10u8 {
        skip_continuations_left(b, pos - 2)
    } else {
        pos
    }
}

/// `pos` moved right over backslash-newline line continuations.
pub open spec fn skip_continuations_right(b: Seq<u8>, pos: int) -> int
    decreases b.len() - pos,
{
    if 0 <= pos && pos + 2 <= b.len() && b[pos] == 92u8 && b[pos + 1] == 10u8 {
        skip_continuations_right(b, pos + 2)
    } else {
        pos
    }
}

fn in_class_exec(c: ByteClass, x: u8) -> (r: bool)
    ensures
        r == in_class(c, x),
{
    match c {
        ByteClass::Comma => x == 44u8,
        ByteClass::Blank => x == 32u8 || x == 9u8,
        ByteClass::Newline => x == 10u8,
        ByteClass::Whitespace => x == 32u8 || x == 9u8 || x == 10u8 || x == 12u8 || x == 13u8,
    }
}

/// Moves `pos` left over the bytes of class `c`, stopping at the start of `b`.
pub fn move_left(b: &[u8], pos: usize, c: ByteClass) -> (r: usize)
    requires
        pos <= b@.len(),
    ensures
        r == skip_left(b@, pos as int, c),
        r <= pos,
{
    let mut p = pos;
    while p > 0 && in_class_exec(c, b[p - 1])
        invariant
            p <= pos <= b@.len(),
            skip_left(b@, pos as int, c) == skip_left(b@, p as int, c),
        decreases p,
    {
        p = p - 1;
    }
    p
}

/// Moves `pos` right over the bytes of class `c`, stopping at the end of `b`.
pub fn move_right(b: &[u8], pos: usize, c: ByteClass) -> (r: usize)
    requires
        pos <= b@.len(),
    ensures
        r == skip_right(b@, pos as int, c),
        pos <= r <= b@.len(),
{
    let mut p = pos;
    while p < b.len() && in_class_exec(c, b[p])
        invariant
            pos <= p <= b@.len(),
            skip_right(b@, pos as int, c) == skip_right(b@, p as int, c),
        decreases b@.len() - p,
    {
        p = p + 1;
    }
    p
}

fn move_continuations_left(b: &[u8], pos: usize) -> (r: usize)
    requires
        pos <= b@.len(),
    ensures
        r == skip_continuations_left(b@, pos as int),
        r <= pos,
{
    let mut p = pos;
    while p >= 2 && b[p - 2] == 92u8 && b[p - 1] == 10u8
        invariant
            p <= pos <= b@.len(),
            skip_continuations_left(b@, pos as int) == skip_continuations_left(b@, p as int),
        decreases p,
    {
        p = p - 2;
    }
    p
}

fn move_continuations_right(b: &[u8], pos: usize) -> (r: usize)
    requires
        pos <= b@.len(),
    ensures
        r == skip_continuations_right(b@, pos as int),
        pos <= r <= b@.len(),
{
    let mut p = pos;
    while p < b.len() && b.len() - p >= 2 && b[p] == 92u8 && b[p + 1] == 10u8
        invariant
            pos <= p <= b@.len(),
            skip_continuations_right(b@, pos as int) == skip_continuations_right(b@, p as int),
        decreases b@.len() - p,
    {
        p = p + 2;
    }
    p
}

/// Which ends of a range to widen.
#[derive(Clone, Copy, Debug, PartialEq, Eq, Structural)]
pub enum Side {
    Both,
    Left,
    Right,
}

pub open spec fn goes_left(side: Side) -> bool {
    side == Side::Both || side == Side::Left
}

pub open spec fn goes_right(side: Side) -> bool {
    side == Side::Both || side == Side::Right
}

/// Whether to widen to the left and to the right.
pub fn directions(side: Side) -> (r: (bool, bool))
    ensures
        r == (goes_left(side), goes_right(side)),
{
    match side {
        Side::Both => (true, true),
        Side::Left => (true, false),
        Side::Right => (false, true),
    }
}

/// `range` widened over the commas next to it on the chosen sides.
pub open spec fn comma_range(b: Seq<u8>, range: Loc, side: Side) -> Loc {
    Loc {
        begin: if goes_left(side) {
            skip_left(b, range.begin as int, ByteClass::Comma) as usize
        } else {
            range.begin
        },
        end: if goes_right(side) {
            skip_right(b, range.end as int, ByteClass::Comma) as usize
        } else {
            range.end
        },
    }
}

/// `pos` moved left over blanks, then line continuations, then line breaks, then
/// any whitespace, each step but the first where it is asked for.
pub open spec fn space_left(b: Seq<u8>, pos: int, newlines: bool, whitespace: bool, continuations: bool) -> int {
    let p1 = skip_left(b, pos, ByteClass::Blank);
    let p2 = if continuations { skip_continuations_left(b, p1) } else { p1 };
    let p3 = if newlines { skip_left(b, p2, ByteClass::Newline) } else { p2 };
    if whitespace { skip_left(b, p3, ByteClass::Whitespace) } else { p3 }
}

/// The same as `space_left`, to the right.
pub open spec fn space_right(b: Seq<u8>, pos: int, newlines: bool, whitespace: bool, continuations: bool) -> int {
    let p1 = skip_right(b, pos, ByteClass::Blank);
    let p2 = if continuations { skip_continuations_right(b, p1) } else { p1 };
    let p3 = if newlines { skip_right(b, p2, ByteClass::Newline) } else { p2 };
    if whitespace { skip_right(b, p3, ByteClass::Whitespace) } else { p3 }
}

/// `range` widened over the surrounding space on the chosen sides.
pub open spec fn space_range(
    b: Seq<u8>,
    range: Loc,
    side: Side,
    newlines: bool,
    whitespace: bool,
    continuations: bool,
) -> Loc {
    Loc {
        begin: if goes_left(side) {
            space_left(b, range.begin as int, newlines, whitespace, continuations) as usize
        } else {
            range.begin
        },
        end: if goes_right(side) {
            space_right(b, range.end as int, newlines, whitespace, continuations) as usize
        } else {
            range.end
        },
    }
}

/// `range` widened to the whole lines it touches, with the line break that ends
/// the last one if asked for and there is one.
pub open spec fn whole_lines_range(b: Seq<u8>, range: Loc, include_final_newline: bool) -> Loc {
    let e = line_end(b, range.end as int);
    Loc {
        begin: line_start(b, range.begin as int) as usize,
        end: if include_final_newline && e < b.len() { (e + 1) as usize } else { e as usize },
    }
}

/// Relies on `String::from_utf8_lossy`: the text of the bytes, with each invalid
/// sequence replaced by U+FFFD.
pub uninterp spec fn lossy_text(b: Seq<u8>) -> Seq<char>;

/// Relies on `String::from_utf8_lossy`, which depends on the bytes alone and gives
/// back valid UTF-8 unchanged.
#[verifier::external_body]
pub(crate) fn text_of(b: &[u8]) -> (r: String)
    ensures
        r@ == lossy_text(b@),
        vstd::utf8::valid_utf8(b@) ==> vstd::utf8::encode_utf8(r@) == b@,
{
    String::from_utf8_lossy(b).into_owned()
}

/// The bytes of one source file, with its name.
pub struct DecodedInput {
    pub name: String,
    pub bytes: Vec<u8>,
}

impl DecodedInput {
    pub fn new(name: String, bytes: Vec<u8>) -> (r: DecodedInput)
        ensures
            r.name == name,
            r.bytes@ == bytes@,
    {
        DecodedInput { name, bytes }
    }

    /// The line and the column, both from 0, of the byte offset `pos`.
    pub fn line_col_for_pos(&self, pos: usize) -> (r: (usize, usize))
        requires
            pos <= self.bytes@.len(),
        ensures
            r.0 == line_of(self.bytes@, pos as int),
            r.1 == pos - line_start(self.bytes@, pos as int),
            r.1 <= pos,
    {
        let mut line: usize = 0;
        let mut start: usize = 0;
        let mut i: usize = 0;
        while i < pos
            invariant
                i <= pos <= self.bytes@.len(),
                line == line_of(self.bytes@, i as int),
                start == line_start(self.bytes@, i as int),
                line <= i,
                start <= i,
            decreases pos - i,
        {
            if self.bytes[i] == 10u8 {
                line = line + 1;
                start = i + 1;
            }
            i = i + 1;
        }
        (line, pos - start)
    }

    /// Where the line that `pos` lies on ends, before its line break.
    pub fn line_end(&self, pos: usize) -> (r: usize)
        requires
            pos <= self.bytes@.len(),
        ensures
            r == line_end(self.bytes@, pos as int),
            pos <= r <= self.bytes@.len(),
    {
        let mut p = pos;
        while p < self.bytes.len() && self.bytes[p] != 10u8
            invariant
                pos <= p <= self.bytes@.len(),
                line_end(self.bytes@, pos as int) == line_end(self.bytes@, p as int),
            decreases self.bytes@.len() - p,
        {
            p = p + 1;
        }
        p
    }

    /// The text of the bytes in `loc`.
    pub fn source(&self, loc: Loc) -> (r: String)
        requires
            loc.begin <= loc.end <= self.bytes@.len(),
        ensures
            r@ == lossy_text(self.bytes@.subrange(loc.begin as int, loc.end as int)),
            vstd::utf8::valid_utf8(self.bytes@.subrange(loc.begin as int, loc.end as int)) ==> vstd::utf8::encode_utf8(
                r@,
            ) == self.bytes@.subrange(loc.begin as int, loc.end as int),
    {
        text_of(vstd::slice::slice_subrange(self.bytes.as_slice(), loc.begin, loc.end))
    }

    /// Whether the bytes in `loc` are `text`.
    pub fn source_is(&self, loc: Loc, text: &[u8]) -> (r: bool)
        requires
            loc.begin <= loc.end <= self.bytes@.len(),
        ensures
            r == (self.bytes@.subrange(loc.begin as int, loc.end as int) == text@),
    {
        if loc.end - loc.begin != text.len() {
            assert(self.bytes@.subrange(loc.begin as int, loc.end as int).len() != text@.len());
            return false;
        }
        let mut i: usize = 0;
        while i < text.len()
            invariant
                i <= text@.len(),
                loc.end - loc.begin == text@.len(),
                loc.begin <= loc.end <= self.bytes@.len(),
                forall|j: int| 0 <= j < i ==> self.bytes@[loc.begin + j] == text@[j],
            decreases text@.len() - i,
        {
            if self.bytes[loc.begin + i] != text[i] {
                assert(self.bytes@.subrange(loc.begin as int, loc.end as int)[i as int] != text@[i as int]);
                return false;
            }
            i = i + 1;
        }
        assert(self.bytes@.subrange(loc.begin as int, loc.end as int) =~= text@);
        true
    }

    /// `loc` cut to the bounds of the buffer.
    pub fn intersect(&self, loc: Loc) -> (r: Loc)
        ensures
            r.begin == if loc.begin <= self.bytes@.len() { loc.begin } else { self.bytes@.len() as usize },
            r.end == if loc.end <= self.bytes@.len() { loc.end } else { self.bytes@.len() as usize },
    {
        let len = self.bytes.len();
        Loc { begin: if loc.begin <= len { loc.begin } else { len }, end: if loc.end <= len { loc.end } else { len } }
    }

    fn space_left(&self, pos: usize, newlines: bool, whitespace: bool, continuations: bool) -> (r: usize)
        requires
            pos <= self.bytes@.len(),
        ensures
            r == space_left(self.bytes@, pos as int, newlines, whitespace, continuations),
            r <= pos,
    {
        let b = self.bytes.as_slice();
        let p1 = move_left(b, pos, ByteClass::Blank);
        let p2 = if continuations { move_continuations_left(b, p1) } else { p1 };
        let p3 = if newlines { move_left(b, p2, ByteClass::Newline) } else { p2 };
        if whitespace { move_left(b, p3, ByteClass::Whitespace) } else { p3 }
    }

    fn space_right(&self, pos: usize, newlines: bool, whitespace: bool, continuations: bool) -> (r: usize)
        requires
            pos <= self.bytes@.len(),
        ensures
            r == space_right(self.bytes@, pos as int, newlines, whitespace, continuations),
            pos <= r <= self.bytes@.len(),
    {
        let b = self.bytes.as_slice();
        let p1 = move_right(b, pos, ByteClass::Blank);
        let p2 = if continuations { move_continuations_right(b, p1) } else { p1 };
        let p3 = if newlines { move_right(b, p2, ByteClass::Newline) } else { p2 };
        if whitespace { move_right(b, p3, ByteClass::Whitespace) } else { p3 }
    }
}

/// Widening of ranges over the source buffer.
pub trait RangeHelp {
    /// The bytes that the ranges refer to.
    spec fn range_source(&self) -> Seq<u8>;

    /// `range` widened over the commas next to it on the chosen sides.
    fn range_with_surrounding_comma(&self, range: Loc, side: Side) -> (r: Loc)
        requires
            range.begin <= range.end <= self.range_source().len(),
        ensures
            r == comma_range(self.range_source(), range, side),
            r.begin <= range.begin <= range.end <= r.end <= self.range_source().len(),
    ;

    /// `range` widened over the surrounding space, with options for what counts as space.
    fn range_with_surrounding_space(&self, range: Loc) -> (r: WithSurroundingSpaceBuilder)
        requires
            range.begin <= range.end <= self.range_source().len(),
        ensures
            r.range == range,
            r.side == Side::Both,
            r.newlines,
            !r.whitespace,
            !r.continuations,
    ;

    /// `range` widened to whole lines, with options.
    fn range_by_whole_lines(&self, range: Loc) -> (r: ByWholeLinesBuilder)
        requires
            range.begin <= range.end <= self.range_source().len(),
        ensures
            r.range == range,
            !r.include_final_newline,
    ;
}

impl RangeHelp for DecodedInput {
    open spec fn range_source(&self) -> Seq<u8> {
        self.bytes@
    }

    fn range_with_surrounding_comma(&self, range: Loc, side: Side) -> (r: Loc) {
        let (go_left, go_right) = directions(side);
        let b = self.bytes.as_slice();
        let begin = if go_left { move_left(b, range.begin, ByteClass::Comma) } else { range.begin };
        let end = if go_right { move_right(b, range.end, ByteClass::Comma) } else { range.end };
        Loc { begin, end }
    }

    fn range_with_surrounding_space(&self, range: Loc) -> (r: WithSurroundingSpaceBuilder) {
        WithSurroundingSpaceBuilder { range, side: Side::Both, newlines: true, whitespace: false, continuations: false }
    }

    fn range_by_whole_lines(&self, range: Loc) -> (r: ByWholeLinesBuilder) {
        ByWholeLinesBuilder { range, include_final_newline: false }
    }
}

/// Options for widening a range over the space around it.
pub struct WithSurroundingSpaceBuilder {
    pub range: Loc,
    pub side: Side,
    pub newlines: bool,
    pub whitespace: bool,
    pub continuations: bool,
}

impl WithSurroundingSpaceBuilder {
    pub fn side(self, side: Side) -> (r: Self)
        ensures
            r == (Self { side, ..self }),
    {
        Self { side, ..self }
    }

    pub fn newlines(self, newlines: bool) -> (r: Self)
        ensures
            r == (Self { newlines, ..self }),
    {
        Self { newlines, ..self }
    }

    pub fn whitespace(self, whitespace: bool) -> (r: Self)
        ensures
            r == (Self { whitespace, ..self }),
    {
        Self { whitespace, ..self }
    }

    pub fn continuations(self, continuations: bool) -> (r: Self)
        ensures
            r == (Self { continuations, ..self }),
    {
        Self { continuations, ..self }
    }

    /// The widened range in `src`.
    pub fn build(self, src: &DecodedInput) -> (r: Loc)
        requires
            self.range.begin <= self.range.end <= src.bytes@.len(),
        ensures
            r == space_range(src.bytes@, self.range, self.side, self.newlines, self.whitespace, self.continuations),
            r.begin <= self.range.begin <= self.range.end <= r.end <= src.bytes@.len(),
    {
        let (go_left, go_right) = directions(self.side);
        let begin = if go_left {
            src.space_left(self.range.begin, self.newlines, self.whitespace, self.continuations)
        } else {
            self.range.begin
        };
        let end = if go_right {
            src.space_right(self.range.end, self.newlines, self.whitespace, self.continuations)
        } else {
            self.range.end
        };
        Loc { begin, end }
    }
}

/// Options for widening a range to whole lines.
pub struct ByWholeLinesBuilder {
    pub range: Loc,
    pub include_final_newline: bool,
}

impl ByWholeLinesBuilder {
    pub fn include_final_newline(self, include_final_newline: bool) -> (r: Self)
        ensures
            r == (Self { include_final_newline, ..self }),
    {
        Self { include_final_newline, ..self }
    }

    /// The widened range in `src`.
    pub fn build(self, src: &DecodedInput) -> (r: Loc)
        requires
            self.range.begin <= self.range.end <= src.bytes@.len(),
        ensures
            r == whole_lines_range(src.bytes@, self.range, self.include_final_newline),
    {
        let (_, col) = src.line_col_for_pos(self.range.begin);
        let e = src.line_end(self.range.end);
        let end = if self.include_final_newline && e < src.bytes.len() { e + 1 } else { e };
        Loc { begin: self.range.begin - col, end }
    }
}

} // verus!
