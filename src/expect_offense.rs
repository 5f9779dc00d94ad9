use vstd::prelude::*;

use crate::cop::{concat, Offense};
use crate::source::{line_end, line_of, line_start, lossy_text, text_of, DecodedInput, Loc};

verus! {

/// Source text with annotation lines under the lines they point at, such as
/// `^^^ message` marking the three bytes above.
pub struct AnnotatedSource {
    lines: Vec<String>,
    annotations: Vec<(usize, String)>,
}

/// The stages of reading the start of a line that may be an annotation.
pub enum ParseStage {
    Whitespace,
    FirstCaret,
    ExtraCarets,
    LeftCurly,
    RightCurly,
}

pub open spec fn is_ascii_space(b: u8) -> bool {
    b == 32u8 || b == 9u8 || b == 10u8 || b == 12u8 || b == 13u8
}

/// Whether `line[i..]`, read from `stage`, makes the line an annotation: blanks,
/// then `^` and either more carets or `{}`, then a space.
pub open spec fn annotation_from(line: Seq<u8>, i: int, stage: ParseStage) -> bool
    decreases line.len() - i,
{
    if i < 0 || i >= line.len() {
        false
    } else {
        let b = line[i];
        match stage {
            ParseStage::Whitespace => if is_ascii_space(b) {
                annotation_from(line, i + 1, ParseStage::Whitespace)
            } else if b == 94u8 {
                annotation_from(line, i + 1, ParseStage::FirstCaret)
            } else {
                false
            },
            ParseStage::FirstCaret => if b == 94u8 {
                annotation_from(line, i + 1, ParseStage::ExtraCarets)
            } else if b == 123u8 {
                annotation_from(line, i + 1, ParseStage::LeftCurly)
            } else {
                b == 32u8
            },
            ParseStage::ExtraCarets => if b == 94u8 {
                annotation_from(line, i + 1, ParseStage::ExtraCarets)
            } else {
                b == 32u8
            },
            ParseStage::LeftCurly => if b == 125u8 {
                annotation_from(line, i + 1, ParseStage::RightCurly)
            } else {
                false
            },
            ParseStage::RightCurly => b == 32u8,
        }
    }
}

fn is_annotation(code: &[u8], start: usize, end: usize) -> (r: bool)
    requires
        start <= end <= code@.len(),
    ensures
        r == annotation_from(code@.subrange(start as int, end as int), 0, ParseStage::Whitespace),
{
    let ghost line = code@.subrange(start as int, end as int);
    let mut stage = ParseStage::Whitespace;
    let mut i: usize = start;
    while i < end
        invariant
            start <= i <= end <= code@.len(),
            line == code@.subrange(start as int, end as int),
            annotation_from(line, 0, ParseStage::Whitespace) == annotation_from(line, i - start, stage),
        decreases end - i,
    {
        let b = code[i];
        assert(line[i - start] == b);
        match stage {
            ParseStage::Whitespace => {
                if b == 32u8 || b == 9u8 || b == 10u8 || b == 12u8 || b == 13u8 {
                } else if b == 94u8 {
                    stage = ParseStage::FirstCaret;
                } else {
                    return false;
                }
            },
            ParseStage::FirstCaret => {
                if b == 94u8 {
                    stage = ParseStage::ExtraCarets;
                } else if b == 123u8 {
                    stage = ParseStage::LeftCurly;
                } else {
                    return b == 32u8;
                }
            },
            ParseStage::ExtraCarets => {
                if b != 94u8 {
                    return b == 32u8;
                }
            },
            ParseStage::LeftCurly => {
                if b == 125u8 {
                    stage = ParseStage::RightCurly;
                } else {
                    return false;
                }
            },
            ParseStage::RightCurly => {
                return b == 32u8;
            },
        }
        i = i + 1;
    }
    false
}

/// The index of the first line break in `s` from `i` on, or the length of `s`.
pub open spec fn next_newline(s: Seq<u8>, i: int) -> int
    decreases s.len() - i,
{
    if i < 0 || i >= s.len() {
        s.len() as int
    } else if s[i] == 10u8 {
        i
    } else {
        next_newline(s, i + 1)
    }
}

/// The lines of `s` from `start` on, split at each line break; a final line break
/// ends an empty last line.
pub open spec fn lines_from(s: Seq<u8>, start: int) -> Seq<Seq<u8>>
    decreases s.len() - start,
{
    let e = next_newline(s, start);
    if start < 0 || start > s.len() || e >= s.len() || e < start {
        seq![s.subrange(start, s.len() as int)]
    } else {
        seq![s.subrange(start, e)] + lines_from(s, e + 1)
    }
}

/// The lines of `segs` that are not annotations, in order.
pub open spec fn source_segments(segs: Seq<Seq<u8>>) -> Seq<Seq<u8>>
    decreases segs.len(),
{
    if segs.len() == 0 {
        Seq::empty()
    } else {
        let rest = source_segments(segs.drop_last());
        if annotation_from(segs.last(), 0, ParseStage::Whitespace) {
            rest
        } else {
            rest.push(segs.last())
        }
    }
}

/// The annotation lines among `segs`, in order, each with the number of source
/// lines above it and its text.
pub open spec fn annotation_notes(segs: Seq<Seq<u8>>) -> Seq<(int, Seq<char>)>
    decreases segs.len(),
{
    if segs.len() == 0 {
        Seq::empty()
    } else {
        let rest = annotation_notes(segs.drop_last());
        if annotation_from(segs.last(), 0, ParseStage::Whitespace) {
            rest.push((source_segments(segs.drop_last()).len() as int, lossy_text(segs.last())))
        } else {
            rest
        }
    }
}

/// The annotations as numbers and texts.
pub open spec fn notes_view(notes: Seq<(usize, String)>) -> Seq<(int, Seq<char>)> {
    Seq::new(notes.len(), |i: int| (notes[i].0 as int, notes[i].1@))
}

/// The number of annotation lines among `segs`.
pub open spec fn annotation_count(segs: Seq<Seq<u8>>) -> int
    decreases segs.len(),
{
    if segs.len() == 0 {
        0
    } else {
        annotation_count(segs.drop_last()) + if annotation_from(segs.last(), 0, ParseStage::Whitespace) {
            1int
        } else {
            0int
        }
    }
}

proof fn lemma_next_newline(s: Seq<u8>, i: int, n: int)
    requires
        0 <= i <= n <= s.len(),
        forall|j: int| i <= j < n ==> s[j] != 10u8,
        n < s.len() ==> s[n] == 10u8,
    ensures
        next_newline(s, i) == n,
    decreases n - i,
{
    if i < n {
        lemma_next_newline(s, i + 1, n);
    }
}

fn find_newline(code: &[u8], from: usize) -> (r: usize)
    requires
        from <= code@.len(),
    ensures
        from <= r <= code@.len(),
        r < code@.len() ==> code@[r as int] == 10u8,
        forall|j: int| from <= j < r ==> code@[j] != 10u8,
{
    let mut i = from;
    while i < code.len() && code[i] != 10u8
        invariant
            from <= i <= code@.len(),
            forall|j: int| from <= j < i ==> code@[j] != 10u8,
        decreases code@.len() - i,
    {
        i = i + 1;
    }
    i
}

/// The first `n` lines of `ls` joined by line breaks.
pub open spec fn joined(ls: Seq<String>, n: int) -> Seq<char>
    decreases n,
{
    if n <= 0 {
        Seq::empty()
    } else if n == 1 {
        ls[0]@
    } else {
        joined(ls, n - 1) + "\n"@ + ls[n - 1]@
    }
}

/// Whether an actual annotation matches an expected one: the same line, and the
/// same bytes, or where the expected text ends in `[...]`, the bytes before that
/// begin the actual text.
pub open spec fn annotation_matches(actual: (usize, String), expected: (usize, String)) -> bool {
    let a = vstd::utf8::encode_utf8(actual.1@);
    let e = vstd::utf8::encode_utf8(expected.1@);
    let n = e.len();
    &&& actual.0 == expected.0
    &&& if n >= 5 && e.subrange(n - 5, n as int) == seq![91u8, 46u8, 46u8, 46u8, 93u8] {
        a.len() >= n - 5 && a.subrange(0, n - 5) == e.subrange(0, n - 5)
    } else {
        actual.1@ == expected.1@
    }
}

/// The text of `lines` from `li` on with `notes` from `ai` on: each note comes
/// after the lines above it, and every line and note ends with a line break.
pub open spec fn text_from(lines: Seq<String>, notes: Seq<(usize, String)>, li: int, ai: int) -> Seq<char>
    decreases notes.len() - ai, lines.len() - li,
{
    if li < 0 || ai < 0 || li > lines.len() || ai > notes.len() {
        Seq::empty()
    } else if ai < notes.len() {
        if li < notes[ai].0 && li < lines.len() {
            lines[li]@ + "\n"@ + text_from(lines, notes, li + 1, ai)
        } else {
            notes[ai].1@ + "\n"@ + text_from(lines, notes, li, ai + 1)
        }
    } else if li < lines.len() {
        lines[li]@ + "\n"@ + text_from(lines, notes, li + 1, ai)
    } else {
        Seq::empty()
    }
}

/// The number of carets under an offense's range: to its end where it ends on
/// the line where it begins, else to the end of that line, line break included.
pub open spec fn caret_count(b: Seq<u8>, loc: Loc) -> int {
    let start = line_start(b, loc.begin as int);
    let col = loc.begin - start;
    let le = line_end(b, loc.begin as int);
    let line_len = (if le < b.len() { le + 1 } else { le }) - start;
    if line_of(b, loc.begin as int) == line_of(b, loc.end as int) {
        let end_col = loc.end - line_start(b, loc.end as int);
        if end_col >= col { end_col - col } else { 0 }
    } else if line_len >= col {
        line_len - col
    } else {
        0
    }
}

/// Spaces up to the column, the carets (`^{}` for none), and a space.
pub open spec fn annotation_head(col: nat, carets: nat) -> Seq<u8> {
    Seq::new(col, |i: int| 32u8) + (if carets == 0 {
        seq![94u8, 123u8, 125u8]
    } else {
        Seq::new(carets, |i: int| 94u8)
    }) + seq![32u8]
}

/// The annotation of each offense whose range lies in `b`: the number of its
/// first line counted from 1, and its carets followed by its message.
pub open spec fn offense_notes(b: Seq<u8>, offs: Seq<Offense>) -> Seq<(int, Seq<char>)>
    decreases offs.len(),
{
    if offs.len() == 0 {
        Seq::empty()
    } else {
        let rest = offense_notes(b, offs.drop_last());
        let o = offs.last();
        let loc = o.loc;
        if loc.begin <= loc.end <= b.len() && line_of(b, loc.begin as int) < usize::MAX {
            let col = loc.begin - line_start(b, loc.begin as int);
            rest.push(
                (
                    line_of(b, loc.begin as int) + 1,
                    lossy_text(annotation_head(col as nat, caret_count(b, loc) as nat)) + o.message@,
                ),
            )
        } else {
            rest
        }
    }
}

/// Whether the text of `a` comes before or equals the text of `b`, byte by byte.
fn text_le(a: &String, b: &String) -> (r: bool) {
    let x = a.as_str().as_bytes();
    let y = b.as_str().as_bytes();
    let mut i: usize = 0;
    while i < x.len() && i < y.len()
        decreases x@.len() - i,
    {
        if x[i] != y[i] {
            return x[i] < y[i];
        }
        i = i + 1;
    }
    x.len() <= y.len()
}

impl AnnotatedSource {
    pub closed spec fn source_lines(&self) -> Seq<String> {
        self.lines@
    }

    pub closed spec fn notes(&self) -> Seq<(usize, String)> {
        self.annotations@
    }

    /// Splits `annotated_code` into its source lines and its annotation lines;
    /// each annotation keeps the number of source lines above it, and the
    /// annotations are sorted by that number, then by text.
    pub fn parse(annotated_code: &str) -> (r: AnnotatedSource)
        ensures
            ({
                let segs = lines_from(vstd::utf8::encode_utf8(annotated_code@), 0);
                &&& r.source_lines().len() == source_segments(segs).len()
                &&& forall|i: int|
                    0 <= i < r.source_lines().len() ==> (#[trigger] r.source_lines()[i])@ == lossy_text(
                        source_segments(segs)[i],
                    )
                &&& forall|i: int|
                    0 <= i < r.source_lines().len() && vstd::utf8::valid_utf8(source_segments(segs)[i])
                        ==> vstd::utf8::encode_utf8((#[trigger] r.source_lines()[i])@) == source_segments(segs)[i]
                &&& r.notes().len() == annotation_count(segs)
                &&& notes_view(r.notes()).to_multiset() == annotation_notes(segs).to_multiset()
            }),
            forall|i: int, j: int| 0 <= i < j < r.notes().len() ==> r.notes()[i].0 <= r.notes()[j].0,
            forall|i: int| 0 <= i < r.notes().len() ==> r.notes()[i].0 <= r.source_lines().len(),
    {
        let code = annotated_code.as_bytes();
        let mut lines: Vec<String> = Vec::new();
        let mut annotations: Vec<(usize, String)> = Vec::new();
        let mut start: usize = 0;
        let ghost mut done: Seq<Seq<u8>> = Seq::empty();
        proof {
            assert(notes_view(annotations@) =~= Seq::<(int, Seq<char>)>::empty());
            assert(annotation_notes(done) == Seq::<(int, Seq<char>)>::empty());
        }
        loop
            invariant_except_break
                done + lines_from(code@, start as int) == lines_from(code@, 0),
            invariant
                start <= code@.len(),
                code@ == vstd::utf8::encode_utf8(annotated_code@),
                lines@.len() == source_segments(done).len(),
                forall|i: int| 0 <= i < lines@.len() ==> (#[trigger] lines@[i])@ == lossy_text(source_segments(done)[i]),
                forall|i: int|
                    0 <= i < lines@.len() && vstd::utf8::valid_utf8(source_segments(done)[i])
                        ==> vstd::utf8::encode_utf8((#[trigger] lines@[i])@) == source_segments(done)[i],
                annotations@.len() == annotation_count(done),
                notes_view(annotations@).to_multiset() == annotation_notes(done).to_multiset(),
                forall|i: int, j: int|
                    0 <= i < j < annotations@.len() ==> annotations@[i].0 <= annotations@[j].0,
                forall|i: int| 0 <= i < annotations@.len() ==> annotations@[i].0 <= lines@.len(),
            ensures
                done == lines_from(code@, 0),
            decreases code@.len() - start,
        {
            let end = find_newline(code, start);
            let seg = vstd::slice::slice_subrange(code, start, end);
            proof {
                lemma_next_newline(code@, start as int, end as int);
                assert(seg@ == code@.subrange(start as int, end as int));
                if end < code@.len() {
                    assert(lines_from(code@, start as int) == seq![seg@] + lines_from(code@, end + 1));
                } else {
                    assert(lines_from(code@, start as int) == seq![seg@]);
                }
                assert(done.push(seg@).drop_last() =~= done);
                assert(done.push(seg@).last() == seg@);
            }
            let text = text_of(seg);
            if is_annotation(code, start, end) {
                let at = lines.len();
                let mut j = annotations.len();
                while j > 0 && annotations[j - 1].0 == at && !text_le(&annotations[j - 1].1, &text)
                    invariant
                        j <= annotations@.len(),
                        forall|i: int, k: int|
                            0 <= i < k < annotations@.len() ==> annotations@[i].0 <= annotations@[k].0,
                        forall|i: int| 0 <= i < annotations@.len() ==> annotations@[i].0 <= at,
                        forall|i: int| j <= i < annotations@.len() ==> annotations@[i].0 == at,
                        at == lines@.len(),
                    decreases j,
                {
                    j = j - 1;
                }
                let ghost before = annotations@;
                annotations.insert(j, (at, text));
                proof {
                    assert(notes_view(annotations@) =~= notes_view(before).insert(j as int, (at as int, text@)));
                    vstd::seq_lib::to_multiset_insert(notes_view(before), j as int, (at as int, text@));
                    vstd::seq_lib::to_multiset_build(annotation_notes(done), (at as int, text@));
                    assert(annotation_notes(done.push(seg@)) == annotation_notes(done).push((at as int, text@)));
                }
            } else {
                lines.push(text);
            }
            proof {
                if end < code@.len() {
                    assert(done.push(seg@) + lines_from(code@, end + 1) =~= done + lines_from(code@, start as int));
                } else {
                    assert(done.push(seg@) =~= done + lines_from(code@, start as int));
                }
                done = done.push(seg@);
            }
            if end >= code.len() {
                assert(done =~= lines_from(code@, 0));
                break;
            }
            start = end + 1;
        }
        AnnotatedSource { lines, annotations }
    }

    /// The source lines joined by line breaks.
    pub fn plain_source(&self) -> (r: String)
        ensures
            r@ == joined(self.source_lines(), self.source_lines().len() as int),
    {
        let mut out = "".to_owned();
        proof {
            reveal_strlit("");
        }
        let mut i: usize = 0;
        while i < self.lines.len()
            invariant
                i <= self.lines@.len(),
                out@ == joined(self.lines@, i as int),
            decreases self.lines@.len() - i,
        {
            if i > 0 {
                out = concat(out.as_str(), "\n");
            }
            out = concat(out.as_str(), self.lines[i].as_str());
            i = i + 1;
        }
        out
    }

    /// Whether the annotations match, line for line; an expected annotation that
    /// ends in `[...]` matches any actual one that starts with the rest of it.
    pub fn matches_annotations(&self, other: &AnnotatedSource) -> (r: bool)
        ensures
            r == (self.notes().len() == other.notes().len() && forall|i: int|
                0 <= i < self.notes().len() ==> annotation_matches(#[trigger] self.notes()[i], other.notes()[i])),
    {
        if self.annotations.len() != other.annotations.len() {
            return false;
        }
        let mut idx: usize = 0;
        while idx < self.annotations.len()
            invariant
                self.annotations@.len() == other.annotations@.len(),
                idx <= self.annotations@.len(),
                forall|i: int| 0 <= i < idx ==> annotation_matches(#[trigger] self.annotations@[i], other.annotations@[i]),
            decreases self.annotations@.len() - idx,
        {
            let actual = &self.annotations[idx];
            let expected = &other.annotations[idx];
            if actual.0 != expected.0 {
                return false;
            }
            let a = actual.1.as_str().as_bytes();
            let e = expected.1.as_str().as_bytes();
            let n = e.len();
            let abbreviated = n >= 5 && e[n - 5] == 91u8 && e[n - 4] == 46u8 && e[n - 3] == 46u8 && e[n - 2] == 46u8
                && e[n - 1] == 93u8;
            proof {
                if n >= 5 {
                    assert(abbreviated == (e@.subrange(n - 5, n as int) == seq![91u8, 46u8, 46u8, 46u8, 93u8])) by {
                        if abbreviated {
                            assert(e@.subrange(n - 5, n as int) =~= seq![91u8, 46u8, 46u8, 46u8, 93u8]);
                        } else if e@.subrange(n - 5, n as int) == seq![91u8, 46u8, 46u8, 46u8, 93u8] {
                            assert(e@.subrange(n - 5, n as int)[0] == e@[n - 5]);
                            assert(e@.subrange(n - 5, n as int)[1] == e@[n - 4]);
                            assert(e@.subrange(n - 5, n as int)[2] == e@[n - 3]);
                            assert(e@.subrange(n - 5, n as int)[3] == e@[n - 2]);
                            assert(e@.subrange(n - 5, n as int)[4] == e@[n - 1]);
                        }
                    }
                }
            }
            if abbreviated {
                if a.len() < n - 5 {
                    return false;
                }
                let mut k: usize = 0;
                while k < n - 5
                    invariant
                        n >= 5,
                        n == e@.len(),
                        a@.len() >= n - 5,
                        k <= n - 5,
                        forall|j: int| 0 <= j < k ==> a@[j] == e@[j],
                        idx < self.annotations@.len() == other.annotations@.len(),
                        a@ == vstd::utf8::encode_utf8(self.annotations@[idx as int].1@),
                        e@ == vstd::utf8::encode_utf8(other.annotations@[idx as int].1@),
                        e@.subrange(n - 5, n as int) == seq![91u8, 46u8, 46u8, 46u8, 93u8],
                    decreases n - 5 - k,
                {
                    if a[k] != e[k] {
                        assert(a@.subrange(0, n - 5)[k as int] != e@.subrange(0, n - 5)[k as int]);
                        return false;
                    }
                    k = k + 1;
                }
                assert(a@.subrange(0, n - 5) =~= e@.subrange(0, n - 5));
            } else if !actual.1.eq(&expected.1) {
                return false;
            }
            idx = idx + 1;
        }
        true
    }

    /// Whether the source lines are equal and the annotations match.
    pub fn same_as(&self, other: &AnnotatedSource) -> (r: bool)
        ensures
            r == ((self.source_lines().len() == other.source_lines().len() && forall|i: int|
                0 <= i < self.source_lines().len() ==> (#[trigger] self.source_lines()[i])@ == other.source_lines()[i]@)
                && self.notes().len() == other.notes().len() && forall|i: int|
                0 <= i < self.notes().len() ==> annotation_matches(#[trigger] self.notes()[i], other.notes()[i])),
    {
        if self.lines.len() != other.lines.len() {
            return false;
        }
        let mut i: usize = 0;
        while i < self.lines.len()
            invariant
                self.lines@.len() == other.lines@.len(),
                i <= self.lines@.len(),
                forall|j: int| 0 <= j < i ==> (#[trigger] self.lines@[j])@ == other.lines@[j]@,
            decreases self.lines@.len() - i,
        {
            if !self.lines[i].eq(&other.lines[i]) {
                return false;
            }
            i = i + 1;
        }
        self.matches_annotations(other)
    }

    /// The text of the source with its annotations, each under the lines above it.
    pub fn to_text(&self) -> (r: String)
        ensures
            r@ == text_from(self.source_lines(), self.notes(), 0, 0),
    {
        let mut out = "".to_owned();
        proof {
            reveal_strlit("");
            reveal_strlit("\n");
            assert(out@ + text_from(self.lines@, self.annotations@, 0, 0) =~= text_from(self.lines@, self.annotations@, 0, 0));
        }
        let ghost all = text_from(self.lines@, self.annotations@, 0, 0);
        let mut line_index: usize = 0;
        let mut a: usize = 0;
        while a < self.annotations.len()
            invariant
                a <= self.annotations@.len(),
                line_index <= self.lines@.len(),
                out@ + text_from(self.lines@, self.annotations@, line_index as int, a as int) == all,
            decreases self.annotations@.len() - a,
        {
            let line_number = self.annotations[a].0;
            while line_index < line_number && line_index < self.lines.len()
                invariant
                    a < self.annotations@.len(),
                    line_number == self.annotations@[a as int].0,
                    line_index <= self.lines@.len(),
                    out@ + text_from(self.lines@, self.annotations@, line_index as int, a as int) == all,
                decreases self.lines@.len() - line_index,
            {
                let ghost before = out@;
                out = concat(out.as_str(), self.lines[line_index].as_str());
                out = concat(out.as_str(), "\n");
                assert(out@ + text_from(self.lines@, self.annotations@, line_index + 1, a as int) =~= before
                    + text_from(self.lines@, self.annotations@, line_index as int, a as int));
                line_index = line_index + 1;
            }
            let ghost before = out@;
            out = concat(out.as_str(), self.annotations[a].1.as_str());
            out = concat(out.as_str(), "\n");
            assert(out@ + text_from(self.lines@, self.annotations@, line_index as int, a + 1) =~= before
                + text_from(self.lines@, self.annotations@, line_index as int, a as int));
            a = a + 1;
        }
        while line_index < self.lines.len()
            invariant
                a == self.annotations@.len(),
                line_index <= self.lines@.len(),
                out@ + text_from(self.lines@, self.annotations@, line_index as int, a as int) == all,
            decreases self.lines@.len() - line_index,
        {
            let ghost before = out@;
            out = concat(out.as_str(), self.lines[line_index].as_str());
            out = concat(out.as_str(), "\n");
            assert(out@ + text_from(self.lines@, self.annotations@, line_index + 1, a as int) =~= before
                + text_from(self.lines@, self.annotations@, line_index as int, a as int));
            line_index = line_index + 1;
        }
        assert(out@ =~= all);
        out
    }

    /// The same source lines, annotated with `offenses` instead: carets under
    /// each offense's range on its first line (`^{}` for an empty range), then
    /// its message.
    pub fn with_offense_annotations(&self, offenses: &Vec<Offense>, input: &DecodedInput) -> (r: AnnotatedSource)
        ensures
            r.notes().len() == offense_notes(input.bytes@, offenses@).len(),
            forall|i: int|
                0 <= i < r.notes().len() ==> (#[trigger] r.notes()[i]).0 == offense_notes(input.bytes@, offenses@)[i].0
                    && r.notes()[i].1@ == offense_notes(input.bytes@, offenses@)[i].1,
            r.source_lines().len() == self.source_lines().len(),
            forall|i: int| 0 <= i < r.source_lines().len() ==> (#[trigger] r.source_lines()[i])@ == self.source_lines()[i]@,
    {
        let mut annotations: Vec<(usize, String)> = Vec::new();
        let len = input.bytes.len();
        let ghost b = input.bytes@;
        let mut i: usize = 0;
        while i < offenses.len()
            invariant
                i <= offenses@.len(),
                len == input.bytes@.len(),
                b == input.bytes@,
                annotations@.len() == offense_notes(b, offenses@.subrange(0, i as int)).len(),
                forall|j: int|
                    0 <= j < annotations@.len() ==> (#[trigger] annotations@[j]).0 == offense_notes(
                        b,
                        offenses@.subrange(0, i as int),
                    )[j].0 && annotations@[j].1@ == offense_notes(b, offenses@.subrange(0, i as int))[j].1,
            decreases offenses@.len() - i,
        {
            let ghost prefix = offenses@.subrange(0, i as int);
            let ghost next = offenses@.subrange(0, i + 1);
            proof {
                assert(next.drop_last() =~= prefix);
                assert(next.last() == offenses@[i as int]);
            }
            let loc = offenses[i].loc;
            i = i + 1;
            if !(loc.begin <= loc.end && loc.end <= len) {
                continue;
            }
            let (line, column) = input.line_col_for_pos(loc.begin);
            let (end_line, end_column) = input.line_col_for_pos(loc.end);
            let line_start = loc.begin - column;
            let line_end = input.line_end(loc.begin);
            let line_len = if line_end < len { line_end + 1 - line_start } else { line_end - line_start };
            let column_length = if line == end_line {
                if end_column >= column { end_column - column } else { 0 }
            } else if line_len >= column {
                line_len - column
            } else {
                0
            };
            assert(column_length == caret_count(b, loc));
            let mut bytes: Vec<u8> = Vec::new();
            let mut k: usize = 0;
            while k < column
                invariant
                    k <= column,
                    bytes@ == Seq::new(k as nat, |x: int| 32u8),
                decreases column - k,
            {
                bytes.push(32u8);
                k = k + 1;
                assert(bytes@ =~= Seq::new(k as nat, |x: int| 32u8));
            }
            let ghost spaces = bytes@;
            if column_length == 0 {
                bytes.push(94u8);
                bytes.push(123u8);
                bytes.push(125u8);
                assert(bytes@ =~= spaces + seq![94u8, 123u8, 125u8]);
            } else {
                let mut k: usize = 0;
                while k < column_length
                    invariant
                        k <= column_length,
                        bytes@ == spaces + Seq::new(k as nat, |x: int| 94u8),
                    decreases column_length - k,
                {
                    bytes.push(94u8);
                    k = k + 1;
                    assert(bytes@ =~= spaces + Seq::new(k as nat, |x: int| 94u8));
                }
            }
            bytes.push(32u8);
            assert(bytes@ =~= annotation_head(column as nat, column_length as nat));
            let head = text_of(bytes.as_slice());
            let text = concat(head.as_str(), offenses[i - 1].message.as_str());
            if line < usize::MAX {
                annotations.push((line + 1, text));
            }
        }
        proof {
            assert(offenses@.subrange(0, offenses@.len() as int) =~= offenses@);
        }
        let mut lines: Vec<String> = Vec::new();
        let mut j: usize = 0;
        while j < self.lines.len()
            invariant
                j <= self.lines@.len(),
                lines@.len() == j,
                forall|i: int| 0 <= i < j ==> (#[trigger] lines@[i])@ == self.lines@[i]@,
            decreases self.lines@.len() - j,
        {
            lines.push(self.lines[j].clone());
            j = j + 1;
        }
        AnnotatedSource { lines, annotations }
    }
}

/// The lines of `b` from `start` on, as `str::lines` gives them: split at line
/// breaks, with a carriage return before a break dropped, and no empty line
/// after a final break.
pub open spec fn text_lines(b: Seq<u8>, start: int) -> Seq<Seq<u8>>
    decreases b.len() - start,
{
    if start < 0 || start >= b.len() {
        Seq::empty()
    } else {
        let e = next_newline(b, start);
        let le = if e > start && b[e - 1] == 13u8 {
            e - 1
        } else {
            e
        };
        if e >= b.len() || e < start {
            seq![b.subrange(start, le)]
        } else {
            seq![b.subrange(start, le)] + text_lines(b, e + 1)
        }
    }
}

/// Every byte of `line` is ASCII whitespace.
pub open spec fn blank(line: Seq<u8>) -> bool {
    forall|i: int| 0 <= i < line.len() ==> is_ascii_space(#[trigger] line[i])
}

/// `line` without its first `k` bytes, or empty where it is shorter.
pub open spec fn dedent(line: Seq<u8>, k: int) -> Seq<u8> {
    if line.len() >= k {
        line.subrange(k, line.len() as int)
    } else {
        Seq::empty()
    }
}

/// Lines `1..m` of `ls`, each without its first `k` bytes, joined by line breaks.
pub open spec fn dedented_join(ls: Seq<Seq<u8>>, k: int, m: int) -> Seq<u8>
    decreases m,
{
    if m <= 1 {
        Seq::empty()
    } else if m == 2 {
        dedent(ls[1], k)
    } else {
        dedented_join(ls, k, m - 1) + seq![10u8] + dedent(ls[m - 1], k)
    }
}

/// The bytes of a source written indented inside a test: where its first line is
/// empty and its last line blank, the lines between, each without as many bytes
/// as the last line has; none where the source has another form.
pub open spec fn normalized(b: Seq<u8>) -> Option<Seq<u8>> {
    let ls = text_lines(b, 0);
    let n = ls.len();
    if n >= 2 && ls[0].len() == 0 && blank(ls[n - 1]) {
        Some(dedented_join(ls, ls[n - 1].len() as int, n - 1))
    } else {
        None
    }
}

/// A source written indented inside a test, starting with a line break and
/// ending with the indentation of the closing quote, with that indentation
/// taken off every line; any other text as it is.
pub fn normalize_source(source: &str) -> (r: String)
    ensures
        match normalized(vstd::utf8::encode_utf8(source@)) {
            Some(x) => r@ == lossy_text(x),
            None => r@ == source@,
        },
{
    let code = source.as_bytes();
    let mut starts: Vec<usize> = Vec::new();
    let mut ends: Vec<usize> = Vec::new();
    let mut start: usize = 0;
    let ghost mut segs: Seq<Seq<u8>> = Seq::empty();
    while start < code.len()
        invariant_except_break
            segs + text_lines(code@, start as int) == text_lines(code@, 0),
        invariant
            starts@.len() == ends@.len() == segs.len(),
            start <= code@.len(),
            forall|i: int|
                0 <= i < starts@.len() ==> #[trigger] starts@[i] <= ends@[i] <= code@.len() && segs[i]
                    == code@.subrange(starts@[i] as int, ends@[i] as int),
        ensures
            segs == text_lines(code@, 0),
        decreases code@.len() - start,
    {
        let end = find_newline(code, start);
        let mut line_end = end;
        if line_end > start && code[line_end - 1] == 13u8 {
            line_end = line_end - 1;
        }
        proof {
            lemma_next_newline(code@, start as int, end as int);
            let line = code@.subrange(start as int, line_end as int);
            if end < code@.len() {
                assert(text_lines(code@, start as int) == seq![line] + text_lines(code@, end + 1));
                assert(segs.push(line) + text_lines(code@, end + 1) =~= segs + text_lines(code@, start as int));
            } else {
                assert(text_lines(code@, start as int) == seq![line]);
                assert(text_lines(code@, end as int) == Seq::<Seq<u8>>::empty());
                assert(segs.push(line) =~= segs + text_lines(code@, start as int));
            }
            segs = segs.push(line);
        }
        starts.push(start);
        ends.push(line_end);
        if end >= code.len() {
            break;
        }
        start = end + 1;
    }
    proof {
        if start >= code@.len() {
            assert(segs + text_lines(code@, start as int) =~= segs);
        }
    }
    let ghost ls = text_lines(code@, 0);
    assert(segs == ls);
    let n = starts.len();
    if n < 2 || starts[0] != ends[0] {
        return source.to_owned();
    }
    let last_start = starts[n - 1];
    let last_end = ends[n - 1];
    let mut k = last_start;
    while k < last_end
        invariant
            last_start <= k <= last_end <= code@.len(),
            n == ls.len(),
            n >= 2,
            ls == text_lines(code@, 0),
            code@ == vstd::utf8::encode_utf8(source@),
            ls[n - 1] == code@.subrange(last_start as int, last_end as int),
            forall|j: int| last_start <= j < k ==> is_ascii_space(#[trigger] code@[j]),
        decreases last_end - k,
    {
        let b = code[k];
        if !(b == 32u8 || b == 9u8 || b == 10u8 || b == 12u8 || b == 13u8) {
            assert(ls[n - 1][k - last_start] == b);
            assert(!blank(ls[n - 1]));
            return source.to_owned();
        }
        k = k + 1;
    }
    assert forall|j: int| 0 <= j < ls[n - 1].len() implies is_ascii_space(#[trigger] ls[n - 1][j]) by {
        assert(ls[n - 1][j] == code@[last_start + j]);
    }
    let indent = last_end - last_start;
    let mut out: Vec<u8> = Vec::new();
    let mut i: usize = 1;
    while i < n - 1
        invariant
            starts@.len() == ends@.len() == n == ls.len(),
            n >= 2,
            1 <= i <= n - 1,
            indent == ls[n - 1].len(),
            forall|j: int|
                0 <= j < starts@.len() ==> #[trigger] starts@[j] <= ends@[j] <= code@.len() && ls[j]
                    == code@.subrange(starts@[j] as int, ends@[j] as int),
            out@ == dedented_join(ls, indent as int, i as int),
        decreases n - 1 - i,
    {
        let ghost before = out@;
        if i > 1 {
            out.push(10u8);
        }
        let s = starts[i];
        let e = ends[i];
        let p0 = if e - s >= indent { s + indent } else { e };
        let mut p = p0;
        let ghost mid = out@;
        while p < e
            invariant
                p0 <= p <= e <= code@.len(),
                out@ == mid + code@.subrange(p0 as int, p as int),
            decreases e - p,
        {
            out.push(code[p]);
            assert(code@.subrange(p0 as int, p + 1) =~= code@.subrange(p0 as int, p as int).push(code@[p as int]));
            p = p + 1;
        }
        proof {
            assert(dedent(ls[i as int], indent as int) =~= code@.subrange(p0 as int, e as int));
            if i > 1 {
                assert(out@ =~= dedented_join(ls, indent as int, i + 1));
            } else {
                assert(out@ =~= dedented_join(ls, indent as int, i + 1));
            }
        }
        i = i + 1;
    }
    text_of(out.as_slice())
}

/// `h` with each occurrence of `p`, left to right and not overlapping, replaced by `w`.
pub open spec fn replaced(h: Seq<u8>, p: Seq<u8>, w: Seq<u8>) -> Seq<u8>
    decreases h.len(),
{
    if p.len() == 0 || h.len() < p.len() {
        h
    } else if h.subrange(0, p.len() as int) == p {
        w + replaced(h.subrange(p.len() as int, h.len() as int), p, w)
    } else {
        seq![h[0]] + replaced(h.subrange(1, h.len() as int), p, w)
    }
}

fn starts_at(h: &Vec<u8>, i: usize, p: &Vec<u8>) -> (r: bool)
    requires
        i <= h@.len(),
    ensures
        r == (h@.len() - i >= p@.len() && h@.subrange(i as int, i + p@.len()) == p@),
{
    let hl = h.len();
    if hl - i < p.len() {
        return false;
    }
    let mut k: usize = 0;
    while k < p.len()
        invariant
            k <= p@.len(),
            i <= h@.len() == hl,
            h@.len() - i >= p@.len(),
            forall|j: int| 0 <= j < k ==> h@[i + j] == p@[j],
        decreases p@.len() - k,
    {
        if h[i + k] != p[k] {
            assert(h@.subrange(i as int, i + p@.len())[k as int] != p@[k as int]);
            return false;
        }
        k = k + 1;
    }
    assert(h@.subrange(i as int, i + p@.len()) =~= p@);
    true
}

/// `h` with every `p` replaced by `w`.
fn replace_all(h: &Vec<u8>, p: &Vec<u8>, w: &Vec<u8>) -> (r: Vec<u8>)
    ensures
        r@ == replaced(h@, p@, w@),
{
    let mut out: Vec<u8> = Vec::new();
    let mut i: usize = 0;
    assert(h@.subrange(0, h@.len() as int) =~= h@);
    assert(out@ + replaced(h@, p@, w@) =~= replaced(h@, p@, w@));
    while i < h.len()
        invariant
            i <= h@.len(),
            out@ + replaced(h@.subrange(i as int, h@.len() as int), p@, w@) == replaced(h@, p@, w@),
        decreases h@.len() - i,
    {
        let ghost rest = h@.subrange(i as int, h@.len() as int);
        if p.len() > 0 && starts_at(h, i, p) {
            assert(rest.subrange(0, p@.len() as int) =~= h@.subrange(i as int, i + p@.len()));
            assert(rest.subrange(p@.len() as int, rest.len() as int) =~= h@.subrange(i + p@.len(), h@.len() as int));
            let mut k: usize = 0;
            let ghost before = out@;
            while k < w.len()
                invariant
                    k <= w@.len(),
                    out@ == before + w@.subrange(0, k as int),
                decreases w@.len() - k,
            {
                out.push(w[k]);
                assert(w@.subrange(0, k + 1) =~= w@.subrange(0, k as int).push(w@[k as int]));
                k = k + 1;
            }
            assert(w@.subrange(0, w@.len() as int) =~= w@);
            assert(out@ + replaced(h@.subrange(i + p@.len(), h@.len() as int), p@, w@) =~= before + replaced(rest, p@, w@));
            i = i + p.len();
        } else {
            proof {
                if p@.len() > 0 && rest.len() >= p@.len() {
                    assert(rest.subrange(0, p@.len() as int) =~= h@.subrange(i as int, i + p@.len()));
                }
                assert(rest.subrange(1, rest.len() as int) =~= h@.subrange(i + 1, h@.len() as int));
            }
            let ghost before = out@;
            out.push(h[i]);
            proof {
                if p@.len() == 0 || rest.len() < p@.len() {
                    assert(replaced(rest, p@, w@) == rest);
                    assert(replaced(h@.subrange(i + 1, h@.len() as int), p@, w@) == h@.subrange(i + 1, h@.len() as int));
                    assert(rest =~= seq![h@[i as int]] + h@.subrange(i + 1, h@.len() as int));
                }
            }
            assert(out@ + replaced(h@.subrange(i + 1, h@.len() as int), p@, w@) =~= before + replaced(rest, p@, w@));
            i = i + 1;
        }
    }
    assert(h@.subrange(h@.len() as int, h@.len() as int) =~= Seq::<u8>::empty());
    assert(out@ =~= replaced(h@, p@, w@));
    out
}

/// `n` copies of the byte `b`.
fn repeated(b: u8, n: usize) -> (r: Vec<u8>)
    ensures
        r@ == Seq::new(n as nat, |i: int| b),
{
    let mut out: Vec<u8> = Vec::new();
    while out.len() < n
        invariant
            out@.len() <= n,
            forall|i: int| 0 <= i < out@.len() ==> out@[i] == b,
        decreases n - out@.len(),
    {
        out.push(b);
    }
    assert(out@ =~= Seq::new(n as nat, |i: int| b));
    out
}

/// `keyword` in braces after `sigil`: `%{keyword}`, `^{keyword}` or `_{keyword}`.
fn placeholder(sigil: u8, keyword: &[u8]) -> (r: Vec<u8>)
    ensures
        r@ == seq![sigil, 123u8] + keyword@ + seq![125u8],
{
    let mut out: Vec<u8> = Vec::new();
    out.push(sigil);
    out.push(123u8);
    let mut k: usize = 0;
    while k < keyword.len()
        invariant
            k <= keyword@.len(),
            out@ == seq![sigil, 123u8] + keyword@.subrange(0, k as int),
        decreases keyword@.len() - k,
    {
        out.push(keyword[k]);
        assert(keyword@.subrange(0, k + 1) =~= keyword@.subrange(0, k as int).push(keyword@[k as int]));
        k = k + 1;
    }
    out.push(125u8);
    assert(keyword@.subrange(0, keyword@.len() as int) =~= keyword@);
    assert(out@ =~= seq![sigil, 123u8] + keyword@ + seq![125u8]);
    out
}

/// One keyword's replacements: `%{k}` by the value, then `^{k}` and `_{k}` by as
/// many carets or spaces as the value has bytes.
pub open spec fn formatted_once(h: Seq<u8>, k: Seq<u8>, v: Seq<u8>) -> Seq<u8> {
    let carets = Seq::new(v.len(), |i: int| 94u8);
    let spaces = Seq::new(v.len(), |i: int| 32u8);
    replaced(
        replaced(replaced(h, seq![37u8, 123u8] + k + seq![125u8], v), seq![94u8, 123u8] + k + seq![125u8], carets),
        seq![95u8, 123u8] + k + seq![125u8],
        spaces,
    )
}

/// `h` after the replacements of `rs[0..n]`, in order.
pub open spec fn formatted(h: Seq<u8>, rs: Seq<(String, String)>, n: int) -> Seq<u8>
    decreases n,
{
    if n <= 0 {
        h
    } else {
        formatted_once(
            formatted(h, rs, n - 1),
            vstd::utf8::encode_utf8(rs[n - 1].0@),
            vstd::utf8::encode_utf8(rs[n - 1].1@),
        )
    }
}

/// The bytes of `source` with the placeholders of each keyword filled in.
fn format_bytes(source: &str, replacements: &Vec<(String, String)>) -> (r: Vec<u8>)
    ensures
        r@ == formatted(vstd::utf8::encode_utf8(source@), replacements@, replacements@.len() as int),
{
    let mut out = vstd::slice::slice_to_vec(source.as_bytes());
    let mut i: usize = 0;
    while i < replacements.len()
        invariant
            i <= replacements@.len(),
            out@ == formatted(vstd::utf8::encode_utf8(source@), replacements@, i as int),
        decreases replacements@.len() - i,
    {
        let keyword = replacements[i].0.as_str().as_bytes();
        let value = vstd::slice::slice_to_vec(replacements[i].1.as_str().as_bytes());
        let carets = repeated(94u8, value.len());
        let spaces = repeated(32u8, value.len());
        let a = replace_all(&out, &placeholder(37u8, keyword), &value);
        let b = replace_all(&a, &placeholder(94u8, keyword), &carets);
        out = replace_all(&b, &placeholder(95u8, keyword), &spaces);
        assert(carets@ =~= Seq::new(value@.len(), |j: int| 94u8));
        assert(spaces@ =~= Seq::new(value@.len(), |j: int| 32u8));
        i = i + 1;
    }
    out
}

/// `source` with the placeholders of each keyword filled in: `%{keyword}` by its
/// value, `^{keyword}` and `_{keyword}` by as many carets or spaces as the value
/// has bytes.
pub fn format_source(source: &str, replacements: &Vec<(String, String)>) -> (r: String)
    ensures
        r@ == lossy_text(formatted(vstd::utf8::encode_utf8(source@), replacements@, replacements@.len() as int)),
{
    let bytes = format_bytes(source, replacements);
    text_of(bytes.as_slice())
}

/// The annotations of `source` and its plain text, where it holds at least
/// one annotation line.
pub fn parse_annotations(source: &str) -> (r: Option<(AnnotatedSource, String)>)
    ensures
        match r {
            Some((a, plain)) => plain@ == joined(a.source_lines(), a.source_lines().len() as int) && plain@ != source@,
            None => true,
        },
{
    let annotations = AnnotatedSource::parse(source);
    let plain = annotations.plain_source();
    let text = source.to_owned();
    if plain.eq(&text) {
        None
    } else {
        Some((annotations, plain))
    }
}

} // verus!
