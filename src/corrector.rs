use vstd::prelude::*;

use crate::rewriter::{combine, edit, text_bytes, EditTree, Rewriter};
use crate::source::Loc;

verus! {

/// The edits of one run, registered by byte range.
pub struct Corrector {
    rewriter: Rewriter,
}

impl Corrector {
    pub closed spec fn tree(&self) -> EditTree {
        self.rewriter.tree()
    }

    /// The length of the buffer that the edits apply to.
    pub closed spec fn len(&self) -> int {
        self.rewriter.len()
    }

    /// The edit tree is well-formed; `new` establishes it and every edit keeps it.
    pub closed spec fn well_formed(&self) -> bool {
        self.rewriter.well_formed()
    }

    pub open spec fn fits(&self, loc: Loc) -> bool {
        loc.begin <= loc.end <= self.len()
    }

    pub fn new(code: &[u8]) -> (r: Corrector)
        ensures
            r.tree() == crate::rewriter::untouched(code@.len() as int),
            r.len() == code@.len(),
            r.well_formed(),
    {
        Corrector { rewriter: Rewriter::new(code) }
    }

    /// Whether no edit that changes anything has been registered.
    pub fn is_empty(&self) -> (r: bool)
        ensures
            r == crate::rewriter::is_noop(self.tree()),
    {
        self.rewriter.is_empty()
    }

    pub fn replace(&mut self, loc: Loc, content: String)
        requires
            old(self).fits(loc),
        ensures
            final(self).tree() == combine(
                old(self).tree(),
                edit(loc.begin as int, loc.end as int, Some(text_bytes(content@)), Seq::empty(), Seq::empty()),
            ),
            final(self).len() == old(self).len(),
            old(self).well_formed() ==> final(self).well_formed(),
    {
        self.rewriter.replace(loc.begin, loc.end, content);
    }

    pub fn wrap(&mut self, loc: Loc, insert_before: String, insert_after: String)
        requires
            old(self).fits(loc),
        ensures
            final(self).tree() == combine(
                old(self).tree(),
                edit(loc.begin as int, loc.end as int, None, text_bytes(insert_before@), text_bytes(insert_after@)),
            ),
            final(self).len() == old(self).len(),
            old(self).well_formed() ==> final(self).well_formed(),
    {
        self.rewriter.wrap(loc.begin, loc.end, insert_before, insert_after);
    }

    pub fn remove(&mut self, loc: Loc)
        requires
            old(self).fits(loc),
        ensures
            final(self).tree() == combine(
                old(self).tree(),
                edit(loc.begin as int, loc.end as int, Some(Seq::empty()), Seq::empty(), Seq::empty()),
            ),
            final(self).len() == old(self).len(),
            old(self).well_formed() ==> final(self).well_formed(),
    {
        self.rewriter.remove(loc.begin, loc.end);
    }

    /// Inserts `content` at the start of `loc`.
    pub fn insert_before(&mut self, loc: Loc, content: String)
        requires
            old(self).fits(loc),
        ensures
            final(self).tree() == combine(
                old(self).tree(),
                edit(loc.begin as int, loc.begin as int, None, text_bytes(content@), Seq::empty()),
            ),
            final(self).len() == old(self).len(),
            old(self).well_formed() ==> final(self).well_formed(),
    {
        self.rewriter.insert_before(loc.begin, content);
    }

    /// Inserts `content` at the end of `loc`.
    pub fn insert_after(&mut self, loc: Loc, content: String)
        requires
            old(self).fits(loc),
        ensures
            final(self).tree() == combine(
                old(self).tree(),
                edit(loc.end as int, loc.end as int, None, Seq::empty(), text_bytes(content@)),
            ),
            final(self).len() == old(self).len(),
            old(self).well_formed() ==> final(self).well_formed(),
    {
        self.rewriter.insert_after(loc.end, content);
    }

    /// Deletes the `size` bytes in front of `loc`.
    pub fn remove_preceding(&mut self, loc: Loc, size: usize)
        requires
            old(self).fits(loc),
            size <= loc.begin,
        ensures
            final(self).tree() == combine(
                old(self).tree(),
                edit(loc.begin - size, loc.begin as int, Some(Seq::empty()), Seq::empty(), Seq::empty()),
            ),
            final(self).len() == old(self).len(),
            old(self).well_formed() ==> final(self).well_formed(),
    {
        self.rewriter.remove(loc.begin - size, loc.begin);
    }

    /// Deletes the first `size` bytes of `loc`.
    pub fn remove_leading(&mut self, loc: Loc, size: usize)
        requires
            old(self).fits(loc),
            size <= loc.end - loc.begin,
        ensures
            final(self).tree() == combine(
                old(self).tree(),
                edit(loc.begin as int, loc.begin + size, Some(Seq::empty()), Seq::empty(), Seq::empty()),
            ),
            final(self).len() == old(self).len(),
            old(self).well_formed() ==> final(self).well_formed(),
    {
        self.rewriter.remove(loc.begin, loc.begin + size);
    }

    /// Deletes the last `size` bytes of `loc`.
    pub fn remove_trailing(&mut self, loc: Loc, size: usize)
        requires
            old(self).fits(loc),
            size <= loc.end - loc.begin,
        ensures
            final(self).tree() == combine(
                old(self).tree(),
                edit(loc.end - size, loc.end as int, Some(Seq::empty()), Seq::empty(), Seq::empty()),
            ),
            final(self).len() == old(self).len(),
            old(self).well_formed() ==> final(self).well_formed(),
    {
        self.rewriter.remove(loc.end - size, loc.end);
    }

    /// The source bytes with every registered edit applied.
    pub fn process(self, code: &[u8]) -> (r: Vec<u8>)
        ensures
            r@ == crate::rewriter::render(self.tree(), code@),
    {
        self.rewriter.process(code)
    }
}

} // verus!
