use vstd::prelude::*;
use vstd::slice::slice_to_vec;

verus! {

/// The mathematical model of one node of the edit tree.
pub struct EditTree {
    pub begin: int,
    pub end: int,
    pub replacement: Option<Seq<u8>>,
    pub before: Seq<u8>,
    pub after: Seq<u8>,
    pub children: Seq<EditTree>,
}

/// `code[a, b)`, or nothing where the range does not lie in `code`.
pub open spec fn slice(code: Seq<u8>, a: int, b: int) -> Seq<u8> {
    if 0 <= a <= b <= code.len() {
        code.subrange(a, b)
    } else {
        Seq::empty()
    }
}

/// The text that a node produces in place of `code[t.begin, t.end)`: its prefix,
/// then its full replacement if it has one (which hides everything nested inside),
/// else the source bytes with each child's text in place of the child's range,
/// then its suffix.
pub open spec fn render(t: EditTree, code: Seq<u8>) -> Seq<u8>
    decreases t, 1int,
{
    t.before + match t.replacement {
        Some(r) => r,
        None => render_children(t.children, code, t.begin, t.end, 0),
    } + t.after
}

/// The bytes of `code[from, to)` with `cs[i..]` rendered in place.
pub open spec fn render_children(cs: Seq<EditTree>, code: Seq<u8>, from: int, to: int, i: int) -> Seq<u8>
    decreases cs, cs.len() - i,
{
    if i < 0 || i >= cs.len() {
        slice(code, from, to)
    } else {
        slice(code, from, cs[i].begin) + render(cs[i], code) + render_children(
            cs,
            code,
            cs[i].end,
            to,
            i + 1,
        )
    }
}

pub open spec fn opt_bytes(o: Option<Vec<u8>>) -> Option<Seq<u8>> {
    match o {
        Some(v) => Some(v@),
        None => None,
    }
}

/// One node of the edit tree: a range of the source bytes with the text
/// to put before it, in place of it, and after it, and the nodes nested inside.
pub struct Action {
    begin: usize,
    end: usize,
    replacement: Option<Vec<u8>>,
    before: Vec<u8>,
    after: Vec<u8>,
    children: Vec<Action>,
}

impl Action {
    pub closed spec fn model(self) -> EditTree
        decreases self,
    {
        EditTree {
            begin: self.begin as int,
            end: self.end as int,
            replacement: opt_bytes(self.replacement),
            before: self.before@,
            after: self.after@,
            children: Seq::new(
                self.children@.len(),
                |i: int|
                    if 0 <= i < self.children@.len() {
                        self.children@[i].model()
                    } else {
                        arbitrary()
                    },
            ),
        }
    }
}

/// An edit that would change nothing: no text around it, and no replacement
/// or an empty one over an empty range.
pub open spec fn is_noop(e: EditTree) -> bool {
    &&& e.before.len() == 0
    &&& e.after.len() == 0
    &&& e.children.len() == 0
    &&& match e.replacement {
        None => true,
        Some(r) => r.len() == 0 && e.begin == e.end,
    }
}

/// An edit of exactly the range of `t`, merged into `t`: a new replacement
/// wins over the old one, a new prefix goes in front of the old prefix, a new
/// suffix after the old suffix, and a replacement hides the nodes nested inside.
pub open spec fn merge(t: EditTree, e: EditTree) -> EditTree {
    let replacement = if e.replacement is Some {
        e.replacement
    } else {
        t.replacement
    };
    EditTree {
        begin: t.begin,
        end: t.end,
        replacement,
        before: e.before + t.before,
        after: t.after + e.after,
        children: if replacement is Some {
            Seq::empty()
        } else {
            t.children
        },
    }
}

/// The first index from `i` on whose node ends after `b`, or `cs.len()`.
pub open spec fn first_ending_after(cs: Seq<EditTree>, b: int, i: int) -> int
    decreases cs.len() - i,
{
    if i < 0 || i >= cs.len() {
        cs.len() as int
    } else if cs[i].end > b {
        i
    } else {
        first_ending_after(cs, b, i + 1)
    }
}

/// The first index from `i` on whose node begins at or after `e`, or `cs.len()`.
pub open spec fn first_beginning_from(cs: Seq<EditTree>, e: int, i: int) -> int
    decreases cs.len() - i,
{
    if i < 0 || i >= cs.len() {
        cs.len() as int
    } else if cs[i].begin >= e {
        i
    } else {
        first_beginning_from(cs, e, i + 1)
    }
}

/// Places the edit `e` into the subtree `t`.
///
/// With `l` the first child that ends after `e` begins and `r` the first child
/// (from the one before `l`) that begins where `e` ends or later:
/// - an edit of `t`'s own range is merged into `t`;
/// - an empty child of the same empty range as `e` (`r < l`) takes it by merging;
/// - no child in between (`r == l`): `e` becomes a new child at `l`;
/// - one child that holds `e`: `e` is placed inside that child;
/// - otherwise the children in `[l, r)` that `e` covers become its children, and
///   a child that `e` only partly overlaps is fused: the edit grows to the union of
///   the ranges, keeps its own text, and the text of the overlapped child is dropped.
pub open spec fn combine(t: EditTree, e: EditTree) -> EditTree
    decreases t,
{
    let cs = t.children;
    if is_noop(e) {
        t
    } else if e.begin == t.begin && e.end == t.end {
        merge(t, e)
    } else {
        let l = first_ending_after(cs, e.begin, 0);
        let start = if l == 0 {
            0
        } else {
            l - 1
        };
        let r = first_beginning_from(cs, e.end, start);
        if r < l {
            if 0 <= l - 1 < cs.len() {
                EditTree { children: cs.update(l - 1, merge(cs[l - 1], e)), ..t }
            } else {
                t
            }
        } else if r == l {
            EditTree { children: cs.insert(l, e), ..t }
        } else if r == l + 1 && cs[l].begin <= e.begin && e.end <= cs[l].end {
            if 0 <= l < cs.len() {
                EditTree { children: cs.update(l, combine(cs[l], e)), ..t }
            } else {
                t
            }
        } else {
            fuse(t, e, l, r)
        }
    }
}

/// The last case of `combine`: the children `cs[l..r)` overlap `e` and no one of
/// them holds it. The children that `e` covers become its children; one that it
/// only partly overlaps at either end is fused into it.
pub open spec fn fuse(t: EditTree, e: EditTree, l: int, r: int) -> EditTree {
    let cs = t.children;
    let fuse_left = cs[l].begin < e.begin;
    let fuse_right = cs[r - 1].end > e.end;
    let lo = if fuse_left {
        l + 1
    } else {
        l
    };
    let hi = if fuse_right {
        r - 1
    } else {
        r
    };
    let b = if fuse_left {
        cs[l].begin
    } else {
        e.begin
    };
    let en = if fuse_right {
        cs[r - 1].end
    } else {
        e.end
    };
    let kept = cs.subrange(lo, hi);
    let outer = cs.subrange(0, l);
    let tail = cs.subrange(r, cs.len() as int);
    if b == t.begin && en == t.end {
        merge(EditTree { children: outer + kept + tail, ..t }, e)
    } else {
        EditTree {
            children: outer.push(EditTree { begin: b, end: en, children: kept, ..e }) + tail,
            ..t
        }
    }
}

/// A childless edit of `[begin, end)`.
pub open spec fn edit(begin: int, end: int, replacement: Option<Seq<u8>>, before: Seq<u8>, after: Seq<u8>) -> EditTree {
    EditTree { begin, end, replacement, before, after, children: Seq::empty() }
}

/// The edit tree of a buffer of `n` bytes that holds no edit.
pub open spec fn untouched(n: int) -> EditTree {
    edit(0, n, None, Seq::empty(), Seq::empty())
}

/// The bytes of a string.
pub open spec fn text_bytes(s: Seq<char>) -> Seq<u8> {
    vstd::utf8::encode_utf8(s)
}

/// Placing an edit keeps the range of the tree it is placed in.
pub proof fn lemma_combine_keeps_range(t: EditTree, e: EditTree)
    ensures
        combine(t, e).begin == t.begin,
        combine(t, e).end == t.end,
{
}

/// The ranges of `cs` come one after the other and do not overlap.
pub open spec fn sorted(cs: Seq<EditTree>) -> bool {
    forall|j: int, k: int| 0 <= j < k < cs.len() ==> #[trigger] cs[j].end <= #[trigger] cs[k].begin
}

/// The invariant of the edit tree: each range is well ordered, the children of
/// a node lie inside it, one after the other without overlap, and so on down.
pub open spec fn wf(t: EditTree) -> bool
    decreases t, t.children.len() + 1,
{
    t.begin <= t.end && sorted(t.children) && wf_from(t, 0)
}

/// The children of `t` from the `i`-th on lie inside it and are well-formed.
pub open spec fn wf_from(t: EditTree, i: int) -> bool
    decreases t, t.children.len() - i,
{
    if i < 0 || i >= t.children.len() {
        true
    } else {
        t.begin <= t.children[i].begin && t.children[i].end <= t.end && wf(t.children[i]) && wf_from(t, i + 1)
    }
}

proof fn lemma_wf_from(t: EditTree, i: int)
    requires
        0 <= i <= t.children.len(),
    ensures
        wf_from(t, i) <==> forall|j: int|
            i <= j < t.children.len() ==> t.begin <= #[trigger] t.children[j].begin && t.children[j].end <= t.end
                && wf(t.children[j]),
    decreases t.children.len() - i,
{
    if i < t.children.len() {
        lemma_wf_from(t, i + 1);
    }
}

proof fn lemma_first_ending_after(cs: Seq<EditTree>, b: int, i: int)
    requires
        0 <= i <= cs.len(),
    ensures
        i <= first_ending_after(cs, b, i) <= cs.len(),
        forall|j: int| i <= j < first_ending_after(cs, b, i) ==> #[trigger] cs[j].end <= b,
        first_ending_after(cs, b, i) < cs.len() ==> cs[first_ending_after(cs, b, i)].end > b,
    decreases cs.len() - i,
{
    if i < cs.len() && cs[i].end <= b {
        lemma_first_ending_after(cs, b, i + 1);
    }
}

proof fn lemma_first_beginning_from(cs: Seq<EditTree>, e: int, i: int)
    requires
        0 <= i <= cs.len(),
    ensures
        i <= first_beginning_from(cs, e, i) <= cs.len(),
        forall|j: int| i <= j < first_beginning_from(cs, e, i) ==> #[trigger] cs[j].begin < e,
        first_beginning_from(cs, e, i) < cs.len() ==> cs[first_beginning_from(cs, e, i)].begin >= e,
    decreases cs.len() - i,
{
    if i < cs.len() && cs[i].begin < e {
        lemma_first_beginning_from(cs, e, i + 1);
    }
}

proof fn lemma_wf_intro(t: EditTree)
    requires
        t.begin <= t.end,
        sorted(t.children),
        forall|i: int|
            0 <= i < t.children.len() ==> t.begin <= #[trigger] t.children[i].begin && t.children[i].end <= t.end
                && wf(t.children[i]),
    ensures
        wf(t),
{
    lemma_wf_from(t, 0);
}

proof fn lemma_wf_elim(t: EditTree)
    requires
        wf(t),
    ensures
        t.begin <= t.end,
        sorted(t.children),
        forall|i: int|
            0 <= i < t.children.len() ==> t.begin <= #[trigger] t.children[i].begin && t.children[i].end <= t.end
                && wf(t.children[i]),
{
    assert(wf_from(t, 0));
    lemma_wf_from(t, 0);
}

/// A child of a well-formed node lies inside it and is well-formed.
proof fn lemma_child(t: EditTree, i: int)
    requires
        wf(t),
        0 <= i < t.children.len(),
    ensures
        t.begin <= t.children[i].begin <= t.children[i].end <= t.end,
        wf(t.children[i]),
{
    lemma_wf_elim(t);
    lemma_wf_elim(t.children[i]);
}

/// Replacing one child of a well-formed node by a well-formed node of the same
/// range keeps the node well-formed.
proof fn lemma_update_wf(t: EditTree, l: int, x: EditTree)
    requires
        wf(t),
        0 <= l < t.children.len(),
        wf(x),
        x.begin == t.children[l].begin,
        x.end == t.children[l].end,
    ensures
        wf(EditTree { children: t.children.update(l, x), ..t }),
{
    lemma_wf_elim(t);
    let u = EditTree { children: t.children.update(l, x), ..t };
    let cs = t.children;
    let n = u.children;
    assert forall|j: int, k: int| 0 <= j < k < n.len() implies #[trigger] n[j].end <= #[trigger] n[k].begin by {
        assert(cs[j].end <= cs[k].begin);
    }
    assert forall|i: int| 0 <= i < n.len() implies t.begin <= #[trigger] n[i].begin && n[i].end <= t.end && wf(n[i]) by {
        assert(t.begin <= cs[i].begin && cs[i].end <= t.end);
    }
    lemma_wf_intro(u);
}

proof fn lemma_merge_wf(t: EditTree, e: EditTree)
    requires
        wf(t),
    ensures
        wf(merge(t, e)),
{
    let m = merge(t, e);
    lemma_wf_elim(t);
    if m.replacement is Some {
        assert(sorted(m.children));
        lemma_wf_intro(m);
    } else {
        assert(m.children == t.children);
        lemma_wf_intro(m);
    }
}

/// In a well-formed node, a later child begins after an earlier one ends, and
/// each child begins before it ends.
proof fn lemma_children_ordered(t: EditTree)
    requires
        wf(t),
    ensures
        forall|i: int| 0 <= i < t.children.len() ==> #[trigger] t.children[i].begin <= t.children[i].end,
{
    lemma_wf_elim(t);
    assert forall|i: int| 0 <= i < t.children.len() implies #[trigger] t.children[i].begin <= t.children[i].end by {
        lemma_wf_elim(t.children[i]);
    }
}

/// Placing an edit that lies inside a well-formed tree keeps it well-formed.
pub proof fn lemma_combine_wf(t: EditTree, e: EditTree)
    requires
        wf(t),
        e.children.len() == 0,
        t.begin <= e.begin <= e.end <= t.end,
    ensures
        wf(combine(t, e)),
    decreases t,
{
    let cs = t.children;
    lemma_children_ordered(t);
    if is_noop(e) {
    } else if e.begin == t.begin && e.end == t.end {
        lemma_merge_wf(t, e);
    } else {
        lemma_wf_elim(t);
        let l = first_ending_after(cs, e.begin, 0);
        lemma_first_ending_after(cs, e.begin, 0);
        let start = if l == 0 { 0 } else { l - 1 };
        let r = first_beginning_from(cs, e.end, start);
        lemma_first_beginning_from(cs, e.end, start);
        let c = combine(t, e);
        if r < l {
            let m = merge(cs[l - 1], e);
            lemma_merge_wf(cs[l - 1], e);
            assert(c == EditTree { children: cs.update(l - 1, m), ..t });
            lemma_update_wf(t, l - 1, m);
        } else if r == l {
            assert(c.children == cs.insert(l, e));
            let n = c.children;
            assert forall|j: int, k: int| 0 <= j < k < n.len() implies #[trigger] n[j].end <= #[trigger] n[k].begin by {
                if k < l {
                } else if k == l {
                    assert(n[j] == cs[j]);
                } else if j < l {
                    assert(n[k] == cs[k - 1]);
                } else if j == l {
                    assert(n[k] == cs[k - 1]);
                    if k - 1 > l {
                        assert(cs[l].end <= cs[k - 1].begin);
                    }
                } else {
                    assert(n[j] == cs[j - 1] && n[k] == cs[k - 1]);
                }
            }
            assert forall|i: int| 0 <= i < n.len() implies t.begin <= #[trigger] n[i].begin && n[i].end <= t.end && wf(n[i]) by {
                if i < l {
                    assert(n[i] == cs[i]);
                } else if i > l {
                    assert(n[i] == cs[i - 1]);
                } else {
                    assert(n[i] == e);
                    assert(sorted(e.children));
                    lemma_wf_intro(e);
                }
            }
            assert(sorted(n));
            lemma_wf_intro(c);
        } else if r == l + 1 && cs[l].begin <= e.begin && e.end <= cs[l].end {
            lemma_combine_wf(cs[l], e);
            lemma_combine_keeps_range(cs[l], e);
            assert(c == EditTree { children: cs.update(l, combine(cs[l], e)), ..t });
            lemma_update_wf(t, l, combine(cs[l], e));
        } else {
            lemma_fuse_wf(t, e, l, r, start);
            assert(c == fuse(t, e, l, r));
        }
    }
}

#[verifier::rlimit(50)]
proof fn lemma_fuse_wf(t: EditTree, e: EditTree, l: int, r: int, start: int)
    requires
        wf(t),
        e.children.len() == 0,
        t.begin <= e.begin <= e.end <= t.end,
        0 <= l < r <= t.children.len(),
        start == if l == 0 { 0 } else { l - 1 },
        forall|j: int| 0 <= j < l ==> #[trigger] t.children[j].end <= e.begin,
        t.children[l].end > e.begin,
        forall|j: int| start <= j < r ==> #[trigger] t.children[j].begin < e.end,
        r < t.children.len() ==> t.children[r].begin >= e.end,
        !(r == l + 1 && t.children[l].begin <= e.begin && e.end <= t.children[l].end),
        forall|i: int| 0 <= i < t.children.len() ==> #[trigger] t.children[i].begin <= t.children[i].end,
    ensures
        wf(fuse(t, e, l, r)),
{
    let cs = t.children;
    lemma_wf_elim(t);
    let fuse_left = cs[l].begin < e.begin;
    let fuse_right = cs[r - 1].end > e.end;
    let lo = if fuse_left { l + 1 } else { l };
    let hi = if fuse_right { r - 1 } else { r };
    let b = if fuse_left { cs[l].begin } else { e.begin };
    let en = if fuse_right { cs[r - 1].end } else { e.end };
    let kept = cs.subrange(lo, hi);
    let outer = cs.subrange(0, l);
    let tail = cs.subrange(r, cs.len() as int);
    assert(lo <= hi);
    assert forall|j: int| lo <= j < hi implies b <= #[trigger] cs[j].begin && cs[j].end <= en by {
        if j > l {
            assert(cs[l].end <= cs[j].begin);
        }
        if j < r - 1 {
            assert(cs[j].end <= cs[r - 1].begin);
        }
    }
    assert forall|j: int| 0 <= j < l implies #[trigger] cs[j].end <= b by {
        if fuse_left {
            assert(cs[j].end <= cs[l].begin);
        }
    }
    assert forall|k: int| r <= k < cs.len() implies en <= #[trigger] cs[k].begin by {
        if fuse_right {
            assert(cs[r - 1].end <= cs[k].begin);
        } else if k > r {
            assert(cs[r].end <= cs[k].begin);
        }
    }
    let f = fuse(t, e, l, r);
    if b == t.begin && en == t.end {
        let n = outer + kept + tail;
        assert forall|j: int, k: int| 0 <= j < k < n.len() implies #[trigger] n[j].end <= #[trigger] n[k].begin by {
            let jj = if j < l { j } else if j < l + (hi - lo) { j - l + lo } else { j - l - (hi - lo) + r };
            let kk = if k < l { k } else if k < l + (hi - lo) { k - l + lo } else { k - l - (hi - lo) + r };
            assert(n[j] == cs[jj]);
            assert(n[k] == cs[kk]);
            assert(jj < kk);
        }
        assert forall|i: int| 0 <= i < n.len() implies t.begin <= #[trigger] n[i].begin && n[i].end <= t.end && wf(n[i]) by {
            let ii = if i < l { i } else if i < l + (hi - lo) { i - l + lo } else { i - l - (hi - lo) + r };
            assert(n[i] == cs[ii]);
            lemma_child(t, ii);
        }
        let u = EditTree { children: n, ..t };
        assert(sorted(n));
        lemma_wf_intro(u);
        assert(f == merge(u, e));
        lemma_merge_wf(u, e);
    } else {
        let node = EditTree { begin: b, end: en, children: kept, ..e };
        assert forall|j: int, k: int| 0 <= j < k < kept.len() implies #[trigger] kept[j].end <= #[trigger] kept[k].begin by {
            assert(kept[j] == cs[j + lo] && kept[k] == cs[k + lo]);
        }
        assert forall|i: int| 0 <= i < kept.len() implies b <= #[trigger] kept[i].begin && kept[i].end <= en && wf(kept[i]) by {
            assert(kept[i] == cs[i + lo]);
            lemma_child(t, i + lo);
        }
        assert(sorted(kept));
        assert(b <= en);
        lemma_wf_intro(node);
        lemma_child(t, l);
        lemma_child(t, r - 1);
        let n = outer.push(node) + tail;
        assert(f.children == n);
        assert forall|j: int, k: int| 0 <= j < k < n.len() implies #[trigger] n[j].end <= #[trigger] n[k].begin by {
            if k < l {
                assert(n[j] == cs[j] && n[k] == cs[k]);
            } else if k == l {
                assert(n[j] == cs[j] && n[k] == node);
            } else if j < l {
                assert(n[j] == cs[j] && n[k] == cs[k - l - 1 + r]);
                assert(cs[j].end <= cs[k - l - 1 + r].begin);
            } else if j == l {
                assert(n[j] == node && n[k] == cs[k - l - 1 + r]);
            } else {
                assert(n[j] == cs[j - l - 1 + r] && n[k] == cs[k - l - 1 + r]);
            }
        }
        assert forall|i: int| 0 <= i < n.len() implies t.begin <= #[trigger] n[i].begin && n[i].end <= t.end && wf(n[i]) by {
            if i < l {
                assert(n[i] == cs[i]);
                lemma_child(t, i);
            } else if i == l {
                assert(n[i] == node);
                assert(t.begin <= b && en <= t.end);
            } else {
                let ii = i - l - 1 + r;
                assert(n[i] == cs[ii]);
                lemma_child(t, ii);
            }
        }
        assert(sorted(n));
        let g = EditTree { children: n, ..t };
        lemma_wf_intro(g);
        assert(f == g);
    }
}

/// The model of each node of `v`.
pub open spec fn models(v: Seq<Action>) -> Seq<EditTree> {
    Seq::new(v.len(), |i: int| v[i].model())
}

/// Appends `code[a, b)` to `out`, or nothing where the range does not lie in `code`.
fn push_slice(code: &[u8], a: usize, b: usize, out: &mut Vec<u8>)
    ensures
        final(out)@ == old(out)@ + slice(code@, a as int, b as int),
{
    if a <= b && b <= code.len() {
        let mut k: usize = a;
        while k < b
            invariant
                a <= k <= b <= code@.len(),
                out@ == old(out)@ + code@.subrange(a as int, k as int),
            decreases b - k,
        {
            out.push(code[k]);
            assert(code@.subrange(a as int, k + 1) =~= code@.subrange(a as int, k as int).push(code@[k as int]));
            k = k + 1;
        }
    }
    assert(out@ =~= old(out)@ + slice(code@, a as int, b as int));
}

/// Appends a copy of `bytes` to `out`.
fn push_bytes(bytes: &Vec<u8>, out: &mut Vec<u8>)
    ensures
        final(out)@ == old(out)@ + bytes@,
{
    let mut k: usize = 0;
    while k < bytes.len()
        invariant
            k <= bytes@.len(),
            out@ == old(out)@ + bytes@.subrange(0, k as int),
        decreases bytes.len() - k,
    {
        out.push(bytes[k]);
        assert(bytes@.subrange(0, k + 1) =~= bytes@.subrange(0, k as int).push(bytes@[k as int]));
        k = k + 1;
    }
    assert(bytes@.subrange(0, k as int) =~= bytes@);
}

impl Action {
    proof fn lemma_model_children(self)
        ensures
            self.model().children == models(self.children@),
            self.model().begin == self.begin,
            self.model().end == self.end,
            self.model().before == self.before@,
            self.model().after == self.after@,
            self.model().replacement == opt_bytes(self.replacement),
    {
        assert(self.model().children =~= models(self.children@));
    }

    /// A node with no children.
    fn leaf(begin: usize, end: usize, replacement: Option<Vec<u8>>, before: Vec<u8>, after: Vec<u8>) -> (a: Action)
        ensures
            a.model() == (EditTree {
                begin: begin as int,
                end: end as int,
                replacement: opt_bytes(replacement),
                before: before@,
                after: after@,
                children: Seq::empty(),
            }),
            a.children@.len() == 0,
    {
        let a = Action { begin, end, replacement, before, after, children: Vec::new() };
        proof {
            a.lemma_model_children();
            assert(models(a.children@) =~= Seq::<EditTree>::empty());
        }
        a
    }

    fn is_noop(&self) -> (r: bool)
        ensures
            r == is_noop(self.model()),
    {
        proof {
            self.lemma_model_children();
        }
        let quiet = match &self.replacement {
            None => true,
            Some(r) => r.len() == 0 && self.begin == self.end,
        };
        self.before.len() == 0 && self.after.len() == 0 && self.children.len() == 0 && quiet
    }

    /// Merges the texts of `e`, an edit of this node's own range, into this node.
    fn merge(&mut self, e: Action)
        ensures
            final(self).model() == merge(old(self).model(), e.model()),
    {
        proof {
            self.lemma_model_children();
            e.lemma_model_children();
        }
        let ghost t = self.model();
        let ghost em = e.model();
        let Action { replacement, mut before, mut after, .. } = e;
        if replacement.is_some() {
            self.replacement = replacement;
        }
        if self.replacement.is_some() {
            self.children = Vec::new();
        }
        before.append(&mut self.before);
        self.before = before;
        self.after.append(&mut after);
        proof {
            self.lemma_model_children();
            assert(models(self.children@) =~= merge(t, em).children);
        }
    }

    fn first_ending_after(&self, b: usize) -> (r: usize)
        ensures
            r == first_ending_after(self.model().children, b as int, 0),
            r <= self.children@.len(),
    {
        proof {
            self.lemma_model_children();
        }
        let ghost cs = self.model().children;
        let mut i: usize = 0;
        while i < self.children.len() && self.children[i].end <= b
            invariant
                i <= self.children@.len(),
                cs == models(self.children@),
                first_ending_after(cs, b as int, 0) == first_ending_after(cs, b as int, i as int),
            decreases self.children.len() - i,
        {
            proof {
                self.children@[i as int].lemma_model_children();
            }
            i = i + 1;
        }
        proof {
            if i < self.children@.len() {
                self.children@[i as int].lemma_model_children();
            }
        }
        i
    }

    fn first_beginning_from(&self, e: usize, from: usize) -> (r: usize)
        requires
            from <= self.children@.len(),
        ensures
            r == first_beginning_from(self.model().children, e as int, from as int),
            from <= r <= self.children@.len(),
    {
        proof {
            self.lemma_model_children();
        }
        let ghost cs = self.model().children;
        let mut i: usize = from;
        while i < self.children.len() && self.children[i].begin < e
            invariant
                from <= i <= self.children@.len(),
                cs == models(self.children@),
                first_beginning_from(cs, e as int, from as int) == first_beginning_from(cs, e as int, i as int),
            decreases self.children.len() - i,
        {
            proof {
                self.children@[i as int].lemma_model_children();
            }
            i = i + 1;
        }
        proof {
            if i < self.children@.len() {
                self.children@[i as int].lemma_model_children();
            }
        }
        i
    }

    /// Places the childless edit `e` into this subtree.
    fn combine(&mut self, e: Action)
        requires
            e.children@.len() == 0,
        ensures
            final(self).model() == combine(old(self).model(), e.model()),
        decreases *old(self),
    {
        proof {
            self.lemma_model_children();
            e.lemma_model_children();
        }
        let ghost t = self.model();
        let ghost em = e.model();
        let ghost cs = t.children;
        if e.is_noop() {
            return;
        }
        if e.begin == self.begin && e.end == self.end {
            self.merge(e);
            return;
        }
        let l = self.first_ending_after(e.begin);
        let start = if l == 0 { 0 } else { l - 1 };
        let r = self.first_beginning_from(e.end, start);
        if r < l {
            let mut c = self.children.remove(l - 1);
            c.merge(e);
            self.children.insert(l - 1, c);
            proof {
                self.lemma_model_children();
                assert(models(self.children@) =~= cs.update(l - 1, merge(cs[l - 1], em)));
            }
        } else if r == l {
            self.children.insert(l, e);
            proof {
                self.lemma_model_children();
                assert(models(self.children@) =~= cs.insert(l as int, em));
            }
        } else if r == l + 1 && self.children[l].begin <= e.begin && e.end <= self.children[l].end {
            proof {
                self.children@[l as int].lemma_model_children();
            }
            let mut c = self.children.remove(l);
            c.combine(e);
            self.children.insert(l, c);
            proof {
                self.lemma_model_children();
                assert(models(self.children@) =~= cs.update(l as int, combine(cs[l as int], em)));
            }
        } else {
            self.fuse(e, l, r);
        }
    }

    /// The last case of `combine`.
    fn fuse(&mut self, e: Action, l: usize, r: usize)
        requires
            e.children@.len() == 0,
            l < r <= self.children@.len(),
            !(r == l + 1 && self.children@[l as int].begin <= e.begin && e.end <= self.children@[l as int].end),
        ensures
            final(self).model() == fuse(old(self).model(), e.model(), l as int, r as int),
    {
        proof {
            self.lemma_model_children();
            e.lemma_model_children();
        }
        let ghost t = self.model();
        let ghost em = e.model();
        let ghost cs = t.children;
        proof {
            self.children@[l as int].lemma_model_children();
            self.children@[r - 1].lemma_model_children();
        }
        let fuse_left = self.children[l].begin < e.begin;
        let fuse_right = self.children[r - 1].end > e.end;
        let b = if fuse_left { self.children[l].begin } else { e.begin };
        let en = if fuse_right { self.children[r - 1].end } else { e.end };
        let ghost lo: int = if fuse_left { l + 1 } else { l as int };
        let ghost hi: int = if fuse_right { r - 1 } else { r as int };
        let ghost old_children = self.children@;
        let mut tail = self.children.split_off(r);
        let mut kept = self.children.split_off(l);
        if fuse_right {
            kept.pop();
        }
        if fuse_left {
            kept.remove(0);
        }
        assert(kept@ =~= old_children.subrange(lo, hi));
        assert(tail@ =~= old_children.subrange(r as int, old_children.len() as int));
        assert(self.children@ =~= old_children.subrange(0, l as int));
        if b == self.begin && en == self.end {
            self.children.append(&mut kept);
            self.children.append(&mut tail);
            proof {
                self.lemma_model_children();
                assert(models(self.children@) =~= cs.subrange(0, l as int) + cs.subrange(lo, hi) + cs.subrange(r as int, cs.len() as int));
                assert(self.model() == EditTree { children: cs.subrange(0, l as int) + cs.subrange(lo, hi) + cs.subrange(r as int, cs.len() as int), ..t });
            }
            self.merge(e);
        } else {
            let Action { replacement, before, after, .. } = e;
            let node = Action { begin: b, end: en, replacement, before, after, children: kept };
            proof {
                node.lemma_model_children();
                assert(models(node.children@) =~= cs.subrange(lo, hi));
            }
            self.children.push(node);
            self.children.append(&mut tail);
            proof {
                self.lemma_model_children();
                assert(models(self.children@) =~= cs.subrange(0, l as int).push(EditTree { begin: b as int, end: en as int, children: cs.subrange(lo, hi), ..em }) + cs.subrange(r as int, cs.len() as int));
            }
        }
    }

    /// Appends the text that this node produces to `out`.
    fn render_into(&self, code: &[u8], out: &mut Vec<u8>)
        ensures
            final(out)@ == old(out)@ + render(self.model(), code@),
        decreases self,
    {
        let ghost t = self.model();
        proof {
            self.lemma_model_children();
        }
        push_bytes(&self.before, out);
        let ghost base = out@;
        match &self.replacement {
            Some(r) => {
                push_bytes(r, out);
            },
            None => {
                let mut cur: usize = self.begin;
                let mut i: usize = 0;
                while i < self.children.len()
                    invariant
                        i <= self.children@.len(),
                        t == self.model(),
                        t.children.len() == self.children@.len(),
                        forall|j: int|
                            0 <= j < self.children@.len() ==> #[trigger] t.children[j]
                                == self.children@[j].model(),
                        out@ + render_children(t.children, code@, cur as int, t.end, i as int)
                            == base + render_children(t.children, code@, t.begin, t.end, 0),
                    decreases self.children.len() - i,
                {
                    let child = &self.children[i];
                    let ghost before_out = out@;
                    push_slice(code, cur, child.begin, out);
                    child.render_into(code, out);
                    assert(render_children(t.children, code@, cur as int, t.end, i as int)
                        == slice(code@, cur as int, child.begin as int) + render(t.children[i as int], code@)
                            + render_children(t.children, code@, child.end as int, t.end, i + 1));
                    assert(out@ + render_children(t.children, code@, child.end as int, t.end, i + 1)
                        =~= before_out + render_children(t.children, code@, cur as int, t.end, i as int));
                    cur = child.end;
                    i = i + 1;
                }
                push_slice(code, cur, self.end, out);
                assert(render_children(t.children, code@, cur as int, t.end, i as int)
                    == slice(code@, cur as int, t.end));
            },
        }
        push_bytes(&self.after, out);
        assert(out@ =~= old(out)@ + render(t, code@));
    }
}

/// Accumulates edits to one source buffer and merges them into one rewrite.
pub struct Rewriter {
    root: Action,
}

impl Rewriter {
    pub closed spec fn tree(self) -> EditTree {
        self.root.model()
    }

    /// The edit tree is well-formed and spans the buffer from its first byte:
    /// `new` establishes it and every edit keeps it.
    pub closed spec fn well_formed(self) -> bool {
        wf(self.tree()) && self.tree().begin == 0
    }

    /// A rewriter for `code`, holding no edit.
    pub fn new(code: &[u8]) -> (r: Rewriter)
        ensures
            r.tree() == untouched(code@.len() as int),
            r.len() == code@.len(),
            r.well_formed(),
    {
        let r = Rewriter {
            root: Action {
                begin: 0,
                end: code.len(),
                replacement: None,
                before: Vec::new(),
                after: Vec::new(),
                children: Vec::new(),
            },
        };
        assert(r.tree().children =~= Seq::<EditTree>::empty());
        proof {
            lemma_wf_intro(r.tree());
        }
        r
    }

    /// The length of the buffer that this rewriter edits.
    pub closed spec fn len(self) -> int {
        self.root.end as int
    }

    /// Whether no edit that changes anything has been registered.
    pub fn is_empty(&self) -> (r: bool)
        ensures
            r == is_noop(self.tree()),
    {
        self.root.is_noop()
    }

    fn combine(&mut self, e: Action)
        requires
            e.children@.len() == 0,
            old(self).len() >= e.end >= e.begin,
        ensures
            final(self).tree() == combine(old(self).tree(), e.model()),
            final(self).len() == old(self).len(),
            old(self).well_formed() ==> final(self).well_formed(),
    {
        proof {
            self.root.lemma_model_children();
            e.lemma_model_children();
            lemma_combine_keeps_range(self.tree(), e.model());
            if self.well_formed() {
                lemma_combine_wf(self.tree(), e.model());
            }
        }
        let mut root = Action::leaf(0, 0, None, Vec::new(), Vec::new());
        proof {
            lemma_wf_intro(root.model());
        }
        std::mem::swap(&mut self.root, &mut root);
        root.combine(e);
        proof {
            root.lemma_model_children();
        }
        std::mem::swap(&mut self.root, &mut root);
    }

    /// Replaces the bytes of `[begin_pos, end_pos)` with `content`.
    pub fn replace(&mut self, begin_pos: usize, end_pos: usize, content: String)
        requires
            begin_pos <= end_pos <= old(self).len(),
        ensures
            final(self).tree() == combine(
                old(self).tree(),
                edit(begin_pos as int, end_pos as int, Some(text_bytes(content@)), Seq::empty(), Seq::empty()),
            ),
            final(self).len() == old(self).len(),
            old(self).well_formed() ==> final(self).well_formed(),
    {
        let bytes = slice_to_vec(content.as_str().as_bytes());
        let e = Action::leaf(begin_pos, end_pos, Some(bytes), Vec::new(), Vec::new());
        self.combine(e);
    }

    /// Puts `insert_before` in front of `[begin_pos, end_pos)` and `insert_after` behind it.
    pub fn wrap(&mut self, begin_pos: usize, end_pos: usize, insert_before: String, insert_after: String)
        requires
            begin_pos <= end_pos <= old(self).len(),
        ensures
            final(self).tree() == combine(
                old(self).tree(),
                edit(begin_pos as int, end_pos as int, None, text_bytes(insert_before@), text_bytes(insert_after@)),
            ),
            final(self).len() == old(self).len(),
            old(self).well_formed() ==> final(self).well_formed(),
    {
        let before = slice_to_vec(insert_before.as_str().as_bytes());
        let after = slice_to_vec(insert_after.as_str().as_bytes());
        let e = Action::leaf(begin_pos, end_pos, None, before, after);
        self.combine(e);
    }

    /// Deletes the bytes of `[begin_pos, end_pos)`.
    pub fn remove(&mut self, begin_pos: usize, end_pos: usize)
        requires
            begin_pos <= end_pos <= old(self).len(),
        ensures
            final(self).tree() == combine(
                old(self).tree(),
                edit(begin_pos as int, end_pos as int, Some(Seq::empty()), Seq::empty(), Seq::empty()),
            ),
            final(self).len() == old(self).len(),
            old(self).well_formed() ==> final(self).well_formed(),
    {
        let e = Action::leaf(begin_pos, end_pos, Some(Vec::new()), Vec::new(), Vec::new());
        self.combine(e);
    }

    /// Inserts `content` at `pos`, in front of what is already inserted there.
    pub fn insert_before(&mut self, pos: usize, content: String)
        requires
            pos <= old(self).len(),
        ensures
            final(self).tree() == combine(
                old(self).tree(),
                edit(pos as int, pos as int, None, text_bytes(content@), Seq::empty()),
            ),
            final(self).len() == old(self).len(),
            old(self).well_formed() ==> final(self).well_formed(),
    {
        let before = slice_to_vec(content.as_str().as_bytes());
        let e = Action::leaf(pos, pos, None, before, Vec::new());
        self.combine(e);
    }

    /// Inserts `content` at `pos`, behind what is already inserted there.
    pub fn insert_after(&mut self, pos: usize, content: String)
        requires
            pos <= old(self).len(),
        ensures
            final(self).tree() == combine(
                old(self).tree(),
                edit(pos as int, pos as int, None, Seq::empty(), text_bytes(content@)),
            ),
            final(self).len() == old(self).len(),
            old(self).well_formed() ==> final(self).well_formed(),
    {
        let after = slice_to_vec(content.as_str().as_bytes());
        let e = Action::leaf(pos, pos, None, Vec::new(), after);
        self.combine(e);
    }

    /// The source bytes with every registered edit applied.
    pub fn process(self, code: &[u8]) -> (r: Vec<u8>)
        ensures
            r@ == render(self.tree(), code@),
    {
        let mut out: Vec<u8> = Vec::new();
        self.root.render_into(code, &mut out);
        assert(out@ =~= render(self.tree(), code@));
        out
    }
}

/// With no edit registered, processing gives back the source bytes.
pub proof fn lemma_no_edit_is_identity(code: Seq<u8>)
    ensures
        render(untouched(code.len() as int), code) == code,
{
    let t = untouched(code.len() as int);
    assert(render_children(t.children, code, 0, code.len() as int, 0) == slice(code, 0, code.len() as int));
    assert(code.subrange(0, code.len() as int) =~= code);
    assert(render(t, code) =~= code);
}

/// Two replacements of one range: the one registered last gives the text of the range.
pub proof fn lemma_same_range_last_wins(code: Seq<u8>, begin: int, end: int, first: Seq<u8>, second: Seq<u8>)
    requires
        0 <= begin <= end <= code.len(),
        second.len() > 0 || begin < end,
    ensures
        render(
            combine(
                combine(untouched(code.len() as int), edit(begin, end, Some(first), Seq::empty(), Seq::empty())),
                edit(begin, end, Some(second), Seq::empty(), Seq::empty()),
            ),
            code,
        ) == code.subrange(0, begin) + second + code.subrange(end, code.len() as int),
{
    let n = code.len() as int;
    let e1 = edit(begin, end, Some(first), Seq::empty(), Seq::empty());
    let e2 = edit(begin, end, Some(second), Seq::empty(), Seq::empty());
    let t0 = untouched(n);
    let t1 = combine(t0, e1);
    let t2 = combine(t1, e2);
    let leaf = edit(begin, end, Some(second), Seq::empty(), Seq::empty());
    if begin == 0 && end == n {
        assert(t2.replacement == Some(second));
        assert(render(t2, code) =~= second);
        assert(code.subrange(0, 0) + second + code.subrange(n, n) =~= second);
    } else {
        if is_noop(e1) {
            assert(t1 == t0);
            assert(t2.children =~= seq![e2]);
        } else {
            assert(t1.children =~= seq![e1]);
            if begin == end {
                assert(first_ending_after(t1.children, begin, 1) == 1);
                assert(first_ending_after(t1.children, begin, 0) == 1);
                assert(first_beginning_from(t1.children, end, 0) == 0);
            } else {
                assert(first_ending_after(t1.children, begin, 0) == 0);
                assert(first_beginning_from(t1.children, end, 1) == 1);
                assert(first_beginning_from(t1.children, end, 0) == 1);
                assert(combine(e1, e2) == merge(e1, e2));
            }
            assert(merge(e1, e2) =~= leaf);
            assert(t2.children =~= seq![leaf]);
        }
        assert(t2.children =~= seq![leaf]);
        let cs = t2.children;
        assert(render(leaf, code) =~= second);
        assert(render_children(cs, code, end, n, 1) == slice(code, end, n));
        assert(render_children(cs, code, 0, n, 0) =~= slice(code, 0, begin) + second + slice(code, end, n));
        assert(render(t2, code) =~= code.subrange(0, begin) + second + code.subrange(end, n));
    }
}

/// An edit nested inside a full replacement has no effect on the result.
pub proof fn lemma_nested_inside_replacement(code: Seq<u8>, outer: Seq<u8>, inner: Seq<u8>)
    requires
        code.len() >= 10,
    ensures
        render(
            combine(
                combine(untouched(code.len() as int), edit(0, 10, Some(outer), Seq::empty(), Seq::empty())),
                edit(2, 4, Some(inner), Seq::empty(), Seq::empty()),
            ),
            code,
        ) == outer + code.subrange(10, code.len() as int),
{
    let n = code.len() as int;
    let e1 = edit(0, 10, Some(outer), Seq::empty(), Seq::empty());
    let e2 = edit(2, 4, Some(inner), Seq::empty(), Seq::empty());
    let t0 = untouched(n);
    let t1 = combine(t0, e1);
    let t2 = combine(t1, e2);
    if n == 10 {
        assert(t1.replacement == Some(outer));
        assert(t2.replacement == Some(outer));
        assert(render(t2, code) =~= outer);
        assert(outer + code.subrange(10, 10) =~= outer);
    } else {
        assert(t1.children =~= seq![e1]);
        assert(first_ending_after(t1.children, 2, 0) == 0);
        assert(first_beginning_from(t1.children, 4, 1) == 1);
        assert(first_beginning_from(t1.children, 4, 0) == 1);
        let c = combine(e1, e2);
        assert(c.replacement == Some(outer));
        assert(c.begin == 0 && c.end == 10);
        assert(t2.children =~= seq![c]);
        let cs = t2.children;
        assert(render(c, code) =~= outer);
        assert(render_children(cs, code, 10, n, 1) == slice(code, 10, n));
        assert(render_children(cs, code, 0, n, 0) =~= slice(code, 0, 0) + outer + slice(code, 10, n));
        assert(render(t2, code) =~= outer + code.subrange(10, n));
    }
}

/// Two replacements that overlap without nesting are fused into one edit of the
/// union of their ranges, which carries the text of the one registered last.
pub proof fn lemma_overlap_fuses(code: Seq<u8>, first: Seq<u8>, second: Seq<u8>)
    requires
        code.len() >= 8,
    ensures
        render(
            combine(
                combine(untouched(code.len() as int), edit(0, 5, Some(first), Seq::empty(), Seq::empty())),
                edit(3, 8, Some(second), Seq::empty(), Seq::empty()),
            ),
            code,
        ) == second + code.subrange(8, code.len() as int),
{
    let n = code.len() as int;
    let e1 = edit(0, 5, Some(first), Seq::empty(), Seq::empty());
    let e2 = edit(3, 8, Some(second), Seq::empty(), Seq::empty());
    let t0 = untouched(n);
    let t1 = combine(t0, e1);
    let t2 = combine(t1, e2);
    assert(t1.children =~= seq![e1]);
    assert(first_ending_after(t1.children, 3, 0) == 0);
    assert(first_beginning_from(t1.children, 8, 1) == 1);
    assert(first_beginning_from(t1.children, 8, 0) == 1);
    assert(t2 == fuse(t1, e2, 0, 1));
    let fused = edit(0, 8, Some(second), Seq::empty(), Seq::empty());
    if n == 8 {
        assert(t2.replacement == Some(second));
        assert(render(t2, code) =~= second);
        assert(second + code.subrange(8, 8) =~= second);
    } else {
        assert(t1.children.subrange(1, 1) =~= Seq::<EditTree>::empty());
        assert(t1.children.subrange(0, 0) =~= Seq::<EditTree>::empty());
        assert(t2.children =~= seq![fused]);
        let cs = t2.children;
        assert(render(fused, code) =~= second);
        assert(render_children(cs, code, 8, n, 1) == slice(code, 8, n));
        assert(render_children(cs, code, 0, n, 0) =~= slice(code, 0, 0) + second + slice(code, 8, n));
        assert(render(t2, code) =~= second + code.subrange(8, n));
    }
}

/// Two edits of disjoint ranges give the same result in either order of registration.
/// (Two insertions at one and the same position are not disjoint: their order is kept.)
pub proof fn lemma_disjoint_edits_commute(code: Seq<u8>, a: EditTree, b: EditTree)
    requires
        a.children.len() == 0,
        b.children.len() == 0,
        0 <= a.begin <= a.end <= b.begin <= b.end <= code.len(),
        a.begin < b.end,
    ensures
        render(combine(combine(untouched(code.len() as int), a), b), code) == render(
            combine(combine(untouched(code.len() as int), b), a),
            code,
        ),
{
    let n = code.len() as int;
    let t0 = untouched(n);
    let ab = combine(combine(t0, a), b);
    let ba = combine(combine(t0, b), a);
    let a_root = a.begin == 0 && a.end == n;
    let b_root = b.begin == 0 && b.end == n;
    if is_noop(a) || is_noop(b) {
        assert(ab == ba);
    } else if a_root {
        // `b` is empty at the end of the buffer
        let ta = combine(t0, a);
        assert(ta.children =~= Seq::<EditTree>::empty());
        assert(ab.children =~= seq![b]);
        let tb = combine(t0, b);
        assert(tb.children =~= seq![b]);
        if a.replacement is Some {
            assert(render(ab, code) =~= render(ba, code));
        } else {
            assert(ab =~= ba);
        }
    } else if b_root {
        let tb = combine(t0, b);
        assert(tb.children =~= Seq::<EditTree>::empty());
        assert(ba.children =~= seq![a]);
        let ta = combine(t0, a);
        assert(ta.children =~= seq![a]);
        if b.replacement is Some {
            assert(render(ab, code) =~= render(ba, code));
        } else {
            assert(ab =~= ba);
        }
    } else {
        let ta = combine(t0, a);
        let tb = combine(t0, b);
        assert(ta.children =~= seq![a]);
        assert(tb.children =~= seq![b]);
        assert(first_ending_after(ta.children, b.begin, 1) == 1);
        assert(first_ending_after(ta.children, b.begin, 0) == 1);
        assert(first_beginning_from(ta.children, b.end, 1) == 1);
        assert(first_beginning_from(ta.children, b.end, 0) == 1);
        assert(ab.children =~= seq![a, b]);
        assert(first_ending_after(tb.children, a.begin, 0) == 0);
        assert(first_beginning_from(tb.children, a.end, 0) == 0);
        assert(ba.children =~= seq![a, b]);
        assert(ab =~= ba);
    }
}

} // verus!
