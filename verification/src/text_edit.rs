//! Atomic multi-range text edits.
//!
//! A builder accumulates replacements keyed by half-open character ranges,
//! keeps them sorted, and refuses any range that overlaps one already
//! registered.  Applying the finished edit rewrites the text in one pass.

use vstd::prelude::*;
use vstd::string::StrSliceExecFns;
use vstd::string::StringExecFns;

verus! {

broadcast use vstd::seq_lib::group_to_multiset_ensures;

/// One replacement: the characters in `[start, end)` make way for `insert`.
pub struct SpanEdit {
    /// First character replaced.
    pub start: usize,
    /// One past the last character replaced; equal to `start` for a pure
    /// insertion.
    pub end: usize,
    /// Replacement text.
    pub insert: String,
}

/// Order of edits by range start, then range end.
pub open spec fn edit_le(a: SpanEdit, b: SpanEdit) -> bool {
    a.start < b.start || (a.start == b.start && a.end <= b.end)
}

/// The two ranges do not overlap; touching is allowed.
pub open spec fn edits_disjoint(a: SpanEdit, b: SpanEdit) -> bool {
    a.end <= b.start || b.end <= a.start
}

/// A well-formed edit list: ranges ordered, non-overlapping, each start at
/// or before its end.
pub open spec fn edits_linear(edits: Seq<SpanEdit>) -> bool {
    &&& forall|k: int| 0 <= k < edits.len() ==> (#[trigger] edits[k]).start <= edits[k].end
    &&& forall|k: int| 0 <= k < edits.len() - 1 ==> (#[trigger] edits[k]).end <= edits[k + 1].start
}

/// `x` overlaps no edit of `s`.
pub open spec fn all_disjoint(x: SpanEdit, s: Seq<SpanEdit>) -> bool {
    forall|k: int| 0 <= k < s.len() ==> edits_disjoint(x, #[trigger] s[k])
}

/// The text that remains when the edits are applied to `text[p..]`, for a
/// well-formed list whose first range starts at or after `p`.
pub open spec fn apply_from(edits: Seq<SpanEdit>, text: Seq<char>, p: int) -> Seq<char>
    decreases edits.len(),
{
    if edits.len() == 0 {
        text.subrange(p, text.len() as int)
    } else {
        text.subrange(p, edits[0].start as int) + edits[0].insert@ + apply_from(
            edits.drop_first(),
            text,
            edits[0].end as int,
        )
    }
}

/// The text that results from applying the whole edit list.
pub open spec fn apply_edits(edits: Seq<SpanEdit>, text: Seq<char>) -> Seq<char> {
    apply_from(edits, text, 0)
}

/// In a well-formed list every range end stays at or below the last one.
pub proof fn lemma_ends_bounded(edits: Seq<SpanEdit>, k: int)
    requires
        edits_linear(edits),
        0 <= k < edits.len(),
    ensures
        edits[k].end <= edits[edits.len() - 1].end,
    decreases edits.len() - k,
{
    if k < edits.len() - 1 {
        lemma_ends_bounded(edits, k + 1);
    }
}

/// Accumulates non-overlapping replacements, sorted by range.
pub struct TextEditBuilder {
    edits: Vec<SpanEdit>,
}

impl TextEditBuilder {
    /// The replacements registered so far, in range order.
    pub closed spec fn pending(self) -> Seq<SpanEdit> {
        self.edits@
    }

    /// The pending list is always kept well-formed.
    pub open spec fn wf(self) -> bool {
        edits_linear(self.pending())
    }

    /// An empty builder.
    pub fn new() -> (r: TextEditBuilder)
        ensures
            r.pending() == Seq::<SpanEdit>::empty(),
            r.wf(),
    {
        let v: Vec<SpanEdit> = Vec::new();
        proof {
            assert(v@ =~= Seq::<SpanEdit>::empty());
        }
        TextEditBuilder { edits: v }
    }

    /// Register the replacement of `[start, end)` by `text`.  Succeeds
    /// exactly when the range is ordered and overlaps no registered edit;
    /// on failure nothing changes.  An edit registered later sorts after
    /// equal ranges registered earlier.
    pub fn replace(&mut self, start: usize, end: usize, text: String) -> (r: bool)
        requires
            old(self).wf(),
        ensures
            final(self).wf(),
            r <==> (start <= end && all_disjoint(
                SpanEdit { start, end, insert: text },
                old(self).pending(),
            )),
            r ==> final(self).pending().to_multiset() == old(self).pending().to_multiset().insert(
                SpanEdit { start, end, insert: text },
            ),
            r ==> exists|p: int|
                {
                    &&& 0 <= p <= old(self).pending().len()
                    &&& #[trigger] final(self).pending() == old(self).pending().insert(
                        p,
                        SpanEdit { start, end, insert: text },
                    )
                    &&& forall|q: int|
                        0 <= q < p ==> (#[trigger] old(self).pending()[q]).end <= start
                    &&& (p < old(self).pending().len() ==> old(self).pending()[p].end > start)
                },
            !r ==> final(self).pending() == old(self).pending(),
    {
        if start > end {
            return false;
        }
        let ghost x = SpanEdit { start, end, insert: text };
        let n = self.edits.len();
        let mut p: usize = 0;
        while p < n && self.edits[p].end <= start
            invariant
                0 <= p <= n,
                n == self.pending().len(),
                self.wf(),
                forall|k: int| 0 <= k < p ==> (#[trigger] self.pending()[k]).end <= start,
            decreases n - p,
        {
            p += 1;
        }
        if p < n {
            // the edit at `p` begins past every earlier end; the new range
            // must finish before it to avoid overlap
            if !(end <= self.edits[p].start) {
                proof {
                    assert(!edits_disjoint(x, self.pending()[p as int]));
                }
                return false;
            }
        }
        proof {
            assert forall|k: int| 0 <= k < self.pending().len() implies edits_disjoint(
                x,
                #[trigger] self.pending()[k],
            ) by {
                if k >= p && k > p {
                    lemma_le_starts(self.pending(), p as int, k);
                }
            }
        }
        let ghost old_edits = self.edits@;
        self.edits.insert(p, SpanEdit { start, end, insert: text });
        proof {
            assert(self.edits@ == old_edits.insert(p as int, x));
            assert forall|k: int| 0 <= k < self.edits@.len() implies (#[trigger] self.edits@[k]).start
                <= self.edits@[k].end by {
                if k < p {
                    assert(self.edits@[k] == old_edits[k]);
                } else if k == p {
                } else {
                    assert(self.edits@[k] == old_edits[k - 1]);
                }
            }
            assert forall|k: int| 0 <= k < self.edits@.len() - 1 implies (#[trigger] self.edits@[k]).end
                <= self.edits@[k + 1].start by {
                if k + 1 < p {
                    assert(self.edits@[k] == old_edits[k]);
                    assert(self.edits@[k + 1] == old_edits[k + 1]);
                } else if k + 1 == p {
                    assert(self.edits@[k] == old_edits[k]);
                } else if k == p {
                    assert(self.edits@[k + 1] == old_edits[k]);
                    assert(old_edits[k].end <= start || start + 0 <= old_edits[k].start);
                    if k < old_edits.len() {
                        if !(old_edits[k].end <= start) {
                            assert(edits_disjoint(x, old_edits[k]));
                        }
                    }
                } else {
                    assert(self.edits@[k] == old_edits[k - 1]);
                    assert(self.edits@[k + 1] == old_edits[k]);
                }
            }
        }
        true
    }

    /// Register the insertion of `text` at `offset`.  Succeeds exactly when
    /// the anchor overlaps no registered edit; insertions at one anchor
    /// keep their registration order.
    pub fn insert(&mut self, offset: usize, text: String) -> (r: bool)
        requires
            old(self).wf(),
        ensures
            final(self).wf(),
            r <==> all_disjoint(
                SpanEdit { start: offset, end: offset, insert: text },
                old(self).pending(),
            ),
            r ==> final(self).pending().to_multiset() == old(
                self,
            ).pending().to_multiset().insert(
                SpanEdit { start: offset, end: offset, insert: text },
            ),
            r ==> exists|p: int|
                {
                    &&& 0 <= p <= old(self).pending().len()
                    &&& #[trigger] final(self).pending() == old(self).pending().insert(
                        p,
                        SpanEdit { start: offset, end: offset, insert: text },
                    )
                    &&& forall|q: int|
                        0 <= q < p ==> (#[trigger] old(self).pending()[q]).end <= offset
                    &&& (p < old(self).pending().len() ==> old(self).pending()[p].end > offset)
                },
            !r ==> final(self).pending() == old(self).pending(),
    {
        self.replace(offset, offset, text)
    }

    /// Hand out the finished, ordered edit list.
    pub fn finish(self) -> (r: Vec<SpanEdit>)
        requires
            self.wf(),
        ensures
            r@ == self.pending(),
            edits_linear(r@),
    {
        self.edits
    }
}

/// In a well-formed list, an edit past `p` starts at or after where the
/// edit at `p` starts.
pub proof fn lemma_le_starts(edits: Seq<SpanEdit>, p: int, k: int)
    requires
        edits_linear(edits),
        0 <= p <= k < edits.len(),
    ensures
        edits[p].start <= edits[k].start,
    decreases k - p,
{
    if p < k {
        lemma_le_starts(edits, p + 1, k);
    }
}

/// Apply a finished edit list to a text.  Returns the rewritten text, or
/// nothing exactly when some range reaches past the end of the text.
pub fn apply_span_edits(edits: &Vec<SpanEdit>, text: &str) -> (r: Option<String>)
    requires
        edits_linear(edits@),
    ensures
        r is Some <==> (edits@.len() == 0 || edits@[edits@.len() - 1].end <= text@.len()),
        r matches Some(s) ==> s@ == apply_edits(edits@, text@),
{
    let ll = text.unicode_len();
    let n = edits.len();
    if n > 0 && edits[n - 1].end > ll {
        return None;
    }
    let mut out = String::new();
    let mut pos: usize = 0;
    let mut k: usize = 0;
    proof {
        assert(edits@.subrange(0, n as int) =~= edits@);
    }
    while k < n
        invariant
            0 <= k <= n,
            n == edits@.len(),
            ll == text@.len(),
            edits_linear(edits@),
            n > 0 ==> edits@[n - 1].end <= ll,
            pos <= ll,
            k < n ==> pos <= edits@[k as int].start,
            out@ + apply_from(edits@.subrange(k as int, n as int), text@, pos as int)
                == apply_edits(edits@, text@),
        decreases n - k,
    {
        proof {
            lemma_ends_bounded(edits@, k as int);
            let rest = edits@.subrange(k as int, n as int);
            assert(rest[0] == edits@[k as int]);
            assert(rest.drop_first() =~= edits@.subrange(k as int + 1, n as int));
        }
        let e_start = edits[k].start;
        let e_end = edits[k].end;
        out.append(text.substring_char(pos, e_start));
        out.append(edits[k].insert.as_str());
        pos = e_end;
        k += 1;
        proof {
            if k < n {
                lemma_le_starts(edits@, k as int, k as int);
                assert(edits@[k as int - 1].end <= edits@[k as int].start);
            }
        }
    }
    proof {
        assert(edits@.subrange(n as int, n as int) =~= Seq::<SpanEdit>::empty());
        assert(apply_from(Seq::<SpanEdit>::empty(), text@, pos as int) == text@.subrange(
            pos as int,
            ll as int,
        ));
    }
    out.append(text.substring_char(pos, ll));
    Some(out)
}

/// In a well-formed list, every earlier range ends at or before a later
/// range starts.
pub proof fn lemma_end_le_start(edits: Seq<SpanEdit>, j: int, k: int)
    requires
        edits_linear(edits),
        0 <= j < k < edits.len(),
    ensures
        edits[j].end <= edits[k].start,
    decreases k - j,
{
    if j + 1 < k {
        lemma_end_le_start(edits, j + 1, k);
    }
}

/// Applying edits whose replacement text equals the text already in their
/// ranges reproduces the suffix unchanged.
proof fn lemma_apply_from_noop(edits: Seq<SpanEdit>, text: Seq<char>, p: int)
    requires
        edits_linear(edits),
        0 <= p <= text.len(),
        edits.len() > 0 ==> p <= edits[0].start,
        edits.len() > 0 ==> edits[edits.len() - 1].end <= text.len(),
        forall|k: int|
            0 <= k < edits.len() ==> (#[trigger] edits[k]).insert@ == text.subrange(
                edits[k].start as int,
                edits[k].end as int,
            ),
    ensures
        apply_from(edits, text, p) == text.subrange(p, text.len() as int),
    decreases edits.len(),
{
    if edits.len() > 0 {
        let rest = edits.drop_first();
        let s0 = edits[0].start as int;
        let e0 = edits[0].end as int;
        lemma_ends_bounded(edits, 0);
        assert(forall|k: int| 0 <= k < rest.len() ==> rest[k] == edits[k + 1]);
        if rest.len() > 0 {
            assert(rest[rest.len() - 1] == edits[edits.len() - 1]);
        }
        lemma_apply_from_noop(rest, text, e0);
        assert(text.subrange(p, s0) + text.subrange(s0, e0) + text.subrange(e0, text.len() as int)
            =~= text.subrange(p, text.len() as int));
    }
}

/// A subrange taken inside the left part of a concatenation.
proof fn lemma_concat_subrange_left<T>(a: Seq<T>, b: Seq<T>, x: int, y: int)
    requires
        0 <= x <= y <= a.len(),
    ensures
        (a + b).subrange(x, y) == a.subrange(x, y),
{
    assert((a + b).subrange(x, y) =~= a.subrange(x, y));
}

/// A subrange taken inside the right part of a concatenation.
proof fn lemma_concat_subrange_right<T>(a: Seq<T>, b: Seq<T>, x: int, y: int)
    requires
        a.len() <= x <= y <= a.len() + b.len(),
    ensures
        (a + b).subrange(x, y) == b.subrange(x - a.len(), y - a.len()),
{
    assert((a + b).subrange(x, y) =~= b.subrange(x - a.len(), y - a.len()));
}

/// Length-preserving edits leave the overall length unchanged.
proof fn lemma_apply_from_len(edits: Seq<SpanEdit>, text: Seq<char>, p: int)
    requires
        edits_linear(edits),
        0 <= p <= text.len(),
        edits.len() > 0 ==> p <= edits[0].start,
        edits.len() > 0 ==> edits[edits.len() - 1].end <= text.len(),
        forall|k: int|
            0 <= k < edits.len() ==> (#[trigger] edits[k]).insert@.len() == edits[k].end
                - edits[k].start,
    ensures
        apply_from(edits, text, p).len() == text.len() - p,
    decreases edits.len(),
{
    if edits.len() > 0 {
        let rest = edits.drop_first();
        lemma_ends_bounded(edits, 0);
        assert(forall|k: int| 0 <= k < rest.len() ==> rest[k] == edits[k + 1]);
        if rest.len() > 0 {
            assert(rest[rest.len() - 1] == edits[edits.len() - 1]);
        }
        lemma_apply_from_len(rest, text, edits[0].end as int);
    }
}

/// A plan whose edits each keep the length of their range writes its
/// replacement texts into exactly those ranges.
proof fn lemma_apply_from_regions(edits: Seq<SpanEdit>, text: Seq<char>, p: int)
    requires
        edits_linear(edits),
        0 <= p <= text.len(),
        edits.len() > 0 ==> p <= edits[0].start,
        edits.len() > 0 ==> edits[edits.len() - 1].end <= text.len(),
        forall|k: int|
            0 <= k < edits.len() ==> (#[trigger] edits[k]).insert@.len() == edits[k].end
                - edits[k].start,
    ensures
        forall|k: int|
            0 <= k < edits.len() ==> apply_from(edits, text, p).subrange(
                (#[trigger] edits[k]).start - p,
                edits[k].end - p,
            ) == edits[k].insert@,
    decreases edits.len(),
{
    if edits.len() > 0 {
        let rest = edits.drop_first();
        let s0 = edits[0].start as int;
        let e0 = edits[0].end as int;
        let frag = text.subrange(p, s0) + edits[0].insert@;
        let sub = apply_from(rest, text, e0);
        let r = apply_from(edits, text, p);
        lemma_ends_bounded(edits, 0);
        assert(forall|k: int| 0 <= k < rest.len() ==> rest[k] == edits[k + 1]);
        if rest.len() > 0 {
            assert(rest[rest.len() - 1] == edits[edits.len() - 1]);
        }
        lemma_apply_from_regions(rest, text, e0);
        lemma_apply_from_len(rest, text, e0);
        assert(r == frag + sub);
        assert(frag.len() == e0 - p);
        assert forall|k: int| 0 <= k < edits.len() implies r.subrange(
            (#[trigger] edits[k]).start - p,
            edits[k].end - p,
        ) == edits[k].insert@ by {
            if k == 0 {
                lemma_concat_subrange_left(frag, sub, s0 - p, e0 - p);
                lemma_concat_subrange_right(
                    text.subrange(p, s0),
                    edits[0].insert@,
                    s0 - p,
                    e0 - p,
                );
                assert(edits[0].insert@.subrange(0, edits[0].insert@.len() as int) =~= edits[0].insert@);
            } else {
                let sk = edits[k].start as int;
                let ek = edits[k].end as int;
                lemma_end_le_start(edits, 0, k);
                lemma_ends_bounded(edits, k);
                assert(rest[k - 1] == edits[k]);
                assert(sub.subrange(sk - e0, ek - e0) == edits[k].insert@);
                lemma_concat_subrange_right(frag, sub, sk - p, ek - p);
            }
        }
    }
}

/// A plan whose replacement texts equal what already stands in their
/// ranges is the identity.
pub proof fn lemma_apply_noop(edits: Seq<SpanEdit>, text: Seq<char>)
    requires
        edits_linear(edits),
        edits.len() > 0 ==> edits[edits.len() - 1].end <= text.len(),
        forall|k: int|
            0 <= k < edits.len() ==> (#[trigger] edits[k]).insert@ == text.subrange(
                edits[k].start as int,
                edits[k].end as int,
            ),
    ensures
        apply_edits(edits, text) == text,
{
    lemma_apply_from_noop(edits, text, 0);
    assert(text.subrange(0, text.len() as int) =~= text);
}

/// Edit idempotence for length-preserving plans: applying a plan to its
/// plan-time text and then applying the same plan to the result yields the
/// contents after the first application, because each range then already
/// holds its replacement text and the second pass rewrites nothing.
pub proof fn lemma_edit_idempotence(edits: Seq<SpanEdit>, text: Seq<char>)
    requires
        edits_linear(edits),
        edits.len() > 0 ==> edits[edits.len() - 1].end <= text.len(),
        forall|k: int|
            0 <= k < edits.len() ==> (#[trigger] edits[k]).insert@.len() == edits[k].end
                - edits[k].start,
    ensures
        apply_edits(edits, apply_edits(edits, text)) == apply_edits(edits, text),
{
    let r1 = apply_edits(edits, text);
    lemma_apply_from_len(edits, text, 0);
    lemma_apply_from_regions(edits, text, 0);
    assert(forall|k: int|
        0 <= k < edits.len() ==> (#[trigger] edits[k]).insert@ == r1.subrange(
            edits[k].start as int,
            edits[k].end as int,
        ));
    lemma_apply_noop(edits, r1);
}

} // verus!
