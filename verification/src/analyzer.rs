//! The analysis engine: workspace state, the query-layer preamble, and
//! the translation of semantic-database answers into the stable external
//! schema.
//!
//! The semantic database itself (hover, goto-definition, completions,
//! rename computation, inlay hints) is an external collaborator; the
//! application shell calls it and hands its raw answers to the verified
//! functions here, which validate cursors, assemble records, sort
//! reference lists, and render inlay hints into file text.

use vstd::prelude::*;
use vstd::string::StrSliceExecFns;
use vstd::string::StringExecFns;

use crate::entities::line_spans;
use crate::entities::split_lines;
use crate::entities::CompletionItem;
use crate::entities::CursorCoordinates;
use crate::entities::DefinitionInfo;
use crate::entities::ReferenceInfo;
use crate::entities::TextEdit;
use crate::entities::TypeHint;
use crate::errors::EngineError;
use crate::line_index::LineIndex;
use crate::text_edit::apply_edits;
use crate::text_edit::apply_span_edits;
use crate::text_edit::edits_disjoint;
use crate::text_edit::edits_linear;
use crate::text_edit::SpanEdit;
use crate::text_edit::TextEditBuilder;
use crate::utils::sat_dec;
use crate::utils::span_of;
use crate::vfs::Vfs;
use crate::watcher::DbChange;
use crate::watcher::FileWatcher;

verus! {

broadcast use vstd::seq_lib::group_to_multiset_ensures;

/// Lexicographic order on text.
pub open spec fn str_le(a: Seq<char>, b: Seq<char>) -> bool
    decreases a.len(),
{
    if a.len() == 0 {
        true
    } else if b.len() == 0 {
        false
    } else if a[0] == b[0] {
        str_le(a.drop_first(), b.drop_first())
    } else {
        (a[0] as int) < (b[0] as int)
    }
}

/// Any two texts are ordered one way or the other.
pub proof fn lemma_str_le_total(a: Seq<char>, b: Seq<char>)
    ensures
        str_le(a, b) || str_le(b, a),
    decreases a.len(),
{
    if a.len() > 0 && b.len() > 0 && a[0] == b[0] {
        lemma_str_le_total(a.drop_first(), b.drop_first());
    } else if a.len() > 0 && b.len() > 0 {
        assert((a[0] as int) != (b[0] as int));
    }
}

/// The order on texts is transitive.
pub proof fn lemma_str_le_trans(a: Seq<char>, b: Seq<char>, c: Seq<char>)
    requires
        str_le(a, b),
        str_le(b, c),
    ensures
        str_le(a, c),
    decreases a.len(),
{
    if a.len() > 0 && b.len() > 0 && c.len() > 0 {
        if a[0] == b[0] && b[0] == c[0] {
            lemma_str_le_trans(a.drop_first(), b.drop_first(), c.drop_first());
        }
    }
}

/// Whether `a` comes at or before `b` in a lexicographic comparison.
pub fn str_le_exec(a: &str, b: &str) -> (r: bool)
    ensures
        r == str_le(a@, b@),
{
    let an = a.unicode_len();
    let bn = b.unicode_len();
    let mut i: usize = 0;
    proof {
        assert(a@.skip(0) =~= a@);
        assert(b@.skip(0) =~= b@);
    }
    while i < an && i < bn
        invariant
            i <= an,
            i <= bn,
            an == a@.len(),
            bn == b@.len(),
            forall|t: int| 0 <= t < i ==> a@[t] == b@[t],
            str_le(a@, b@) == str_le(a@.skip(i as int), b@.skip(i as int)),
            str_le(b@, a@) == str_le(b@.skip(i as int), a@.skip(i as int)),
        decreases an - i,
    {
        let ca = a.get_char(i);
        let cb = b.get_char(i);
        if ca != cb {
            proof {
                assert(a@.skip(i as int)[0] == a@[i as int]);
                assert(b@.skip(i as int)[0] == b@[i as int]);
            }
            return (ca as u32) < (cb as u32);
        }
        proof {
            assert(a@.skip(i as int)[0] == a@[i as int]);
            assert(b@.skip(i as int)[0] == b@[i as int]);
            assert(a@.skip(i as int).drop_first() =~= a@.skip(i as int + 1));
            assert(b@.skip(i as int).drop_first() =~= b@.skip(i as int + 1));
        }
        i += 1;
    }
    proof {
        assert(a@.skip(i as int).len() == an - i);
        assert(b@.skip(i as int).len() == bn - i);
    }
    an <= bn
}

/// Order of reference records: by file path, then line, then column.
pub open spec fn ref_le(a: ReferenceInfo, b: ReferenceInfo) -> bool {
    if a.file_path@ != b.file_path@ {
        str_le(a.file_path@, b.file_path@)
    } else if a.line != b.line {
        a.line < b.line
    } else {
        a.column <= b.column
    }
}

/// Any two reference records are ordered one way or the other.
pub proof fn lemma_ref_le_total(a: ReferenceInfo, b: ReferenceInfo)
    ensures
        ref_le(a, b) || ref_le(b, a),
{
    lemma_str_le_total(a.file_path@, b.file_path@);
}

/// The order on reference records is transitive.
pub proof fn lemma_ref_le_trans(a: ReferenceInfo, b: ReferenceInfo, c: ReferenceInfo)
    requires
        ref_le(a, b),
        ref_le(b, c),
    ensures
        ref_le(a, c),
{
    if a.file_path@ != b.file_path@ && b.file_path@ != c.file_path@ {
        lemma_str_le_trans(a.file_path@, b.file_path@, c.file_path@);
        if a.file_path@ == c.file_path@ {
            lemma_str_le_antisym(a.file_path@, b.file_path@);
        }
    }
}

/// Mutual order of two distinct texts never holds both ways.
pub proof fn lemma_str_le_antisym(a: Seq<char>, b: Seq<char>)
    requires
        str_le(a, b),
        str_le(b, a),
    ensures
        a == b,
    decreases a.len(),
{
    if a.len() == 0 {
        assert(b.len() == 0);
        assert(a =~= b);
    } else {
        assert(b.len() > 0);
        assert(a[0] == b[0]);
        lemma_str_le_antisym(a.drop_first(), b.drop_first());
        assert(a =~= seq![a[0]] + a.drop_first());
        assert(b =~= seq![b[0]] + b.drop_first());
    }
}

/// Whether `a` comes at or before `b` in the reference order.
pub fn ref_le_exec(a: &ReferenceInfo, b: &ReferenceInfo) -> (r: bool)
    ensures
        r == ref_le(*a, *b),
{
    if !a.file_path.eq(&b.file_path) {
        str_le_exec(a.file_path.as_str(), b.file_path.as_str())
    } else if a.line != b.line {
        a.line < b.line
    } else {
        a.column <= b.column
    }
}

/// The record's end position lies strictly after its start position.
pub open spec fn ref_pos_ok(r: ReferenceInfo) -> bool {
    r.end_line > r.line || (r.end_line == r.line && r.end_column > r.column)
}

/// Sort a reference list by (file path, line, column) ascending.  The
/// records are kept: the result is a permutation of the input.
pub fn sort_references(refs: Vec<ReferenceInfo>) -> (r: Vec<ReferenceInfo>)
    ensures
        r@.to_multiset() == refs@.to_multiset(),
        r@.len() == refs@.len(),
        forall|i: int, j: int| 0 <= i < j < r@.len() ==> ref_le(#[trigger] r@[i], #[trigger] r@[j]),
{
    let mut out: Vec<ReferenceInfo> = Vec::new();
    let mut rest = refs;
    proof {
        assert(out@.to_multiset() =~= Seq::<ReferenceInfo>::empty().to_multiset());
        assert(out@.to_multiset().add(rest@.to_multiset()) =~= refs@.to_multiset());
    }
    while rest.len() > 0
        invariant
            out@.to_multiset().add(rest@.to_multiset()) == refs@.to_multiset(),
            out@.len() + rest@.len() == refs@.len(),
            forall|i: int, j: int|
                0 <= i < j < out@.len() ==> ref_le(#[trigger] out@[i], #[trigger] out@[j]),
        decreases rest@.len(),
    {
        let ghost old_rest = rest@;
        let x = rest.remove(0);
        let n = out.len();
        let mut p: usize = 0;
        while p < n && ref_le_exec(&out[p], &x)
            invariant
                p <= n,
                n == out@.len(),
                forall|i: int| 0 <= i < p ==> ref_le(#[trigger] out@[i], x),
            decreases n - p,
        {
            p += 1;
        }
        proof {
            if p < n {
                lemma_ref_le_total(out@[p as int], x);
            }
        }
        let ghost old_out = out@;
        out.insert(p, x);
        proof {
            assert(out@ == old_out.insert(p as int, x));
            assert forall|i: int, j: int| 0 <= i < j < out@.len() implies ref_le(
                #[trigger] out@[i],
                #[trigger] out@[j],
            ) by {
                let xi = if i < p {
                    old_out[i]
                } else if i == p {
                    x
                } else {
                    old_out[i - 1]
                };
                let xj = if j < p {
                    old_out[j]
                } else if j == p {
                    x
                } else {
                    old_out[j - 1]
                };
                assert(out@[i] == xi);
                assert(out@[j] == xj);
                if i < p && j == p {
                } else if i == p && j > p {
                    assert(!ref_le(old_out[p as int], x));
                    lemma_ref_le_total(old_out[p as int], x);
                    if j - 1 > p {
                        lemma_ref_le_trans(x, old_out[p as int], old_out[j - 1]);
                    }
                } else if i < p && j > p {
                    assert(ref_le(old_out[i], old_out[j - 1]));
                }
            }
            assert(old_rest =~= seq![x] + rest@);
            assert((seq![x] + rest@).to_multiset() =~= rest@.to_multiset().insert(x));
            assert(out@.to_multiset() == old_out.to_multiset().insert(x));
            assert(out@.to_multiset().add(rest@.to_multiset()) =~= refs@.to_multiset());
        }
    }
    proof {
        assert(rest@.to_multiset() =~= Seq::<ReferenceInfo>::empty().to_multiset());
        assert(out@.to_multiset() =~= out@.to_multiset().add(rest@.to_multiset()));
    }
    out
}

/// Records built only from non-empty ranges keep their end after their
/// start, and sorting keeps the records, so a sorted list built that way
/// satisfies the reference-list shape end to end.
pub proof fn lemma_sorted_references_pos_ok(a: Seq<ReferenceInfo>, b: Seq<ReferenceInfo>)
    requires
        b.to_multiset() == a.to_multiset(),
        forall|k: int| 0 <= k < a.len() ==> ref_pos_ok(#[trigger] a[k]),
    ensures
        forall|k: int| 0 <= k < b.len() ==> ref_pos_ok(#[trigger] b[k]),
{
    assert forall|k: int| 0 <= k < b.len() implies ref_pos_ok(#[trigger] b[k]) by {
        assert(b.to_multiset().contains(b[k]));
        assert(a.to_multiset().contains(b[k]));
        let j = choose|j: int| 0 <= j < a.len() && a[j] == b[k];
        assert(ref_pos_ok(a[j]));
    }
}

/// The canonical module path of a symbol: the crate name, then each
/// container part joined with `::`.
pub open spec fn spec_module_path(crate_name: Seq<char>, parts: Seq<Seq<char>>) -> Seq<char>
    decreases parts.len(),
{
    if parts.len() == 0 {
        crate_name
    } else {
        spec_module_path(crate_name + "::"@ + parts[0], parts.drop_first())
    }
}

/// Join a crate name and container parts into a module path.
pub fn module_path_from_parts(crate_name: &String, parts: &Vec<String>) -> (r: String)
    ensures
        r@ == spec_module_path(crate_name@, Seq::new(parts@.len(), |k: int| parts@[k]@)),
{
    let ghost pviews = Seq::new(parts@.len(), |k: int| parts@[k]@);
    let mut acc = crate_name.clone();
    let n = parts.len();
    let mut k: usize = 0;
    proof {
        assert(pviews.skip(0) =~= pviews);
    }
    while k < n
        invariant
            k <= n,
            n == parts@.len(),
            pviews == Seq::new(parts@.len(), |j: int| parts@[j]@),
            spec_module_path(crate_name@, pviews) == spec_module_path(acc@, pviews.skip(k as int)),
        decreases n - k,
    {
        proof {
            assert(pviews.skip(k as int)[0] == parts@[k as int]@);
            assert(pviews.skip(k as int).drop_first() =~= pviews.skip(k as int + 1));
        }
        acc.append("::");
        acc.append(parts[k].as_str());
        k += 1;
    }
    proof {
        assert(pviews.skip(n as int).len() == 0);
    }
    acc
}

/// What loading decides for a requested root, given what is loaded.
#[derive(Debug, Clone, Copy, PartialEq, Eq, Structural)]
pub enum LoadDecision {
    /// The same root is already loaded; nothing to do.
    AlreadyLoaded,
    /// Nothing is loaded yet; the caller is to load this root.
    LoadNeeded,
}

/// Main interface to the analysis engine: the file watcher with its VFS,
/// and the workspace root once one is loaded.
pub struct RustAnalyzerish {
    watcher: FileWatcher,
    current_project_root: Option<String>,
}

impl RustAnalyzerish {
    /// The loaded workspace root, if any.
    pub closed spec fn project_root(self) -> Option<String> {
        self.current_project_root
    }

    /// The watcher holding the VFS.
    pub closed spec fn watcher_spec(self) -> FileWatcher {
        self.watcher
    }

    /// The engine's VFS is well formed.
    pub open spec fn wf(self) -> bool {
        self.watcher_spec().wf()
    }

    /// A fresh engine: empty VFS, no workspace loaded.
    pub fn new() -> (r: RustAnalyzerish)
        ensures
            r.wf(),
            r.project_root() is None,
            r.watcher_spec().pending().len() == 0,
    {
        RustAnalyzerish { watcher: FileWatcher::new(), current_project_root: None }
    }

    /// Decide what to do for a workspace root.  Loading runs at most once
    /// per engine: a second request for the same root is a no-op, and one
    /// for a different root fails with `WorkspaceAlreadyLoaded`.  The
    /// engine state never changes here.
    pub fn ensure_project_loaded(&self, project_root: &String) -> (r: Result<
        LoadDecision,
        EngineError,
    >)
        ensures
            (match self.project_root() {
                Option::Some(cur) => {
                    if cur@ == project_root@ {
                        r == Result::<LoadDecision, EngineError>::Ok(LoadDecision::AlreadyLoaded)
                    } else {
                        r == Result::<LoadDecision, EngineError>::Err(
                            EngineError::WorkspaceAlreadyLoaded,
                        )
                    }
                },
                Option::None => r == Result::<LoadDecision, EngineError>::Ok(
                    LoadDecision::LoadNeeded,
                ),
            }),
    {
        match &self.current_project_root {
            Option::Some(cur) => {
                if cur.eq(project_root) {
                    Result::Ok(LoadDecision::AlreadyLoaded)
                } else {
                    Result::Err(EngineError::WorkspaceAlreadyLoaded)
                }
            },
            Option::None => Result::Ok(LoadDecision::LoadNeeded),
        }
    }

    /// Install a loaded workspace: its VFS replaces the engine's, and the
    /// root is recorded.  Only callable while nothing is loaded.
    pub fn install_workspace(&mut self, project_root: String, vfs: Vfs)
        requires
            old(self).wf(),
            old(self).project_root() is None,
            vfs.wf(),
        ensures
            final(self).wf(),
            final(self).project_root() matches Some(p) && p@ == project_root@,
            final(self).watcher_spec().vfs_spec() == vfs,
            final(self).watcher_spec().pending().len() == 0,
    {
        self.watcher = FileWatcher::with_vfs(vfs);
        self.current_project_root = Option::Some(project_root);
    }

    /// Queue a filesystem event for the next drain.
    pub fn enqueue_event(&mut self, msg: crate::watcher::WatchMessage)
        requires
            old(self).wf(),
        ensures
            final(self).wf(),
            final(self).watcher_spec().pending() == old(self).watcher_spec().pending().push(msg),
            final(self).project_root() == old(self).project_root(),
    {
        self.watcher.enqueue(msg);
    }

    /// The query preamble: drain pending filesystem events into the VFS
    /// — each message's entries per `model_set`, in arrival order — and
    /// hand back the delta for the semantic database.  This is the only
    /// point where the database snapshot advances; with nothing queued
    /// the VFS keeps its paths and contents.
    pub fn drain_changes(&mut self) -> (r: Vec<DbChange>)
        requires
            old(self).wf(),
        ensures
            final(self).wf(),
            final(self).watcher_spec().pending().len() == 0,
            final(self).watcher_spec().vfs_spec().staged().len() == 0,
            final(self).project_root() == old(self).project_root(),
            old(self).watcher_spec().pending().len() == 0 ==> final(self).watcher_spec().vfs_spec().paths() == old(self).watcher_spec().vfs_spec().paths()
                && final(self).watcher_spec().vfs_spec().states() == old(self).watcher_spec().vfs_spec().states(),
            old(self).watcher_spec().pending().len() == 0 && old(self).watcher_spec().vfs_spec().staged().len() == 0 ==> r@.len() == 0,
            ({
                let applied = crate::watcher::model_after_msgs(
                    old(self).watcher_spec().vfs_spec().model(),
                    old(self).watcher_spec().pending(),
                );
                &&& final(self).watcher_spec().vfs_spec().model().paths == applied.paths
                &&& final(self).watcher_spec().vfs_spec().model().states == applied.states
                &&& r@.len() == applied.staged.len()
            }),
    {
        self.watcher.drain_and_apply_changes()
    }

    /// Read access to the watcher.
    pub fn watcher(&self) -> (r: &FileWatcher)
        ensures
            *r == self.watcher_spec(),
    {
        &self.watcher
    }

    /// 1-based cursor coordinates as 0-based, saturating at zero.
    pub fn to_zero_based(cursor: &CursorCoordinates) -> (r: (u32, u32))
        ensures
            r.0 as int == sat_dec(cursor.line),
            r.1 as int == sat_dec(cursor.column),
    {
        let lz: u32 = if cursor.line == 0 {
            0
        } else {
            cursor.line - 1
        };
        let cz: u32 = if cursor.column == 0 {
            0
        } else {
            cursor.column - 1
        };
        (lz, cz)
    }

    /// Validate cursor coordinates and convert them to a text offset.
    /// Zero coordinates are invalid; coordinates beyond the file are out
    /// of bounds; anything else lands on its exact offset.
    pub fn validate_and_convert_cursor(cursor: &CursorCoordinates, line_index: &LineIndex) -> (r:
        Result<usize, EngineError>)
        requires
            line_index.wf(),
        ensures
            cursor.line == 0 || cursor.column == 0 ==> r == Result::<usize, EngineError>::Err(
                EngineError::InvalidCoordinates,
            ),
            cursor.line >= 1 && cursor.column >= 1 ==> (match line_index.spec_offset(
                cursor.line - 1,
                cursor.column - 1,
            ) {
                Option::Some(s) => r == Result::<usize, EngineError>::Ok(s as usize),
                Option::None => r == Result::<usize, EngineError>::Err(EngineError::OutOfBounds),
            }),
    {
        if cursor.line == 0 || cursor.column == 0 {
            return Result::Err(EngineError::InvalidCoordinates);
        }
        match line_index.offset(cursor.line - 1, cursor.column - 1) {
            Option::Some(s) => Result::Ok(s),
            Option::None => Result::Err(EngineError::OutOfBounds),
        }
    }

    /// Assemble a type hint from the hover markup and the canonical type
    /// paths extracted from its actions.
    pub fn type_hint_from_hover(
        cursor: &CursorCoordinates,
        markup: String,
        canonical_types: Vec<String>,
    ) -> (r: TypeHint)
        ensures
            r.file_path@ == cursor.file_path@,
            r.line == cursor.line,
            r.column == cursor.column,
            r.symbol == markup,
            r.canonical_types == canonical_types,
    {
        TypeHint {
            file_path: cursor.file_path.clone(),
            line: cursor.line,
            column: cursor.column,
            symbol: markup,
            canonical_types,
        }
    }

    /// The slice of the text between two character offsets, for pulling a
    /// definition's source out of its file.
    pub fn slice_text(content: &str, start: usize, end: usize) -> (r: Option<String>)
        ensures
            r is Some <==> start <= end && end <= content@.len(),
            r matches Some(s) ==> s@ == content@.subrange(start as int, end as int),
    {
        let n = content.unicode_len();
        if start <= end && end <= n {
            Option::Some(String::from_str(content.substring_char(start, end)))
        } else {
            Option::None
        }
    }
}

/// Where a hint's label goes relative to its anchor range.
#[derive(Debug, Clone, Copy, PartialEq, Eq, Structural)]
pub enum InlayHintPosition {
    /// The label goes before the range start, as `label: `.
    Before,
    /// The label goes after the range end, as `: label`.
    After,
}

/// One inlay hint computed by the semantic database: an anchor range in
/// character offsets, a position flag, and the assembled label.
pub struct InlayHint {
    /// First character of the anchor range.
    pub start: usize,
    /// One past the last character of the anchor range.
    pub end: usize,
    /// Which side of the anchor the label goes.
    pub position: InlayHintPosition,
    /// The label, already joined from its parts.
    pub label: String,
}

/// The offset at which a hint's text is inserted.
pub open spec fn hint_offset(h: InlayHint) -> int {
    match h.position {
        InlayHintPosition::Before => h.start as int,
        InlayHintPosition::After => h.end as int,
    }
}

/// The text a hint inserts.
pub open spec fn hint_text(h: InlayHint) -> Seq<char> {
    match h.position {
        InlayHintPosition::Before => h.label@ + ": "@,
        InlayHintPosition::After => ": "@ + h.label@,
    }
}

/// `se` holds exactly the insertions of `hints`, reordered by `perm`,
/// and insertions at one anchor keep the emission order of `hints`.
#[verifier::opaque]
pub open spec fn hint_edits_ok(hints: Seq<InlayHint>, se: Seq<SpanEdit>, perm: Seq<int>) -> bool {
    &&& se.len() == hints.len()
    &&& perm.len() == hints.len()
    &&& forall|q: int| 0 <= q < perm.len() ==> 0 <= #[trigger] perm[q] < hints.len()
    &&& forall|q1: int, q2: int| 0 <= q1 < q2 < perm.len() ==> perm[q1] != perm[q2]
    &&& forall|q: int|
        0 <= q < se.len() ==> {
            &&& (#[trigger] se[q]).start as int == hint_offset(hints[perm[q]])
            &&& se[q].end as int == hint_offset(hints[perm[q]])
            &&& se[q].insert@ == hint_text(hints[perm[q]])
        }
    &&& forall|q1: int, q2: int|
        0 <= q1 < q2 < se.len() && (#[trigger] se[q1]).start == (#[trigger] se[q2]).start
            ==> perm[q1] < perm[q2]
}

/// The renderer's running state: `pending` holds the first `k` hints'
/// insertions reordered by `perm`, with anchors in emission order.
#[verifier::opaque]
pub open spec fn hint_loop_inv(
    hints: Seq<InlayHint>,
    pending: Seq<SpanEdit>,
    perm: Seq<int>,
    k: int,
) -> bool {
    &&& pending.len() == k
    &&& perm.len() == k
    &&& forall|q: int| 0 <= q < k ==> 0 <= #[trigger] perm[q] < k
    &&& forall|q1: int, q2: int| 0 <= q1 < q2 < k ==> perm[q1] != perm[q2]
    &&& forall|q: int|
        0 <= q < k ==> {
            &&& (#[trigger] pending[q]).start as int == hint_offset(hints[perm[q]])
            &&& pending[q].end as int == hint_offset(hints[perm[q]])
            &&& pending[q].insert@ == hint_text(hints[perm[q]])
        }
    &&& forall|q1: int, q2: int|
        0 <= q1 < q2 < k && (#[trigger] pending[q1]).start == (#[trigger] pending[q2]).start
            ==> perm[q1] < perm[q2]
}

/// The empty renderer state satisfies the running invariant.
proof fn lemma_hint_inv_empty(hints: Seq<InlayHint>)
    ensures
        hint_loop_inv(hints, Seq::<SpanEdit>::empty(), Seq::<int>::empty(), 0),
{
    reveal(hint_loop_inv);
}

/// A zero-width insertion is disjoint from every insertion of a state
/// satisfying the invariant.
proof fn lemma_hint_inv_disjoint(
    hints: Seq<InlayHint>,
    pending: Seq<SpanEdit>,
    perm: Seq<int>,
    k: int,
    x: SpanEdit,
)
    requires
        hint_loop_inv(hints, pending, perm, k),
        x.start == x.end,
    ensures
        forall|q: int| 0 <= q < pending.len() ==> edits_disjoint(x, #[trigger] pending[q]),
{
    reveal(hint_loop_inv);
    assert forall|q: int| 0 <= q < pending.len() implies edits_disjoint(
        x,
        #[trigger] pending[q],
    ) by {
        assert(pending[q].start == pending[q].end);
    }
}

/// Every insertion of a state satisfying the invariant ends at its
/// hint's anchor.
proof fn lemma_hint_inv_anchors(hints: Seq<InlayHint>, pending: Seq<SpanEdit>, perm: Seq<int>, k: int)
    requires
        hint_loop_inv(hints, pending, perm, k),
        k <= hints.len(),
    ensures
        pending.len() == k,
        forall|q: int|
            0 <= q < pending.len() ==> 0 <= #[trigger] perm[q] < hints.len() && pending[q].end
                as int == hint_offset(hints[perm[q]]),
{
    reveal(hint_loop_inv);
    assert forall|q: int|
        0 <= q < pending.len() implies 0 <= #[trigger] perm[q] < hints.len() && pending[q].end
        as int == hint_offset(hints[perm[q]]) by {}
}

/// A full renderer state is exactly `hint_edits_ok`.
proof fn lemma_hint_inv_to_ok(hints: Seq<InlayHint>, se: Seq<SpanEdit>, perm: Seq<int>)
    requires
        hint_loop_inv(hints, se, perm, hints.len() as int),
    ensures
        hint_edits_ok(hints, se, perm),
{
    reveal(hint_loop_inv);
    reveal(hint_edits_ok);
}

/// Lines joined back into text with line feeds between them.
pub open spec fn join_lines(ls: Seq<Seq<char>>) -> Seq<char>
    decreases ls.len(),
{
    if ls.len() == 0 {
        Seq::empty()
    } else if ls.len() == 1 {
        ls[0]
    } else {
        ls[0] + seq!['\n'] + join_lines(ls.drop_first())
    }
}

/// The slice of a text's lines, inclusive 0-based start to exclusive end,
/// joined with line feeds.
fn join_line_range(content: &str, si: usize, ei: usize) -> (r: String)
    requires
        si <= ei,
        ei as int <= split_lines(content@).len(),
    ensures
        r@ == join_lines(split_lines(content@).subrange(si as int, ei as int)),
{
    let ghost lines = split_lines(content@);
    let spans = line_spans(content);
    let mut out = String::new();
    let mut k: usize = si;
    proof {
        assert(out@ + join_lines(lines.subrange(si as int, ei as int)) =~= join_lines(
            lines.subrange(si as int, ei as int),
        ));
    }
    while k < ei
        invariant
            si <= k <= ei,
            ei as int <= lines.len(),
            lines == split_lines(content@),
            spans@.len() == lines.len(),
            forall|j: int|
                0 <= j < spans@.len() ==> {
                    &&& (#[trigger] spans@[j]).0 <= spans@[j].1
                    &&& spans@[j].1 <= content@.len()
                    &&& content@.subrange(spans@[j].0 as int, spans@[j].1 as int) == lines[j]
                },
            join_lines(lines.subrange(si as int, ei as int)) == out@ + join_lines(
                lines.subrange(k as int, ei as int),
            ),
        decreases ei - k,
    {
        let sp = spans[k];
        let ghost rest = lines.subrange(k as int, ei as int);
        proof {
            assert(rest[0] == lines[k as int]);
            assert(rest.drop_first() =~= lines.subrange(k as int + 1, ei as int));
        }
        out.append(content.substring_char(sp.0, sp.1));
        if k + 1 < ei {
            out.append("\n");
            proof {
                assert(join_lines(rest) == rest[0] + seq!['\n'] + join_lines(rest.drop_first()));
                assert("\n"@ =~= seq!['\n']) by {
                    reveal_strlit("\n");
                }
            }
        } else {
            proof {
                assert(rest.len() == 1);
                assert(join_lines(rest) == rest[0]);
                assert(lines.subrange(k as int + 1, ei as int).len() == 0);
            }
        }
        k += 1;
    }
    proof {
        assert(lines.subrange(ei as int, ei as int).len() == 0);
        assert(out@ + join_lines(lines.subrange(ei as int, ei as int)) =~= out@);
    }
    out
}

/// One insertion step of the hint renderer keeps the permutation facts:
/// bounds, injectivity, the triple correspondence, and the emission order
/// of insertions at one anchor.
#[verifier::rlimit(100)]
#[verifier::spinoff_prover]
proof fn lemma_hint_perm_step(
    hints: Seq<InlayHint>,
    old_pending: Seq<SpanEdit>,
    new_pending: Seq<SpanEdit>,
    old_perm: Seq<int>,
    new_perm: Seq<int>,
    k: int,
    p: int,
    x: SpanEdit,
)
    requires
        0 <= k < hints.len(),
        hint_loop_inv(hints, old_pending, old_perm, k),
        0 <= p <= k,
        new_pending == old_pending.insert(p, x),
        new_perm == old_perm.insert(p, k),
        x.start == x.end,
        x.start as int == hint_offset(hints[k]),
        x.insert@ == hint_text(hints[k]),
        edits_linear(old_pending),
        forall|q: int| 0 <= q < p ==> (#[trigger] old_pending[q]).end <= x.start,
        p < k ==> old_pending[p].end > x.start,
    ensures
        hint_loop_inv(hints, new_pending, new_perm, k + 1),
{
    reveal(hint_loop_inv);
    assert forall|q: int| 0 <= q < k + 1 implies 0 <= #[trigger] new_perm[q] < k + 1 by {
        if q < p {
            assert(new_perm[q] == old_perm[q]);
        } else if q == p {
        } else {
            assert(new_perm[q] == old_perm[q - 1]);
        }
    }
    assert forall|q1: int, q2: int| 0 <= q1 < q2 < k + 1 implies new_perm[q1] != new_perm[q2] by {
        let v1 = if q1 < p {
            old_perm[q1]
        } else if q1 == p {
            k
        } else {
            old_perm[q1 - 1]
        };
        let v2 = if q2 < p {
            old_perm[q2]
        } else if q2 == p {
            k
        } else {
            old_perm[q2 - 1]
        };
        assert(new_perm[q1] == v1);
        assert(new_perm[q2] == v2);
    }
    assert forall|q: int|
        0 <= q < k + 1 implies ((#[trigger] new_pending[q]).start as int == hint_offset(
        hints[new_perm[q]],
    ) && new_pending[q].end as int == hint_offset(hints[new_perm[q]]) && new_pending[q].insert@
        == hint_text(hints[new_perm[q]])) by {
        if q < p {
            assert(new_pending[q] == old_pending[q]);
            assert(new_perm[q] == old_perm[q]);
        } else if q == p {
        } else {
            assert(new_pending[q] == old_pending[q - 1]);
            assert(new_perm[q] == old_perm[q - 1]);
        }
    }
    assert forall|q1: int, q2: int|
        0 <= q1 < q2 < k + 1 && (#[trigger] new_pending[q1]).start == (
    #[trigger] new_pending[q2]).start implies new_perm[q1] < new_perm[q2] by {
        if q1 != p && q2 != p {
            let o1 = if q1 < p {
                q1
            } else {
                q1 - 1
            };
            let o2 = if q2 < p {
                q2
            } else {
                q2 - 1
            };
            assert(new_pending[q1] == old_pending[o1]);
            assert(new_pending[q2] == old_pending[o2]);
            assert(new_perm[q1] == old_perm[o1]);
            assert(new_perm[q2] == old_perm[o2]);
        } else if q2 == p {
            assert(new_pending[q1] == old_pending[q1]);
            assert(new_perm[q1] == old_perm[q1]);
            assert(new_perm[q2] == k);
        } else {
            assert(q1 == p && q2 > p);
            assert(new_pending[q2] == old_pending[q2 - 1]);
            assert(old_pending[p].end > x.start);
            crate::text_edit::lemma_le_starts(old_pending, p, q2 - 1);
            assert(old_pending[p].start <= old_pending[q2 - 1].start);
            assert(false);
        }
    }
}

/// Register one hint's insertion and extend the permutation witness.
#[verifier::rlimit(100)]
#[verifier::spinoff_prover]
fn push_hint(
    builder: &mut TextEditBuilder,
    Ghost(hints): Ghost<Seq<InlayHint>>,
    Ghost(perm): Ghost<Seq<int>>,
    Ghost(k): Ghost<int>,
    offset: usize,
    text: String,
) -> (r: Ghost<Seq<int>>)
    requires
        old(builder).wf(),
        0 <= k < hints.len(),
        hint_loop_inv(hints, old(builder).pending(), perm, k),
        offset as int == hint_offset(hints[k]),
        text@ == hint_text(hints[k]),
    ensures
        final(builder).wf(),
        hint_loop_inv(hints, final(builder).pending(), r@, k + 1),
{
    let ghost old_pending = builder.pending();
    let ghost xins = SpanEdit { start: offset, end: offset, insert: text };
    proof {
        lemma_hint_inv_disjoint(hints, old_pending, perm, k, xins);
        lemma_hint_inv_anchors(hints, old_pending, perm, k);
    }
    let ok = builder.insert(offset, text);
    proof {
        assert(ok);
    }
    let ghost p = choose|p: int|
        {
            &&& 0 <= p <= old_pending.len()
            &&& #[trigger] builder.pending() == old_pending.insert(p, xins)
            &&& (forall|q: int| 0 <= q < p ==> (#[trigger] old_pending[q]).end <= offset)
            &&& (p < old_pending.len() ==> old_pending[p].end > offset)
        };
    let ghost new_perm = perm.insert(p, k);
    proof {
        lemma_hint_perm_step(
            hints,
            old_pending,
            builder.pending(),
            perm,
            new_perm,
            k,
            p,
            xins,
        );
    }
    Ghost(new_perm)
}

impl RustAnalyzerish {
    /// Render inlay hints into file text.  Each hint inserts its label at
    /// its anchor, all insertions are applied atomically, and hints at
    /// one anchor keep the database's emission order.  When both line
    /// bounds are given, only that inclusive 1-based range of the
    /// annotated text is returned; a range outside the text fails with
    /// `RangeOutOfBounds`, and a hint anchored outside the text fails
    /// with `InvalidEditPosition`.
    #[verifier::rlimit(100)]
    #[verifier::spinoff_prover]
    pub fn render_inlay_hints(
        content: &str,
        hints: &Vec<InlayHint>,
        start_line: Option<u32>,
        end_line: Option<u32>,
    ) -> (r: Result<String, EngineError>)
        ensures
            (exists|k: int|
                0 <= k < hints@.len() && hint_offset(#[trigger] hints@[k]) > content@.len()) <==> r
                == Result::<String, EngineError>::Err(EngineError::InvalidEditPosition),
            !(r == Result::<String, EngineError>::Err(EngineError::InvalidEditPosition))
                ==> exists|se: Seq<SpanEdit>, perm: Seq<int>|
                #![trigger apply_edits(se, content@), hint_edits_ok(hints@, se, perm)]
                {
                    &&& edits_linear(se)
                    &&& hint_edits_ok(hints@, se, perm)
                    &&& ({
                        let full = apply_edits(se, content@);
                        match (start_line, end_line) {
                            (Option::Some(a), Option::Some(b)) => {
                                let nl = split_lines(full).len() as int;
                                let si = if sat_dec(a) < nl {
                                    sat_dec(a)
                                } else {
                                    nl
                                };
                                let ei = if (b as int) < nl {
                                    b as int
                                } else {
                                    nl
                                };
                                if si >= nl || ei <= si {
                                    r == Result::<String, EngineError>::Err(
                                        EngineError::RangeOutOfBounds,
                                    )
                                } else {
                                    r matches Ok(s) && s@ == join_lines(
                                        split_lines(full).subrange(si, ei),
                                    )
                                }
                            },
                            _ => r matches Ok(s) && s@ == full,
                        }
                    })
                },
    {
        let ll = content.unicode_len();
        let n = hints.len();
        let mut builder = TextEditBuilder::new();
        let ghost perm: Seq<int> = Seq::empty();
        let mut perm_g: Ghost<Seq<int>> = Ghost(perm);
        let mut k: usize = 0;
        proof {
            lemma_hint_inv_empty(hints@);
        }
        while k < n
            invariant
                k <= n,
                n == hints@.len(),
                ll == content@.len(),
                builder.wf(),
                hint_loop_inv(hints@, builder.pending(), perm_g@, k as int),
                forall|j: int| 0 <= j < k ==> hint_offset(#[trigger] hints@[j]) <= ll,
            decreases n - k,
        {
            let h = &hints[k];
            let offset: usize = match h.position {
                InlayHintPosition::Before => h.start,
                InlayHintPosition::After => h.end,
            };
            if offset > ll {
                proof {
                    assert(hint_offset(hints@[k as int]) > content@.len());
                }
                return Result::Err(EngineError::InvalidEditPosition);
            }
            let text: String = match h.position {
                InlayHintPosition::Before => h.label.clone().concat(": "),
                InlayHintPosition::After => String::from_str(": ").concat(h.label.as_str()),
            };
            proof {
                assert(text@ == hint_text(hints@[k as int]));
                assert(offset as int == hint_offset(hints@[k as int]));
            }
            perm_g = push_hint(
                &mut builder,
                Ghost(hints@),
                Ghost(perm_g@),
                Ghost(k as int),
                offset,
                text,
            );
            k += 1;
        }
        let spans = builder.finish();
        proof {
            lemma_hint_inv_anchors(hints@, spans@, perm_g@, n as int);
            if spans@.len() > 0 {
                assert(spans@[spans@.len() - 1].end as int == hint_offset(
                    hints@[perm_g@[spans@.len() - 1]],
                ));
            }
        }
        let full = match apply_span_edits(&spans, content) {
            Option::Some(s) => s,
            Option::None => {
                proof {
                    assert(false);
                }
                return Result::Err(EngineError::InvalidEditPosition);
            },
        };
        let ghost se = spans@;
        let ghost fullv = apply_edits(se, content@);
        proof {
            assert(edits_linear(se));
            lemma_hint_inv_to_ok(hints@, se, perm_g@);
            assert(full@ == fullv);
        }
        match (start_line, end_line) {
            (Option::Some(a), Option::Some(b)) => {
                let fspans = line_spans(full.as_str());
                let nl = fspans.len();
                let az: usize = if a == 0 {
                    0
                } else {
                    (a - 1) as usize
                };
                let si: usize = if az < nl {
                    az
                } else {
                    nl
                };
                let ei: usize = if (b as usize) < nl {
                    b as usize
                } else {
                    nl
                };
                proof {
                    let nls = split_lines(fullv).len() as int;
                    assert(nl as int == nls);
                    assert(si as int == (if sat_dec(a) < nls {
                        sat_dec(a)
                    } else {
                        nls
                    }));
                    assert(ei as int == (if (b as int) < nls {
                        b as int
                    } else {
                        nls
                    }));
                }
                if si >= nl || ei <= si {
                    return Result::Err(EngineError::RangeOutOfBounds);
                }
                let out = join_line_range(full.as_str(), si, ei);
                proof {
                    assert(out@ == join_lines(split_lines(fullv).subrange(si as int, ei as int)));
                }
                Result::Ok(out)
            },
            _ => Result::Ok(full),
        }
    }
}

/// A 1-based text edit names the same replacement as a character span
/// under the given line index; converting it back yields that span.
pub open spec fn edit_matches_span(idx: LineIndex, e: TextEdit, sp: SpanEdit) -> bool {
    &&& e.new_text == sp.insert
    &&& e.line >= 1 && e.column >= 1 && e.end_line >= 1 && e.end_column >= 1
    &&& span_of(idx, e) == Option::Some(sp)
}

impl RustAnalyzerish {
    /// Translate a source change's character spans into 1-based text
    /// edits for the external schema.  Succeeds exactly when every span
    /// is ordered and lies within the indexed text with coordinates that
    /// fit the schema; each produced edit denotes its span exactly, so
    /// applying the plan reproduces the database's change.
    pub fn edits_from_spans(idx: &LineIndex, spans: Vec<SpanEdit>) -> (r: Option<Vec<TextEdit>>)
        requires
            idx.wf(),
        ensures
            r is Some <==> forall|k: int|
                0 <= k < spans@.len() ==> ((#[trigger] spans@[k]).start <= spans@[k].end
                    && spans@[k].end as int <= idx.text_len() && spans@[k].end < 0xFFFF_FFFF),
            r matches Some(v) ==> v@.len() == spans@.len() && forall|k: int|
                0 <= k < v@.len() ==> edit_matches_span(*idx, #[trigger] v@[k], spans@[k]),
    {
        let mut out: Vec<TextEdit> = Vec::new();
        let n = spans.len();
        let mut k: usize = 0;
        while k < n
            invariant
                k <= n,
                n == spans@.len(),
                idx.wf(),
                out@.len() == k,
                forall|j: int|
                    0 <= j < k ==> ((#[trigger] spans@[j]).start <= spans@[j].end
                        && spans@[j].end as int <= idx.text_len() && spans@[j].end < 0xFFFF_FFFF),
                forall|j: int|
                    0 <= j < k ==> edit_matches_span(*idx, #[trigger] out@[j], spans@[j]),
            decreases n - k,
        {
            let sp = &spans[k];
            if sp.start > sp.end || sp.end > idx.length() || sp.end >= 0xFFFF_FFFF {
                return Option::None;
            }
            let (l1, c1) = idx.line_col(sp.start);
            let (l2, c2) = idx.line_col(sp.end);
            let e = TextEdit {
                line: l1 + 1,
                column: c1 + 1,
                end_line: l2 + 1,
                end_column: c2 + 1,
                new_text: sp.insert.clone(),
            };
            proof {
                let spv = spans@[k as int];
                assert(idx.is_line_of(spv.start as int, l1 as int));
                assert(idx.is_line_of(spv.end as int, l2 as int));
                assert(idx.spec_offset(l1 as int, c1 as int) == Option::Some(spv.start as int));
                assert(idx.spec_offset(l2 as int, c2 as int) == Option::Some(spv.end as int));
                assert(span_of(*idx, e) == Option::Some(spv));
            }
            out.push(e);
            k += 1;
        }
        Option::Some(out)
    }
}

/// The closed set of coarse completion kinds the database reports besides
/// symbol kinds.
#[derive(Debug, Clone, Copy, PartialEq, Eq, Structural)]
pub enum CompletionKindTag {
    /// A local binding.
    Binding,
    /// A built-in type name.
    BuiltinType,
    /// An inferred type.
    InferredType,
    /// A language keyword.
    Keyword,
    /// An editor snippet.
    Snippet,
    /// A name that did not resolve.
    UnresolvedReference,
    /// A plain expression.
    Expression,
}

/// The stable string tag for a coarse completion kind.
pub fn completion_kind_name(t: &CompletionKindTag) -> (r: &'static str)
    ensures
        (match t {
            CompletionKindTag::Binding => r@ == "Binding"@,
            CompletionKindTag::BuiltinType => r@ == "BuiltinType"@,
            CompletionKindTag::InferredType => r@ == "InferredType"@,
            CompletionKindTag::Keyword => r@ == "Keyword"@,
            CompletionKindTag::Snippet => r@ == "Snippet"@,
            CompletionKindTag::UnresolvedReference => r@ == "UnresolvedReference"@,
            CompletionKindTag::Expression => r@ == "Expression"@,
        }),
{
    match t {
        CompletionKindTag::Binding => "Binding",
        CompletionKindTag::BuiltinType => "BuiltinType",
        CompletionKindTag::InferredType => "InferredType",
        CompletionKindTag::Keyword => "Keyword",
        CompletionKindTag::Snippet => "Snippet",
        CompletionKindTag::UnresolvedReference => "UnresolvedReference",
        CompletionKindTag::Expression => "Expression",
    }
}

impl RustAnalyzerish {
    /// Build one reference record from a non-empty character range of a
    /// file, converting both endpoints to 1-based coordinates.  The end
    /// position always lands strictly after the start, the record's
    /// content is the trimmed source line holding the reference, and
    /// lists built from such records keep the reference-list shape.
    #[verifier::rlimit(100)]
    #[verifier::spinoff_prover]
    pub fn reference_record(
        file_path: String,
        text: &str,
        idx: &LineIndex,
        start: usize,
        end: usize,
        name: String,
        is_definition: bool,
    ) -> (r: Option<ReferenceInfo>)
        requires
            idx.wf(),
        ensures
            r is Some <==> (start < end && end as int <= idx.text_len() && end < 0xFFFF_FFFF),
            r matches Some(rec) ==> {
                &&& rec.file_path == file_path
                &&& rec.name == name
                &&& rec.is_definition == is_definition
                &&& rec.line >= 1 && rec.column >= 1
                &&& idx.is_line_of(start as int, rec.line - 1)
                &&& rec.column - 1 == start - idx.starts()[rec.line - 1]
                &&& idx.is_line_of(end as int, rec.end_line - 1)
                &&& rec.end_column - 1 == end - idx.starts()[rec.end_line - 1]
                &&& ref_pos_ok(rec)
                &&& (rec.line - 1 < crate::entities::split_lines(text@).len() ==> rec.content@
                    == crate::utils::spec_trim(
                    crate::entities::split_lines(text@)[rec.line - 1],
                ))
                &&& (rec.line - 1 >= crate::entities::split_lines(text@).len() ==> rec.content@
                    == Seq::<char>::empty())
            },
    {
        if start >= end || end > idx.length() || end >= 0xFFFF_FFFF {
            return Option::None;
        }
        let (l1, c1) = idx.line_col(start);
        let (l2, c2) = idx.line_col(end);
        proof {
            if l2 < l1 {
                if (l2 as int) + 1 < l1 as int {
                    crate::line_index::lemma_starts_increasing(*idx, l2 as int + 1, l1 as int);
                }
                assert(end < idx.starts()[l2 as int + 1]);
                assert(idx.starts()[l1 as int] <= start);
                assert(false);
            }
            if l1 == l2 {
                assert(c2 > c1);
            }
        }
        let content = match crate::utils::RustAnalyzerUtils::get_line_content(text, l1 as usize) {
            Option::Some(line) => crate::utils::trim_text(line.as_str()),
            Option::None => String::new(),
        };
        let rec = ReferenceInfo {
            file_path,
            line: l1 + 1,
            column: c1 + 1,
            end_line: l2 + 1,
            end_column: c2 + 1,
            name,
            content,
            is_definition,
        };
        Option::Some(rec)
    }

    /// Finish a reference query: an empty record list is the
    /// `NoReferences` error, anything else is handed back sorted by
    /// (file path, line, column) with every record kept.
    pub fn finish_references(records: Vec<ReferenceInfo>) -> (r: Result<
        Vec<ReferenceInfo>,
        EngineError,
    >)
        ensures
            r is Ok <==> records@.len() > 0,
            records@.len() == 0 <==> r == Result::<Vec<ReferenceInfo>, EngineError>::Err(
                EngineError::NoReferences,
            ),
            r matches Ok(v) ==> {
                &&& v@.to_multiset() == records@.to_multiset()
                &&& v@.len() == records@.len()
                &&& forall|i: int, j: int|
                    0 <= i < j < v@.len() ==> ref_le(#[trigger] v@[i], #[trigger] v@[j])
                &&& (forall|k: int| 0 <= k < records@.len() ==> ref_pos_ok(#[trigger] records@[k]))
                    ==> (forall|k: int| 0 <= k < v@.len() ==> ref_pos_ok(#[trigger] v@[k]))
            },
    {
        if records.len() == 0 {
            return Result::Err(EngineError::NoReferences);
        }
        let ghost input = records@;
        let sorted = sort_references(records);
        proof {
            if forall|k: int| 0 <= k < input.len() ==> ref_pos_ok(#[trigger] input[k]) {
                lemma_sorted_references_pos_ok(input, sorted@);
            }
        }
        Result::Ok(sorted)
    }
}

/// One action attached to a hover answer: a go-to-type target carrying a
/// canonical module path, or anything else.
pub enum HoverAction {
    /// A type the hovered symbol involves, by canonical path.
    GoToType(Vec<String>),
    /// Any other action; the type hint ignores it.
    Other,
}

/// The canonical type paths of a hover action list: every path of every
/// go-to-type action, in order.
pub open spec fn spec_canonical_types(actions: Seq<HoverAction>) -> Seq<String>
    decreases actions.len(),
{
    if actions.len() == 0 {
        Seq::empty()
    } else {
        (match actions[0] {
            HoverAction::GoToType(paths) => paths@,
            HoverAction::Other => Seq::empty(),
        }) + spec_canonical_types(actions.drop_first())
    }
}

/// Extract the canonical type paths from a hover answer's actions.
pub fn canonical_types_from_actions(actions: Vec<HoverAction>) -> (r: Vec<String>)
    ensures
        r@ == spec_canonical_types(actions@),
{
    let ghost all = actions@;
    let mut out: Vec<String> = Vec::new();
    let mut rest = actions;
    proof {
        assert(out@ + spec_canonical_types(rest@) =~= spec_canonical_types(rest@));
    }
    while rest.len() > 0
        invariant
            spec_canonical_types(all) == out@ + spec_canonical_types(rest@),
        decreases rest@.len(),
    {
        let ghost old_rest = rest@;
        let action = rest.remove(0);
        proof {
            assert(old_rest.drop_first() =~= rest@);
        }
        match action {
            HoverAction::GoToType(mut paths) => {
                let ghost taken = paths@;
                out.append(&mut paths);
                proof {
                    assert(out@ + spec_canonical_types(rest@) =~= spec_canonical_types(all));
                }
            },
            HoverAction::Other => {},
        }
    }
    proof {
        assert(spec_canonical_types(rest@).len() == 0);
        assert(out@ + spec_canonical_types(rest@) =~= out@);
    }
    out
}

/// The import a completion needs: nothing when the database suggests
/// none, otherwise the suggestions joined with commas.
pub fn required_import_of(imports: &Vec<String>) -> (r: Option<String>)
    ensures
        r is Some <==> imports@.len() > 0,
        r matches Some(s) ==> s@ == crate::render::spec_join_comma(
            Seq::new(imports@.len(), |k: int| imports@[k]@),
        ),
{
    if imports.len() == 0 {
        Option::None
    } else {
        Option::Some(crate::render::join_comma(imports))
    }
}

/// What the database reports for a symbol's canonical name.
pub enum MonikerAnswer {
    /// A cross-artifact name: the crate and the container parts.
    Qualified {
        /// The crate the symbol lives in.
        crate_name: String,
        /// The container parts, outermost first.
        parts: Vec<String>,
    },
    /// The symbol is local to its function.
    Local,
}

/// The module path shown for a definition: the moniker when the database
/// gives one, else the container name, else a fixed fallback — `local`
/// for local symbols, `unknown` otherwise.
pub open spec fn spec_module_choice(
    moniker: Option<MonikerAnswer>,
    container_name: Option<String>,
) -> Seq<char> {
    match moniker {
        Option::Some(MonikerAnswer::Qualified { crate_name, parts }) => spec_module_path(
            crate_name@,
            Seq::new(parts@.len(), |k: int| parts@[k]@),
        ),
        Option::Some(MonikerAnswer::Local) => (match container_name {
            Option::Some(c) => c@,
            Option::None => "local"@,
        }),
        Option::None => (match container_name {
            Option::Some(c) => c@,
            Option::None => "unknown"@,
        }),
    }
}

/// Pick the module path for a definition, per `spec_module_choice`.
pub fn module_path_decision(
    moniker: Option<MonikerAnswer>,
    container_name: Option<String>,
) -> (r: String)
    ensures
        r@ == spec_module_choice(moniker, container_name),
{
    match moniker {
        Option::Some(MonikerAnswer::Qualified { crate_name, parts }) => module_path_from_parts(
            &crate_name,
            &parts,
        ),
        Option::Some(MonikerAnswer::Local) => match container_name {
            Option::Some(c) => c,
            Option::None => String::from_str("local"),
        },
        Option::None => match container_name {
            Option::Some(c) => c,
            Option::None => String::from_str("unknown"),
        },
    }
}

/// What the preamble answers once the file is known and has text: over
/// the uniquely determined resolved cursor and matching line index,
/// zero coordinates are `InvalidCoordinates`, coordinates beyond the
/// file are `OutOfBounds`, and anything else succeeds.
pub open spec fn preamble_resolution(
    cursor: CursorCoordinates,
    text: Seq<char>,
    r: Result<PreparedQuery, EngineError>,
) -> bool {
    exists|rc: CursorCoordinates, ridx: LineIndex|
        #![trigger crate::entities::resolution_ok(cursor, text, rc), ridx.matches(text)]
        {
            &&& crate::entities::resolution_ok(cursor, text, rc)
            &&& ridx.matches(text)
            &&& ((r == Result::<PreparedQuery, EngineError>::Err(EngineError::InvalidCoordinates))
                <==> (rc.line == 0 || rc.column == 0))
            &&& (rc.line >= 1 && rc.column >= 1 ==> ((r is Ok) <==> ridx.spec_offset(
                rc.line - 1,
                rc.column - 1,
            ) is Some))
            &&& (rc.line >= 1 && rc.column >= 1 ==> ((r == Result::<PreparedQuery, EngineError>::Err(
                EngineError::OutOfBounds,
            )) <==> ridx.spec_offset(rc.line - 1, rc.column - 1) is None))
        }
}

/// Everything the query preamble establishes before the database call:
/// the file, the validated offset, the possibly refined cursor, and the
/// delta the database must absorb first.
pub struct PreparedQuery {
    /// The file the query works in.
    pub file_id: crate::vfs::FileId,
    /// The validated character offset of the cursor.
    pub offset: usize,
    /// The cursor after symbol refinement.
    pub resolved: CursorCoordinates,
    /// The change records to apply to the database before querying.
    pub db_delta: Vec<DbChange>,
}

impl RustAnalyzerish {
    /// The query preamble every position-based operation shares: drain
    /// pending filesystem events, look the file up in the VFS, fetch its
    /// text, refine the cursor within the tolerance box when a symbol is
    /// given, and validate the coordinates into an offset.  Fails with
    /// `FileNotInWorkspace` exactly when the path is unknown after the
    /// drain, and with `LineIndexUnavailable` exactly when the file is
    /// known but has no text the database could index.
    #[verifier::rlimit(100)]
    #[verifier::spinoff_prover]
    pub fn prepare_query(&mut self, cursor: &CursorCoordinates) -> (r: Result<
        PreparedQuery,
        EngineError,
    >)
        requires
            old(self).wf(),
        ensures
            final(self).wf(),
            final(self).watcher_spec().pending().len() == 0,
            final(self).watcher_spec().vfs_spec().staged().len() == 0,
            final(self).project_root() == old(self).project_root(),
            old(self).watcher_spec().pending().len() == 0 ==> final(self).watcher_spec().vfs_spec().paths() == old(self).watcher_spec().vfs_spec().paths()
                && final(self).watcher_spec().vfs_spec().states() == old(self).watcher_spec().vfs_spec().states(),
            ({
                let applied = crate::watcher::model_after_msgs(
                    old(self).watcher_spec().vfs_spec().model(),
                    old(self).watcher_spec().pending(),
                );
                final(self).watcher_spec().vfs_spec().model().paths == applied.paths && final(self).watcher_spec().vfs_spec().model().states == applied.states
            }),
            ({
                let vfs = final(self).watcher_spec().vfs_spec();
                let known = vfs.paths().dom().contains(cursor.file_path@);
                &&& (r == Result::<PreparedQuery, EngineError>::Err(EngineError::FileNotInWorkspace)
                    <==> !known)
                &&& (r == Result::<PreparedQuery, EngineError>::Err(
                    EngineError::LineIndexUnavailable,
                ) <==> (known && crate::watcher::db_text_of(
                    vfs,
                    crate::vfs::FileId { id: vfs.paths()[cursor.file_path@] },
                ) is None))
                &&& (r matches Ok(q) ==> {
                    &&& known
                    &&& q.file_id.id == vfs.paths()[cursor.file_path@]
                    &&& crate::watcher::db_text_of(vfs, q.file_id) is Some
                    &&& ({
                        let text = crate::watcher::db_text_of(vfs, q.file_id)->Some_0;
                        &&& crate::entities::resolution_ok(*cursor, text, q.resolved)
                        &&& crate::entities::col_dist(
                            q.resolved.line as int,
                            cursor.line as int,
                        ) <= crate::entities::TOLERANCE as int
                        &&& q.resolved.line >= 1 && q.resolved.column >= 1
                        &&& exists|idx: LineIndex|
                            #[trigger] idx.matches(text) && idx.spec_offset(
                                q.resolved.line - 1,
                                q.resolved.column - 1,
                            ) == Some(q.offset as int)
                    })
                })
                &&& (r is Err ==> (r == Result::<PreparedQuery, EngineError>::Err(
                    EngineError::FileNotInWorkspace,
                ) || r == Result::<PreparedQuery, EngineError>::Err(
                    EngineError::LineIndexUnavailable,
                ) || r == Result::<PreparedQuery, EngineError>::Err(
                    EngineError::InvalidCoordinates,
                ) || r == Result::<PreparedQuery, EngineError>::Err(EngineError::OutOfBounds)))
                &&& ((known && crate::watcher::db_text_of(
                    vfs,
                    crate::vfs::FileId { id: vfs.paths()[cursor.file_path@] },
                ) is Some) ==> preamble_resolution(
                    *cursor,
                    crate::watcher::db_text_of(
                        vfs,
                        crate::vfs::FileId { id: vfs.paths()[cursor.file_path@] },
                    )->Some_0,
                    r,
                ))
            }),
    {
        let db_delta = self.drain_changes();
        let file_id = match self.watcher.get_file_id(&cursor.file_path) {
            Result::Ok(id) => id,
            Result::Err(e) => {
                return Result::Err(e);
            },
        };
        let text = match self.watcher.file_text(file_id) {
            Option::Some(t) => t,
            Option::None => {
                return Result::Err(EngineError::LineIndexUnavailable);
            },
        };
        let resolved = cursor.resolve_coordinates(text.as_str());
        let idx = LineIndex::new(text.as_str());
        proof {
            let vfs = self.watcher_spec().vfs_spec();
            assert(crate::watcher::db_text_of(vfs, file_id) == Option::Some(text@));
            assert(crate::entities::resolution_ok(*cursor, text@, resolved));
            assert(idx.matches(text@));
        }
        match RustAnalyzerish::validate_and_convert_cursor(&resolved, &idx) {
            Result::Ok(offset) => {
                proof {
                    let vfs = self.watcher_spec().vfs_spec();
                    assert(crate::watcher::db_text_of(vfs, file_id) == Option::Some(text@));
                    assert(idx.matches(text@));
                    assert(resolved.line >= 1 && resolved.column >= 1);
                    let so = idx.spec_offset(resolved.line - 1, resolved.column - 1);
                    assert(so is Some);
                    let sv = so->Some_0;
                    assert(idx.wf());
                    let lz = resolved.line - 1;
                    if lz + 1 < idx.line_count() {
                        assert(idx.starts()[lz + 1] <= idx.text_len());
                    }
                    crate::line_index::lemma_text_len_fits(idx);
                    assert(0 <= sv && sv <= idx.text_len());
                    assert(offset == sv as usize);
                    assert(sv == offset as int);
                    let tv = crate::watcher::db_text_of(vfs, file_id)->Some_0;
                    assert(tv == text@);
                    assert(idx.matches(tv));
                    assert(idx.spec_offset(resolved.line - 1, resolved.column - 1) == Some(
                        offset as int,
                    ));
                    assert(exists|idx2: LineIndex|
                        #[trigger] idx2.matches(tv) && idx2.spec_offset(
                            resolved.line - 1,
                            resolved.column - 1,
                        ) == Some(offset as int));
                }
                let out = PreparedQuery { file_id, offset, resolved, db_delta };
                proof {
                    assert(preamble_resolution(
                        *cursor,
                        text@,
                        Result::<PreparedQuery, EngineError>::Ok(out),
                    ));
                }
                Result::Ok(out)
            },
            Result::Err(e) => {
                proof {
                    if resolved.line >= 1 && resolved.column >= 1 {
                        assert(e == EngineError::OutOfBounds);
                        assert(idx.spec_offset(resolved.line - 1, resolved.column - 1) is None);
                    } else {
                        assert(e == EngineError::InvalidCoordinates);
                    }
                    assert(preamble_resolution(
                        *cursor,
                        text@,
                        Result::<PreparedQuery, EngineError>::Err(e),
                    ));
                }
                Result::Err(e)
            },
        }
    }
}

impl RustAnalyzerish {
    /// Build one definition record from a navigation target: the focus
    /// range gives the 1-based position, the module path follows the
    /// moniker decision, and the content is the target's source slice.
    pub fn definition_record(
        file_path: String,
        idx: &LineIndex,
        focus_start: usize,
        focus_end: usize,
        name: String,
        kind: Option<String>,
        content: String,
        moniker: Option<MonikerAnswer>,
        container_name: Option<String>,
        description: Option<String>,
    ) -> (r: Option<DefinitionInfo>)
        requires
            idx.wf(),
    ensures
            r is Some <==> (focus_start <= focus_end && focus_end as int <= idx.text_len()
                && focus_end < 0xFFFF_FFFF),
            r matches Some(d) ==> {
                &&& d.file_path == file_path
                &&& d.name == name
                &&& d.kind == kind
                &&& d.content == content
                &&& d.description == description
                &&& d.line >= 1 && d.column >= 1
                &&& idx.is_line_of(focus_start as int, d.line - 1)
                &&& d.column - 1 == focus_start - idx.starts()[d.line - 1]
                &&& idx.is_line_of(focus_end as int, d.end_line - 1)
                &&& d.end_column - 1 == focus_end - idx.starts()[d.end_line - 1]
                &&& d.module@ == spec_module_choice(moniker, container_name)
            },
    {
        if focus_start > focus_end || focus_end > idx.length() || focus_end >= 0xFFFF_FFFF {
            return Option::None;
        }
        let (l1, c1) = idx.line_col(focus_start);
        let (l2, c2) = idx.line_col(focus_end);
        let module = module_path_decision(moniker, container_name);
        Option::Some(
            DefinitionInfo {
                file_path,
                line: l1 + 1,
                column: c1 + 1,
                end_line: l2 + 1,
                end_column: c2 + 1,
                name,
                kind,
                content,
                module,
                description,
            },
        )
    }

    /// Normalize one completion into the external schema: the kind tag
    /// comes from the closed set or the database's symbol-kind name, and
    /// the required import joins the database's suggestions.
    pub fn completion_record(
        name: String,
        imports: &Vec<String>,
        kind: Option<String>,
        signature: Option<String>,
        documentation: Option<String>,
        deprecated: bool,
    ) -> (r: CompletionItem)
        ensures
            r.name == name,
            r.required_import is Some <==> imports@.len() > 0,
            r.kind == kind,
            r.signature == signature,
            r.documentation == documentation,
            r.deprecated == deprecated,
    {
        CompletionItem {
            name,
            required_import: required_import_of(imports),
            kind,
            signature,
            documentation,
            deprecated,
        }
    }
}

/// The fixed hover configuration every type-hint query uses: plain-text
/// markup, documentation and keywords on, unlimited substitution length,
/// and conservative maxima for associated items, fields and variants.
#[derive(Debug, Clone, Copy, PartialEq, Eq, Structural)]
pub struct HoverSettings {
    /// Render links inside hover text.
    pub links_in_hover: bool,
    /// Include documentation.
    pub documentation: bool,
    /// Answer on keywords too.
    pub keywords: bool,
    /// Use plain-text markup rather than markdown.
    pub plain_text_markup: bool,
    /// Cap on listed trait associated items.
    pub max_trait_assoc_items: u32,
    /// Cap on listed fields.
    pub max_fields: u32,
    /// Cap on listed enum variants.
    pub max_enum_variants: u32,
    /// No cap on substituted type length.
    pub unlimited_substitution: bool,
}

impl HoverSettings {
    /// The engine's fixed hover configuration.
    pub fn preset() -> (r: HoverSettings)
        ensures
            r == (HoverSettings {
                links_in_hover: true,
                documentation: true,
                keywords: true,
                plain_text_markup: true,
                max_trait_assoc_items: 10,
                max_fields: 10,
                max_enum_variants: 10,
                unlimited_substitution: true,
            }),
    {
        HoverSettings {
            links_in_hover: true,
            documentation: true,
            keywords: true,
            plain_text_markup: true,
            max_trait_assoc_items: 10,
            max_fields: 10,
            max_enum_variants: 10,
            unlimited_substitution: true,
        }
    }
}

/// The fixed completion configuration: post-fix completions on, imports
/// and self on the fly off, auto-iter and auto-await on, private-editable
/// and term search off, fill-arguments callable snippets, no snippet
/// support advertised, crate-granular grouped imports skipping globs,
/// prelude preferred, absolute paths not, and at most 200 results.
#[derive(Debug, Clone, Copy, PartialEq, Eq, Structural)]
pub struct CompletionSettings {
    /// Offer post-fix completions.
    pub postfix_completions: bool,
    /// Add imports on the fly.
    pub imports_on_the_fly: bool,
    /// Offer `self` on the fly.
    pub self_on_the_fly: bool,
    /// Complete through iterators.
    pub auto_iter: bool,
    /// Complete through awaits.
    pub auto_await: bool,
    /// Offer private editable items.
    pub private_editable: bool,
    /// Run term search.
    pub term_search: bool,
    /// Fill call arguments in callable completions.
    pub callable_fill_arguments: bool,
    /// Advertise snippet support.
    pub snippet_support: bool,
    /// Group inserted imports at crate granularity.
    pub import_granularity_crate: bool,
    /// Group import statements.
    pub group_imports: bool,
    /// Skip glob imports when inserting.
    pub skip_glob_imports: bool,
    /// Prefer prelude names.
    pub prefer_prelude: bool,
    /// Prefer absolute paths.
    pub prefer_absolute: bool,
    /// Cap on returned results.
    pub limit: u32,
}

impl CompletionSettings {
    /// The engine's fixed completion configuration.
    pub fn preset() -> (r: CompletionSettings)
        ensures
            r == (CompletionSettings {
                postfix_completions: true,
                imports_on_the_fly: false,
                self_on_the_fly: false,
                auto_iter: true,
                auto_await: true,
                private_editable: false,
                term_search: false,
                callable_fill_arguments: true,
                snippet_support: false,
                import_granularity_crate: true,
                group_imports: true,
                skip_glob_imports: true,
                prefer_prelude: true,
                prefer_absolute: false,
                limit: 200,
            }),
    {
        CompletionSettings {
            postfix_completions: true,
            imports_on_the_fly: false,
            self_on_the_fly: false,
            auto_iter: true,
            auto_await: true,
            private_editable: false,
            term_search: false,
            callable_fill_arguments: true,
            snippet_support: false,
            import_granularity_crate: true,
            group_imports: true,
            skip_glob_imports: true,
            prefer_prelude: true,
            prefer_absolute: false,
            limit: 200,
        }
    }
}

/// The fixed inlay-hint configuration: type and parameter-name hints on,
/// every other hint family off, closures written as `impl Fn`, no
/// rendered colons, and no length cap.
#[derive(Debug, Clone, Copy, PartialEq, Eq, Structural)]
pub struct InlaySettings {
    /// Show type hints.
    pub type_hints: bool,
    /// Show parameter-name hints.
    pub parameter_hints: bool,
    /// Show lifetime-elision hints.
    pub lifetime_elision_hints: bool,
    /// Show adjustment hints.
    pub adjustment_hints: bool,
    /// Show discriminant hints.
    pub discriminant_hints: bool,
    /// Show closure-return-type hints.
    pub closure_return_hints: bool,
    /// Show chaining hints.
    pub chaining_hints: bool,
    /// Show generic-parameter hints.
    pub generic_parameter_hints: bool,
    /// Show closure-capture hints.
    pub closure_capture_hints: bool,
    /// Show binding-mode hints.
    pub binding_mode_hints: bool,
    /// Show implicit-drop hints.
    pub implicit_drop_hints: bool,
    /// Write closures as `impl Fn`.
    pub closure_style_impl_fn: bool,
    /// Render colons in hints.
    pub render_colons: bool,
    /// No cap on hint length.
    pub unlimited_length: bool,
}

impl InlaySettings {
    /// The engine's fixed inlay-hint configuration.
    pub fn preset() -> (r: InlaySettings)
        ensures
            r == (InlaySettings {
                type_hints: true,
                parameter_hints: true,
                lifetime_elision_hints: false,
                adjustment_hints: false,
                discriminant_hints: false,
                closure_return_hints: false,
                chaining_hints: false,
                generic_parameter_hints: false,
                closure_capture_hints: false,
                binding_mode_hints: false,
                implicit_drop_hints: false,
                closure_style_impl_fn: true,
                render_colons: false,
                unlimited_length: true,
            }),
    {
        InlaySettings {
            type_hints: true,
            parameter_hints: true,
            lifetime_elision_hints: false,
            adjustment_hints: false,
            discriminant_hints: false,
            closure_return_hints: false,
            chaining_hints: false,
            generic_parameter_hints: false,
            closure_capture_hints: false,
            binding_mode_hints: false,
            implicit_drop_hints: false,
            closure_style_impl_fn: true,
            render_colons: false,
            unlimited_length: true,
        }
    }
}

/// What the semantic database answers a rename request with.
pub enum DbRenameAnswer {
    /// The database itself failed before producing a verdict.
    DbError,
    /// No rename is possible at this position.
    NotPossible,
    /// A rename was attempted and failed semantically.
    Failed,
    /// The rename succeeded with these file changes.
    Changed(Vec<crate::entities::FileChange>),
}

impl RustAnalyzerish {
    /// Map the database's rename verdict to the external outcome: a
    /// database error is `DbQueryFailure`, a rename-not-possible verdict
    /// is no plan, a semantic failure is `RenameFailed`, and a change
    /// becomes the rename plan.
    pub fn rename_decision(answer: DbRenameAnswer) -> (r: Result<
        Option<crate::entities::RenameResult>,
        EngineError,
    >)
        ensures
            (match answer {
                DbRenameAnswer::DbError => r == Result::<
                    Option<crate::entities::RenameResult>,
                    EngineError,
                >::Err(EngineError::DbQueryFailure),
                DbRenameAnswer::NotPossible => r == Result::<
                    Option<crate::entities::RenameResult>,
                    EngineError,
                >::Ok(Option::None),
                DbRenameAnswer::Failed => r == Result::<
                    Option<crate::entities::RenameResult>,
                    EngineError,
                >::Err(EngineError::RenameFailed),
                DbRenameAnswer::Changed(fcs) => r matches Ok(p) && p matches Some(plan)
                    && plan.file_changes == fcs,
            }),
    {
        match answer {
            DbRenameAnswer::DbError => Result::Err(EngineError::DbQueryFailure),
            DbRenameAnswer::NotPossible => Result::Ok(Option::None),
            DbRenameAnswer::Failed => Result::Err(EngineError::RenameFailed),
            DbRenameAnswer::Changed(fcs) => Result::Ok(
                Option::Some(crate::entities::RenameResult { file_changes: fcs }),
            ),
        }
    }
}

} // verus!
