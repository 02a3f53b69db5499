//! Utility operations on file text: line extraction, coordinate
//! conversion, and the application of a file change to its content.
//!
//! Reading files from disk and writing them back is filesystem work and
//! stays in the application shell; it hands these functions the content
//! as text.

use vstd::prelude::*;
use vstd::string::StrSliceExecFns;
use vstd::string::StringExecFns;

use crate::entities::line_spans;
use crate::entities::split_lines;
use crate::entities::TextEdit;
use crate::errors::EngineError;
use crate::line_index::LineIndex;
use crate::text_edit::apply_edits;
use crate::text_edit::edits_disjoint;
use crate::text_edit::edits_linear;
use crate::text_edit::apply_span_edits;
use crate::text_edit::SpanEdit;
use crate::text_edit::TextEditBuilder;

verus! {

broadcast use vstd::seq_lib::group_to_multiset_ensures;

/// 1-based to 0-based, saturating at zero.
pub open spec fn sat_dec(x: u32) -> int {
    if x == 0 {
        0
    } else {
        x - 1
    }
}

/// The character span a 1-based text edit denotes under a line index, or
/// nothing when either endpoint lies outside the text.
pub open spec fn span_of(idx: LineIndex, e: TextEdit) -> Option<SpanEdit> {
    match (
        idx.spec_offset(sat_dec(e.line), sat_dec(e.column)),
        idx.spec_offset(sat_dec(e.end_line), sat_dec(e.end_column)),
    ) {
        (Option::Some(s), Option::Some(t)) => if s <= t {
            Option::Some(SpanEdit { start: s as usize, end: t as usize, insert: e.new_text })
        } else {
            Option::None
        },
        _ => Option::None,
    }
}

/// Every edit of the list denotes a span.
pub open spec fn all_convert(idx: LineIndex, edits: Seq<TextEdit>) -> bool {
    forall|k: int| 0 <= k < edits.len() ==> (#[trigger] span_of(idx, edits[k])) is Some
}

/// No two edits of the list overlap.
pub open spec fn spans_pairwise_ok(idx: LineIndex, edits: Seq<TextEdit>) -> bool {
    forall|k1: int, k2: int|
        0 <= k1 < edits.len() && 0 <= k2 < edits.len() && k1 != k2 ==> edits_disjoint(
            (#[trigger] span_of(idx, edits[k1]))->Some_0,
            (#[trigger] span_of(idx, edits[k2]))->Some_0,
        )
}

/// Utility functions on file text.
pub struct RustAnalyzerUtils;

impl RustAnalyzerUtils {
    /// The 0-based `line_number`-th line of the text, without its ending.
    pub fn get_line_content(file_text: &str, line_number: usize) -> (r: Option<String>)
        ensures
            r is Some <==> line_number < split_lines(file_text@).len(),
            r matches Some(s) ==> s@ == split_lines(file_text@)[line_number as int],
    {
        let spans = line_spans(file_text);
        if line_number < spans.len() {
            let sp = spans[line_number];
            Option::Some(String::from_str(file_text.substring_char(sp.0, sp.1)))
        } else {
            Option::None
        }
    }

    /// Convert a 1-based (line, column) pair to a character offset using
    /// the line index, saturating 0 to the first line or column.
    pub fn line_col_to_offset_with_index(line_index: &LineIndex, line: u32, column: u32) -> (r:
        Option<usize>)
        requires
            line_index.wf(),
        ensures
            r is Some <==> line_index.spec_offset(sat_dec(line), sat_dec(column)) is Some,
            r matches Some(s) ==> line_index.spec_offset(sat_dec(line), sat_dec(column)) == Some(
                s as int,
            ),
            r matches Some(s) ==> line_index.is_line_of(s as int, sat_dec(line))
                && s - line_index.starts()[sat_dec(line)] == sat_dec(column),
    {
        let lz: u32 = if line == 0 {
            0
        } else {
            line - 1
        };
        let cz: u32 = if column == 0 {
            0
        } else {
            column - 1
        };
        let r = line_index.offset(lz, cz);
        proof {
            if r is Some {
                crate::line_index::lemma_coordinate_round_trip(
                    *line_index,
                    lz as int,
                    cz as int,
                    r->Some_0 as int,
                );
            }
        }
        r
    }

    /// The character span one edit denotes, per `span_of`.
    fn convert_edit(idx: &LineIndex, e: &TextEdit) -> (r: Option<(usize, usize)>)
        requires
            idx.wf(),
        ensures
            r is Some <==> span_of(*idx, *e) is Some,
            r matches Some(p) ==> p.0 <= p.1,
            r matches Some(p) ==> span_of(*idx, *e) == Option::Some(
                SpanEdit { start: p.0, end: p.1, insert: e.new_text },
            ),
    {
        let start = match RustAnalyzerUtils::line_col_to_offset_with_index(idx, e.line, e.column) {
            Option::Some(s) => s,
            Option::None => {
                return Option::None;
            },
        };
        let end = match RustAnalyzerUtils::line_col_to_offset_with_index(
            idx,
            e.end_line,
            e.end_column,
        ) {
            Option::Some(t) => t,
            Option::None => {
                return Option::None;
            },
        };
        if start > end {
            return Option::None;
        }
        Option::Some((start, end))
    }

    /// Apply the edits of one file change to that file's content.  Each
    /// 1-based half-open range is converted through the line index, the
    /// edits are combined into one atomic replacement, and the rewritten
    /// text is returned.  Fails with `InvalidEditPosition` exactly when
    /// some endpoint does not map into the text, some range is reversed,
    /// or two ranges overlap.
    #[verifier::rlimit(100)]
    #[verifier::spinoff_prover]
    pub fn apply_edits_to_text(idx: &LineIndex, content: &str, edits: &Vec<TextEdit>) -> (r: Result<
        String,
        EngineError,
    >)
        requires
            idx.matches(content@),
        ensures
            r is Ok <==> (all_convert(*idx, edits@) && spans_pairwise_ok(*idx, edits@)),
            r matches Err(e) ==> e == EngineError::InvalidEditPosition,
            r matches Ok(s) ==> exists|se: Seq<SpanEdit>|
                {
                    &&& edits_linear(se)
                    &&& se.len() == edits@.len()
                    &&& se.to_multiset() == Seq::new(
                        edits@.len(),
                        |k: int| span_of(*idx, edits@[k])->Some_0,
                    ).to_multiset()
                    &&& s@ == #[trigger] apply_edits(se, content@)
                },
    {
        let ghost goal = Seq::new(edits@.len(), |k: int| span_of(*idx, edits@[k])->Some_0);
        let mut builder = TextEditBuilder::new();
        let n = edits.len();
        let mut k: usize = 0;
        proof {
            assert(goal.subrange(0, 0) =~= Seq::<SpanEdit>::empty());
            assert(Seq::<SpanEdit>::empty().to_multiset() =~= builder.pending().to_multiset());
        }
        while k < n
            invariant
                k <= n,
                n == edits@.len(),
                idx.matches(content@),
                builder.wf(),
                goal == Seq::new(edits@.len(), |j: int| span_of(*idx, edits@[j])->Some_0),
                forall|j: int| 0 <= j < k ==> (#[trigger] span_of(*idx, edits@[j])) is Some,
                builder.pending().to_multiset() == goal.subrange(0, k as int).to_multiset(),
                forall|j1: int, j2: int|
                    0 <= j1 < k && 0 <= j2 < k && j1 != j2 ==> edits_disjoint(
                        (#[trigger] span_of(*idx, edits@[j1]))->Some_0,
                        (#[trigger] span_of(*idx, edits@[j2]))->Some_0,
                    ),
            decreases n - k,
        {
            let e = &edits[k];
            let (start, end) = match RustAnalyzerUtils::convert_edit(idx, e) {
                Option::Some(p) => p,
                Option::None => {
                    return Result::Err(EngineError::InvalidEditPosition);
                },
            };
            let ghost old_pending = builder.pending();
            let ok = builder.replace(start, end, e.new_text.clone());
            if !ok {
                proof {
                    let x = SpanEdit { start, end, insert: e.new_text };
                    assert(span_of(*idx, edits@[k as int]) == Option::Some(x));
                    let q = choose|q: int|
                        0 <= q < old_pending.len() && !edits_disjoint(x, #[trigger] old_pending[q]);
                    assert(old_pending.to_multiset().contains(old_pending[q]));
                    assert(goal.subrange(0, k as int).to_multiset().contains(old_pending[q]));
                    let j = choose|j: int|
                        0 <= j < k && goal.subrange(0, k as int)[j] == old_pending[q];
                    assert(goal[j] == old_pending[q]);
                    assert(!edits_disjoint(
                        span_of(*idx, edits@[k as int])->Some_0,
                        span_of(*idx, edits@[j])->Some_0,
                    ));
                }
                return Result::Err(EngineError::InvalidEditPosition);
            }
            proof {
                let x = SpanEdit { start, end, insert: e.new_text };
                assert(span_of(*idx, edits@[k as int]) == Option::Some(x));
                assert(goal[k as int] == x);
                assert(goal.subrange(0, k as int + 1) =~= goal.subrange(0, k as int).push(x));
                assert(goal.subrange(0, k as int).push(x).to_multiset() == goal.subrange(
                    0,
                    k as int,
                ).to_multiset().insert(x));
                assert forall|j1: int, j2: int|
                    0 <= j1 < k + 1 && 0 <= j2 < k + 1 && j1 != j2 implies edits_disjoint(
                    (#[trigger] span_of(*idx, edits@[j1]))->Some_0,
                    (#[trigger] span_of(*idx, edits@[j2]))->Some_0,
                ) by {
                    if j1 == k || j2 == k {
                        let jo = if j1 == k {
                            j2
                        } else {
                            j1
                        };
                        if jo < k {
                            let y = span_of(*idx, edits@[jo])->Some_0;
                            assert(goal.subrange(0, k as int).to_multiset().contains(
                                goal.subrange(0, k as int)[jo],
                            ));
                            assert(old_pending.to_multiset().contains(y));
                            let q = choose|q: int|
                                0 <= q < old_pending.len() && old_pending[q] == y;
                            assert(edits_disjoint(x, old_pending[q]));
                        }
                    }
                }
            }
            k += 1;
        }
        proof {
            assert(goal.subrange(0, n as int) =~= goal);
        }
        let spans = builder.finish();
        proof {
            assert(spans@.len() == spans@.to_multiset().len());
            assert(goal.to_multiset().len() == goal.len());
            if spans@.len() > 0 {
                let last = spans@[spans@.len() - 1];
                assert(spans@.to_multiset().contains(last));
                assert(goal.to_multiset().contains(last));
                let j = choose|j: int| 0 <= j < goal.len() && goal[j] == last;
                assert(span_of(*idx, edits@[j]) is Some);
                assert(last.end <= idx.text_len());
            }
        }
        match apply_span_edits(&spans, content) {
            Option::Some(s) => Result::Ok(s),
            Option::None => {
                proof {
                    assert(false);
                }
                Result::Err(EngineError::InvalidEditPosition)
            },
        }
    }
}

/// Whitespace as trimming counts it: spaces, tabs and line-ending
/// characters.
pub open spec fn is_ws(c: char) -> bool {
    c == ' ' || c == '\t' || c == '\n' || c == '\r'
}

/// Length of the whitespace run at the front of `s`.
pub open spec fn ws_prefix_len(s: Seq<char>) -> nat
    decreases s.len(),
{
    if s.len() == 0 {
        0
    } else if !is_ws(s[0]) {
        0
    } else {
        1 + ws_prefix_len(s.drop_first())
    }
}

/// Length of the whitespace run at the back of `s`.
pub open spec fn ws_suffix_len(s: Seq<char>) -> nat
    decreases s.len(),
{
    if s.len() == 0 {
        0
    } else if !is_ws(s.last()) {
        0
    } else {
        1 + ws_suffix_len(s.drop_last())
    }
}

/// `s` without its leading and trailing whitespace.
pub open spec fn spec_trim(s: Seq<char>) -> Seq<char> {
    if ws_prefix_len(s) + ws_suffix_len(s) >= s.len() {
        Seq::empty()
    } else {
        s.subrange(ws_prefix_len(s) as int, s.len() - ws_suffix_len(s))
    }
}

/// A position with only whitespace before it, and none at it, bounds the
/// front whitespace run.
proof fn lemma_ws_prefix_at(s: Seq<char>, i: int)
    requires
        0 <= i <= s.len(),
        forall|t: int| 0 <= t < i ==> is_ws(#[trigger] s[t]),
        i < s.len() ==> !is_ws(s[i]),
    ensures
        ws_prefix_len(s) == i,
    decreases i,
{
    if i == 0 {
        if s.len() > 0 {
            assert(!is_ws(s[0]));
        }
    } else {
        assert(is_ws(s[0]));
        assert(forall|t: int| 0 <= t < i - 1 ==> is_ws(#[trigger] s.drop_first()[t]));
        if i - 1 < s.drop_first().len() {
            assert(s.drop_first()[i - 1] == s[i]);
        }
        lemma_ws_prefix_at(s.drop_first(), i - 1);
    }
}

/// A position with only whitespace after it, and none just before it,
/// bounds the back whitespace run.
proof fn lemma_ws_suffix_at(s: Seq<char>, j: int)
    requires
        0 <= j <= s.len(),
        forall|t: int| j <= t < s.len() ==> is_ws(#[trigger] s[t]),
        j > 0 ==> !is_ws(s[j - 1]),
    ensures
        ws_suffix_len(s) == s.len() - j,
    decreases s.len() - j,
{
    if j == s.len() {
        if s.len() > 0 {
            assert(!is_ws(s.last()));
        }
    } else {
        assert(is_ws(s.last()));
        assert(forall|t: int| j <= t < s.drop_last().len() ==> is_ws(#[trigger] s.drop_last()[t]));
        if j > 0 {
            assert(s.drop_last()[j - 1] == s[j - 1]);
        }
        lemma_ws_suffix_at(s.drop_last(), j);
    }
}

/// The text without its leading and trailing whitespace.
pub fn trim_text(s: &str) -> (r: String)
    ensures
        r@ == spec_trim(s@),
{
    let n = s.unicode_len();
    let mut i: usize = 0;
    while i < n && is_ws_exec(s.get_char(i))
        invariant
            i <= n,
            n == s@.len(),
            forall|t: int| 0 <= t < i ==> is_ws(#[trigger] s@[t]),
        decreases n - i,
    {
        i += 1;
    }
    proof {
        lemma_ws_prefix_at(s@, i as int);
    }
    if i >= n {
        proof {
            assert(spec_trim(s@) =~= Seq::<char>::empty());
        }
        let out = String::new();
        return out;
    }
    let mut j: usize = n;
    while j > i && is_ws_exec(s.get_char(j - 1))
        invariant
            i <= j <= n,
            n == s@.len(),
            i < n,
            !is_ws(s@[i as int]),
            forall|t: int| j <= t < n ==> is_ws(#[trigger] s@[t]),
        decreases j,
    {
        j -= 1;
    }
    proof {
        assert(j > i ==> !is_ws(s@[j - 1]));
        if j == i {
            assert(false);
        }
        lemma_ws_suffix_at(s@, j as int);
    }
    String::from_str(s.substring_char(i, j))
}

/// Whether trimming counts the character as whitespace.
fn is_ws_exec(c: char) -> (r: bool)
    ensures
        r == is_ws(c),
{
    c == ' ' || c == '\t' || c == '\n' || c == '\r'
}

} // verus!
