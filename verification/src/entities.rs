//! External schema records and cursor resolution.
//!
//! Positions are 1-based; columns count characters within a line (the
//! `line_index` converters translate to the database's byte offsets).  The
//! cursor resolver refines approximate coordinates by searching for a
//! symbol inside a tolerance box of `TOLERANCE` lines and columns around
//! the requested position.

use vstd::prelude::*;
use vstd::string::StrSliceExecFns;

verus! {

/// Window, in lines and columns, searched around a requested cursor
/// position when a symbol name is given.
pub const TOLERANCE: u32 = 5;

/// Cursor coordinates for specifying a position in a file.
#[derive(Debug, Clone)]
pub struct CursorCoordinates {
    /// Absolute path to the source file.
    pub file_path: String,
    /// Line number (1-based).
    pub line: u32,
    /// Column number (1-based).
    pub column: u32,
    /// Optional symbol to find near the given coordinates.
    pub symbol: Option<String>,
}

/// Distance between two columns or two lines.
pub open spec fn col_dist(a: int, b: int) -> int {
    if a >= b {
        a - b
    } else {
        b - a
    }
}

/// `sym` occurs in `line` starting at position `i` (0-based; overlapping
/// occurrences all count).
pub open spec fn is_match_at(line: Seq<char>, sym: Seq<char>, i: int) -> bool {
    &&& 0 <= i
    &&& i + sym.len() <= line.len()
    &&& line.subrange(i, i + sym.len() as int) == sym
}

/// Some occurrence of `sym` exists in `line`.
pub open spec fn has_match(line: Seq<char>, sym: Seq<char>) -> bool {
    exists|i: int| is_match_at(line, sym, i)
}

/// `p` is the first occurrence of `sym` in `line`.
pub open spec fn first_match(line: Seq<char>, sym: Seq<char>, p: int) -> bool {
    &&& is_match_at(line, sym, p)
    &&& forall|j: int| is_match_at(line, sym, j) ==> p <= j
}

/// Some occurrence of `sym` starts within `TOLERANCE` columns of the
/// 1-based target column.
pub open spec fn within_tolerance(line: Seq<char>, sym: Seq<char>, target_col: int) -> bool {
    exists|i: int| is_match_at(line, sym, i) && col_dist(i + 1, target_col) <= TOLERANCE as int
}

/// `p` is the occurrence of `sym` whose 1-based start column is closest to
/// the target column, the earliest among ties, and within tolerance.
pub open spec fn closest_match(line: Seq<char>, sym: Seq<char>, target_col: int, p: int) -> bool {
    &&& is_match_at(line, sym, p)
    &&& col_dist(p + 1, target_col) <= TOLERANCE as int
    &&& forall|j: int|
        is_match_at(line, sym, j) ==> col_dist(p + 1, target_col) < col_dist(j + 1, target_col)
            || (col_dist(p + 1, target_col) == col_dist(j + 1, target_col) && p <= j)
}

/// What a returned 1-based column `c` means for one line: the closest
/// occurrence within tolerance on the target line, and otherwise the first
/// occurrence.
pub open spec fn line_column_ok(
    line: Seq<char>,
    sym: Seq<char>,
    center_line: bool,
    target_col: int,
    c: int,
) -> bool {
    &&& 1 <= c
    &&& is_match_at(line, sym, c - 1)
    &&& if center_line {
        if within_tolerance(line, sym, target_col) {
            closest_match(line, sym, target_col, c - 1)
        } else {
            first_match(line, sym, c - 1)
        }
    } else {
        first_match(line, sym, c - 1)
    }
}

/// A line short enough that every occurrence start fits a `u32` column,
/// holding an occurrence of `sym`.
pub open spec fn has_u32_match(line: Seq<char>, sym: Seq<char>) -> bool {
    line.len() < 0xFFFF_FFFF && has_match(line, sym)
}

/// Position of the first line feed in `s`, or `s.len()` if none.
pub open spec fn first_nl(s: Seq<char>) -> nat
    decreases s.len(),
{
    if s.len() == 0 {
        0
    } else if s[0] == '\n' {
        0
    } else {
        1 + first_nl(s.drop_first())
    }
}

/// A carriage return directly before a line feed belongs to the line
/// ending, not to the line.
pub open spec fn strip_cr(l: Seq<char>) -> Seq<char> {
    if l.len() > 0 && l.last() == '\r' {
        l.drop_last()
    } else {
        l
    }
}

/// The lines of a text, split at line feeds; a final line ending yields no
/// extra empty line, and a final segment without one is kept as is.
pub open spec fn split_lines(s: Seq<char>) -> Seq<Seq<char>>
    decreases s.len(),
{
    if s.len() == 0 {
        Seq::empty()
    } else {
        let i = first_nl(s);
        if i >= s.len() {
            seq![s]
        } else {
            seq![strip_cr(s.subrange(0, i as int))] + split_lines(
                s.subrange(i as int + 1, s.len() as int),
            )
        }
    }
}

/// `first_nl` points at the first line feed: nothing before it is one, and
/// it is one itself unless the text holds none.
pub proof fn lemma_first_nl(s: Seq<char>)
    ensures
        first_nl(s) <= s.len(),
        first_nl(s) < s.len() ==> s[first_nl(s) as int] == '\n',
        forall|t: int| 0 <= t < first_nl(s) ==> s[t] != '\n',
    decreases s.len(),
{
    if s.len() == 0 {
    } else if s[0] == '\n' {
    } else {
        lemma_first_nl(s.drop_first());
        assert forall|t: int| 0 <= t < first_nl(s) implies s[t] != '\n' by {
            if t > 0 {
                assert(s.drop_first()[t - 1] == s[t]);
            }
        }
        if first_nl(s) < s.len() {
            assert(s.drop_first()[first_nl(s.drop_first()) as int] == s[first_nl(s) as int]);
        }
    }
}

/// A position with no line feed before it, and a line feed (or the text
/// end) at it, is where `first_nl` points.
pub proof fn lemma_first_nl_at(s: Seq<char>, j: int)
    requires
        0 <= j <= s.len(),
        forall|t: int| 0 <= t < j ==> s[t] != '\n',
        j < s.len() ==> s[j] == '\n',
    ensures
        first_nl(s) == j,
{
    lemma_first_nl(s);
    if first_nl(s) < j {
        assert(s[first_nl(s) as int] == '\n');
    } else if first_nl(s) > j {
        assert(s[j] != '\n');
    }
}

/// Line number `l` may serve a cursor centered at `center` over `nlines`
/// lines: it exists in the file, its columns fit `u32`, and it lies within
/// the tolerance box.
pub open spec fn candidate_line(center: int, nlines: int, l: int) -> bool {
    &&& 1 <= l
    &&& l <= nlines
    &&& l <= 0xFFFF_FFFF
    &&& col_dist(l, center) <= TOLERANCE as int
}

/// Rank of line `l` in the search order `center`, `center + 1`,
/// `center - 1`, `center + 2`, `center - 2`, and so on.
pub open spec fn search_rank(center: int, l: int) -> int {
    if l == center {
        0
    } else if l > center {
        2 * (l - center) - 1
    } else {
        2 * (center - l)
    }
}

/// The two cursors agree field by field.
pub open spec fn same_cursor(a: CursorCoordinates, b: CursorCoordinates) -> bool {
    &&& a.file_path == b.file_path
    &&& a.line == b.line
    &&& a.column == b.column
    &&& a.symbol == b.symbol
}

/// Character spans of each line of `content`, start inclusive and end
/// exclusive, with line endings left out.
pub(crate) fn line_spans(content: &str) -> (r: Vec<(usize, usize)>)
    ensures
        r@.len() == split_lines(content@).len(),
        forall|k: int|
            0 <= k < r@.len() ==> {
                &&& (#[trigger] r@[k]).0 <= r@[k].1
                &&& r@[k].1 <= content@.len()
                &&& content@.subrange(r@[k].0 as int, r@[k].1 as int) == split_lines(content@)[k]
            },
{
    let ll = content.unicode_len();
    let mut spans: Vec<(usize, usize)> = Vec::new();
    let mut start: usize = 0;
    let mut i: usize = 0;
    proof {
        assert(content@.subrange(0, ll as int) =~= content@);
    }
    while i < ll
        invariant
            start <= i <= ll,
            ll == content@.len(),
            forall|t: int| start <= t < i ==> content@[t] != '\n',
            split_lines(content@).len() == spans@.len() + split_lines(
                content@.subrange(start as int, ll as int),
            ).len(),
            forall|k: int|
                0 <= k < spans@.len() ==> {
                    &&& (#[trigger] spans@[k]).0 <= spans@[k].1
                    &&& spans@[k].1 <= ll
                    &&& content@.subrange(spans@[k].0 as int, spans@[k].1 as int) == split_lines(
                        content@,
                    )[k]
                },
            forall|k: int|
                0 <= k < split_lines(content@.subrange(start as int, ll as int)).len()
                    ==> #[trigger] split_lines(content@)[spans@.len() + k] == split_lines(
                    content@.subrange(start as int, ll as int),
                )[k],
        decreases ll - i,
    {
        if content.get_char(i) == '\n' {
            let end: usize = if i > start && content.get_char(i - 1) == '\r' {
                i - 1
            } else {
                i
            };
            let ghost old_spans = spans@;
            let ghost old_start = start as int;
            spans.push((start, end));
            start = i + 1;
            proof {
                let t = content@.subrange(old_start, ll as int);
                let t2 = content@.subrange(start as int, ll as int);
                assert forall|u: int| 0 <= u < i - old_start implies t[u] != '\n' by {
                    assert(t[u] == content@[old_start + u]);
                }
                assert(t[i - old_start] == content@[i as int]);
                lemma_first_nl_at(t, i - old_start);
                assert(t.subrange(0, i - old_start) =~= content@.subrange(old_start, i as int));
                assert(strip_cr(t.subrange(0, i - old_start)) =~= content@.subrange(
                    old_start,
                    end as int,
                ));
                assert(t.subrange(i - old_start + 1, t.len() as int) =~= t2);
                assert(split_lines(t) =~= seq![
                    content@.subrange(old_start, end as int),
                ] + split_lines(t2));
                assert(split_lines(t).len() == 1 + split_lines(t2).len());
                assert(spans@.len() == old_spans.len() + 1);
                assert(split_lines(content@)[old_spans.len() as int + 0] == split_lines(t)[0]);
                assert(split_lines(t)[0] == content@.subrange(old_start, end as int));
                assert forall|k: int| 0 <= k < spans@.len() implies ((#[trigger] spans@[k]).0
                    <= spans@[k].1 && spans@[k].1 <= ll && content@.subrange(
                    spans@[k].0 as int,
                    spans@[k].1 as int,
                ) == split_lines(content@)[k]) by {
                    if k < old_spans.len() {
                        assert(spans@[k] == old_spans[k]);
                    } else {
                        assert(spans@[k].0 == old_start);
                        assert(spans@[k].1 == end);
                    }
                }
                assert forall|k: int| 0 <= k < split_lines(t2).len() implies #[trigger] split_lines(
                    content@,
                )[spans@.len() + k] == split_lines(t2)[k] by {
                    assert(split_lines(content@)[old_spans.len() + (k + 1)] == split_lines(t)[k
                        + 1]);
                    assert(split_lines(t)[k + 1] == split_lines(t2)[k]);
                }
            }
        }
        i += 1;
    }
    if start < ll {
        let ghost old_spans = spans@;
        spans.push((start, ll));
        proof {
            let t = content@.subrange(start as int, ll as int);
            assert forall|u: int| 0 <= u < t.len() implies t[u] != '\n' by {
                assert(t[u] == content@[start + u]);
            }
            lemma_first_nl_at(t, t.len() as int);
            assert(split_lines(t) =~= seq![t]);
            assert(split_lines(content@)[old_spans.len() as int + 0] == split_lines(t)[0]);
            assert forall|k: int| 0 <= k < spans@.len() implies ((#[trigger] spans@[k]).0
                <= spans@[k].1 && spans@[k].1 <= ll && content@.subrange(
                spans@[k].0 as int,
                spans@[k].1 as int,
            ) == split_lines(content@)[k]) by {
                if k < old_spans.len() {
                    assert(spans@[k] == old_spans[k]);
                } else {
                    assert(spans@[k].0 == start);
                    assert(spans@[k].1 == ll);
                    assert(split_lines(content@)[k] == split_lines(t)[0]);
                }
            }
        }
    } else {
        proof {
            assert(content@.subrange(start as int, ll as int).len() == 0);
        }
    }
    spans
}

/// What refinement by a symbol returns: the earliest line in the search
/// order holding the symbol, with the column chosen per line, or nothing
/// when no line of the box holds it.
pub open spec fn refinement_ok(
    self_: CursorCoordinates,
    content: Seq<char>,
    sym: Seq<char>,
    r: Option<CursorCoordinates>,
) -> bool {
    let lines = split_lines(content);
    let center = self_.line as int;
    match r {
        Option::None => forall|l: int|
            candidate_line(center, lines.len() as int, l) ==> !has_u32_match(
                #[trigger] lines[l - 1],
                sym,
            ),
        Option::Some(cc) => {
            let l = cc.line as int;
            &&& cc.file_path == self_.file_path
            &&& cc.symbol == self_.symbol
            &&& candidate_line(center, lines.len() as int, l)
            &&& has_u32_match(lines[l - 1], sym)
            &&& line_column_ok(lines[l - 1], sym, l == center, self_.column as int, cc.column as int)
            &&& forall|l2: int|
                candidate_line(center, lines.len() as int, l2) && has_u32_match(
                    #[trigger] lines[l2 - 1],
                    sym,
                ) ==> search_rank(center, l) <= search_rank(center, l2)
        },
    }
}

/// How resolution relates the result to the request: identity without a
/// symbol or without an occurrence in the box, refinement otherwise.
pub open spec fn resolution_ok(
    self_: CursorCoordinates,
    content: Seq<char>,
    r: CursorCoordinates,
) -> bool {
    match self_.symbol {
        Option::Some(sym) => {
            if exists|l: int|
                candidate_line(self_.line as int, split_lines(content).len() as int, l)
                    && has_u32_match(#[trigger] split_lines(content)[l - 1], sym@) {
                refinement_ok(self_, content, sym@, Option::Some(r))
            } else {
                same_cursor(r, self_)
            }
        },
        Option::None => same_cursor(r, self_),
    }
}

/// Resolution is deterministic: any two cursors that `resolution_ok`
/// relates to one request and one text agree on every field.
pub proof fn lemma_resolution_unique(
    self_: CursorCoordinates,
    content: Seq<char>,
    r1: CursorCoordinates,
    r2: CursorCoordinates,
)
    requires
        resolution_ok(self_, content, r1),
        resolution_ok(self_, content, r2),
    ensures
        same_cursor(r1, r2),
{
    match self_.symbol {
        Option::Some(sym) => {
            let lines = split_lines(content);
            let center = self_.line as int;
            if exists|l: int|
                candidate_line(center, lines.len() as int, l) && has_u32_match(
                    #[trigger] lines[l - 1],
                    sym@,
                ) {
                let l1 = r1.line as int;
                let l2 = r2.line as int;
                assert(search_rank(center, l1) <= search_rank(center, l2));
                assert(search_rank(center, l2) <= search_rank(center, l1));
                assert(l1 == l2);
                let line = lines[l1 - 1];
                let p1 = r1.column as int - 1;
                let p2 = r2.column as int - 1;
                if l1 == center && within_tolerance(line, sym@, self_.column as int) {
                    assert(is_match_at(line, sym@, p1));
                    assert(is_match_at(line, sym@, p2));
                    assert(p1 <= p2 && p2 <= p1);
                } else {
                    assert(p1 <= p2 && p2 <= p1);
                }
            }
        },
        Option::None => {},
    }
}

/// Copy of an optional symbol name.
fn clone_opt_string(s: &Option<String>) -> (r: Option<String>)
    ensures
        r == *s,
{
    match s {
        Option::None => Option::None,
        Option::Some(x) => Option::Some(x.clone()),
    }
}

impl CursorCoordinates {
    /// A copy that agrees field by field.
    fn copy_cursor(&self) -> (r: CursorCoordinates)
        ensures
            same_cursor(r, *self),
    {
        CursorCoordinates {
            file_path: self.file_path.clone(),
            line: self.line,
            column: self.column,
            symbol: clone_opt_string(&self.symbol),
        }
    }

    /// Find the coordinates of `symbol` within the tolerance box around
    /// this cursor, searching lines outward from the cursor line.
    pub fn find_symbol_in_tolerance_box(&self, file_content: &str, symbol: &str) -> (r: Option<
        CursorCoordinates,
    >)
        ensures
            refinement_ok(*self, file_content@, symbol@, r),
    {
        let spans = line_spans(file_content);
        let nlines = spans.len();
        let center = self.line;
        let ghost lines = split_lines(file_content@);
        let mut off: u32 = 0;
        while off <= TOLERANCE
            invariant
                off <= TOLERANCE + 1,
                nlines == lines.len(),
                lines == split_lines(file_content@),
                spans@.len() == lines.len(),
                center == self.line,
                forall|k: int|
                    0 <= k < spans@.len() ==> {
                        &&& (#[trigger] spans@[k]).0 <= spans@[k].1
                        &&& spans@[k].1 <= file_content@.len()
                        &&& file_content@.subrange(spans@[k].0 as int, spans@[k].1 as int)
                            == lines[k]
                    },
                forall|l2: int|
                    candidate_line(center as int, lines.len() as int, l2) && search_rank(
                        center as int,
                        l2,
                    ) < (if off == 0 {
                        0int
                    } else {
                        2 * off - 1
                    }) ==> !has_u32_match(#[trigger] lines[l2 - 1], symbol@),
            decreases TOLERANCE + 1 - off,
        {
            let cu: u64 = center as u64 + off as u64;
            if cu >= 1 && cu <= nlines as u64 && cu <= 0xFFFF_FFFF {
                let l: usize = cu as usize;
                let sp = spans[l - 1];
                let line_str = file_content.substring_char(sp.0, sp.1);
                let found = self.find_symbol_in_line(line_str, symbol, l);
                if let Some(col) = found {
                    proof {
                        assert(line_str@ == lines[l - 1]);
                        assert forall|l2: int|
                            candidate_line(center as int, lines.len() as int, l2) && has_u32_match(
                                #[trigger] lines[l2 - 1],
                                symbol@,
                            ) implies search_rank(center as int, cu as int) <= search_rank(
                            center as int,
                            l2,
                        ) by {}
                    }
                    return Some(
                        CursorCoordinates {
                            file_path: self.file_path.clone(),
                            line: cu as u32,
                            column: col,
                            symbol: clone_opt_string(&self.symbol),
                        },
                    );
                }
                proof {
                    assert(line_str@ == lines[l - 1]);
                    assert(!has_u32_match(lines[l - 1], symbol@));
                }
            }
            proof {
                assert forall|l2: int|
                    candidate_line(center as int, lines.len() as int, l2) && search_rank(
                        center as int,
                        l2,
                    ) < 2 * off ==> !has_u32_match(#[trigger] lines[l2 - 1], symbol@) by {}
            }
            if off != 0 && center as u64 > off as u64 {
                let cl: u32 = center - off;
                if cl >= 1 && (cl as u64) <= nlines as u64 {
                    let l: usize = cl as usize;
                    let sp = spans[l - 1];
                    let line_str = file_content.substring_char(sp.0, sp.1);
                    let found = self.find_symbol_in_line(line_str, symbol, l);
                    if let Some(col) = found {
                        proof {
                            assert(line_str@ == lines[l - 1]);
                        }
                        return Some(
                            CursorCoordinates {
                                file_path: self.file_path.clone(),
                                line: cl,
                                column: col,
                                symbol: clone_opt_string(&self.symbol),
                            },
                        );
                    }
                    proof {
                        assert(line_str@ == lines[l - 1]);
                        assert(!has_u32_match(lines[l - 1], symbol@));
                    }
                }
            }
            proof {
                assert forall|l2: int|
                    candidate_line(center as int, lines.len() as int, l2) && search_rank(
                        center as int,
                        l2,
                    ) < 2 * (off + 1) - 1 ==> !has_u32_match(#[trigger] lines[l2 - 1], symbol@) by {}
            }
            off += 1;
        }
        proof {
            assert forall|l2: int|
                candidate_line(center as int, lines.len() as int, l2) implies !has_u32_match(
                #[trigger] lines[l2 - 1],
                symbol@,
            ) by {
                assert(search_rank(center as int, l2) <= 2 * TOLERANCE);
            }
        }
        None
    }

    /// Refine this cursor against the file content: when a symbol is set,
    /// search the tolerance box for it; otherwise, and when it is absent
    /// from the box, return the coordinates unchanged.  The returned line
    /// never strays further than `TOLERANCE` lines from the request.
    pub fn resolve_coordinates(&self, file_content: &str) -> (r: CursorCoordinates)
        ensures
            resolution_ok(*self, file_content@, r),
            col_dist(r.line as int, self.line as int) <= TOLERANCE as int,
    {
        match &self.symbol {
            Option::Some(sym) => {
                let found = self.find_symbol_in_tolerance_box(file_content, sym.as_str());
                match found {
                    Option::Some(cc) => cc,
                    Option::None => self.copy_cursor(),
                }
            },
            Option::None => self.copy_cursor(),
        }
    }
}

impl CursorCoordinates {
    /// Find a symbol within a single line, considering column tolerance.
    ///
    /// On the cursor's own line the occurrence closest to the cursor column
    /// wins if it lies within `TOLERANCE` columns; otherwise, and on every
    /// other line, the first occurrence wins.  Lines too long for `u32`
    /// columns yield no occurrence.
    pub fn find_symbol_in_line(&self, line: &str, symbol: &str, line_number: usize) -> (r: Option<
        u32,
    >)
        ensures
            r is Some <==> has_u32_match(line@, symbol@),
            r matches Some(c) ==> line_column_ok(
                line@,
                symbol@,
                line_number as int == self.line as int,
                self.column as int,
                c as int,
            ),
    {
        let ll = line.unicode_len();
        if ll >= 0xFFFF_FFFF {
            return None;
        }
        let sl = symbol.unicode_len();
        if sl > ll {
            proof {
                assert(forall|i: int| !is_match_at(line@, symbol@, i));
            }
            return None;
        }
        let mut ms: Vec<usize> = Vec::new();
        let mut i: usize = 0;
        while i <= ll - sl
            invariant
                sl <= ll,
                ll < 0xFFFF_FFFF,
                ll == line@.len(),
                sl == symbol@.len(),
                i <= ll - sl + 1,
                forall|k: int|
                    0 <= k < ms@.len() ==> is_match_at(line@, symbol@, #[trigger] ms@[k] as int)
                        && ms@[k] < i,
                forall|j: int|
                    0 <= j < i && is_match_at(line@, symbol@, j) ==> ms@.contains(j as usize),
                forall|k1: int, k2: int| 0 <= k1 < k2 < ms@.len() ==> ms@[k1] < ms@[k2],
            decreases ll - sl + 1 - i,
        {
            let mut j: usize = 0;
            let mut eq: bool = true;
            while j < sl && eq
                invariant
                    j <= sl,
                    i + sl <= ll,
                    ll == line@.len(),
                    sl == symbol@.len(),
                    eq ==> forall|t: int| 0 <= t < j ==> line@[i + t] == symbol@[t],
                    !eq ==> !is_match_at(line@, symbol@, i as int),
                decreases sl - j,
            {
                if line.get_char(i + j) != symbol.get_char(j) {
                    proof {
                        assert(line@.subrange(i as int, i + sl as int)[j as int] == line@[i + j]);
                    }
                    eq = false;
                }
                j += 1;
            }
            if eq {
                proof {
                    assert(line@.subrange(i as int, i + sl as int) =~= symbol@);
                }
                let ghost old_ms = ms@;
                ms.push(i);
                proof {
                    assert(forall|j2: int|
                        0 <= j2 < i && is_match_at(line@, symbol@, j2) ==> old_ms.contains(
                            j2 as usize,
                        ));
                    assert forall|j2: int|
                        0 <= j2 < i + 1 && is_match_at(line@, symbol@, j2) implies ms@.contains(
                        j2 as usize,
                    ) by {
                        if j2 < i {
                            let k = choose|k: int| 0 <= k < old_ms.len() && old_ms[k] == j2 as usize;
                            assert(ms@[k] == j2 as usize);
                        } else {
                            assert(ms@[ms@.len() - 1] == i);
                        }
                    }
                }
            } else {
                proof {
                    assert forall|j2: int|
                        0 <= j2 < i + 1 && is_match_at(line@, symbol@, j2) implies ms@.contains(
                        j2 as usize,
                    ) by {
                        if j2 < i {
                            let k = choose|k: int| 0 <= k < ms@.len() && ms@[k] == j2 as usize;
                            assert(ms@[k] == j2 as usize);
                        }
                    }
                }
            }
            i += 1;
        }
        proof {
            assert forall|j2: int| is_match_at(line@, symbol@, j2) implies ms@.contains(
                j2 as usize,
            ) by {
                assert(j2 + symbol@.len() <= line@.len());
            }
        }
        if ms.len() == 0 {
            proof {
                assert(!has_match(line@, symbol@)) by {
                    if exists|j2: int| is_match_at(line@, symbol@, j2) {
                        let j2 = choose|j2: int| is_match_at(line@, symbol@, j2);
                        assert(ms@.contains(j2 as usize));
                    }
                }
            }
            return None;
        }
        if line_number == self.line as usize {
            let target: usize = self.column as usize;
            let mut best: usize = ms[0];
            let mut bestd: usize = if best + 1 >= target {
                best + 1 - target
            } else {
                target - (best + 1)
            };
            let mut bi_g: Ghost<int> = Ghost(0);
            let mut k: usize = 1;
            while k < ms.len()
                invariant
                    1 <= k <= ms@.len(),
                    ms@.len() > 0,
                    ll == line@.len(),
                    ll < 0xFFFF_FFFF,
                    target == self.column as int,
                    forall|k2: int|
                        0 <= k2 < ms@.len() ==> is_match_at(line@, symbol@, #[trigger] ms@[k2] as int)
                            && ms@[k2] <= ll,
                    forall|k1: int, k2: int| 0 <= k1 < k2 < ms@.len() ==> ms@[k1] < ms@[k2],
                    forall|j2: int|
                        is_match_at(line@, symbol@, j2) ==> ms@.contains(j2 as usize),
                    0 <= bi_g@ < k,
                    ms@[bi_g@] == best,
                    bestd == col_dist(best + 1, target as int),
                    forall|k2: int|
                        0 <= k2 < k ==> bestd < col_dist(#[trigger] ms@[k2] as int + 1, target as int)
                            || (bestd == col_dist(ms@[k2] as int + 1, target as int) && best
                            <= ms@[k2]),
                decreases ms@.len() - k,
            {
                let cand = ms[k];
                let d: usize = if cand + 1 >= target {
                    cand + 1 - target
                } else {
                    target - (cand + 1)
                };
                if d < bestd {
                    best = cand;
                    bestd = d;
                    bi_g = Ghost(k as int);
                }
                k += 1;
            }
            if bestd <= TOLERANCE as usize {
                proof {
                    assert(is_match_at(line@, symbol@, best as int));
                    assert forall|j2: int| is_match_at(line@, symbol@, j2) implies col_dist(
                        best as int + 1,
                        self.column as int,
                    ) < col_dist(j2 + 1, self.column as int) || (col_dist(
                        best as int + 1,
                        self.column as int,
                    ) == col_dist(j2 + 1, self.column as int) && best as int <= j2) by {
                        assert(ms@.contains(j2 as usize));
                        let k2 = choose|k2: int| 0 <= k2 < ms@.len() && ms@[k2] == j2 as usize;
                        assert(ms@[k2] as int == j2);
                    }
                }
                Some((best + 1) as u32)
            } else {
                proof {
                    assert(!within_tolerance(line@, symbol@, self.column as int)) by {
                        if within_tolerance(line@, symbol@, self.column as int) {
                            let j2 = choose|j2: int|
                                is_match_at(line@, symbol@, j2) && col_dist(
                                    j2 + 1,
                                    self.column as int,
                                ) <= TOLERANCE as int;
                            assert(ms@.contains(j2 as usize));
                            let k2 = choose|k2: int| 0 <= k2 < ms@.len() && ms@[k2] == j2 as usize;
                            assert(ms@[k2] as int == j2);
                        }
                    }
                    assert forall|j2: int| is_match_at(line@, symbol@, j2) implies ms@[0] as int
                        <= j2 by {
                        assert(ms@.contains(j2 as usize));
                        let k2 = choose|k2: int| 0 <= k2 < ms@.len() && ms@[k2] == j2 as usize;
                        assert(ms@[k2] as int == j2);
                    }
                }
                Some((ms[0] + 1) as u32)
            }
        } else {
            proof {
                assert forall|j2: int| is_match_at(line@, symbol@, j2) implies ms@[0] as int
                    <= j2 by {
                    assert(ms@.contains(j2 as usize));
                    let k2 = choose|k2: int| 0 <= k2 < ms@.len() && ms@[k2] == j2 as usize;
                    assert(ms@[k2] as int == j2);
                }
            }
            Some((ms[0] + 1) as u32)
        }
    }
}

/// Information about a definition location.
#[derive(Debug, Clone)]
pub struct DefinitionInfo {
    /// Path to the file containing the definition.
    pub file_path: String,
    /// Line number (1-based) where the definition starts.
    pub line: u32,
    /// Column number (1-based) where the definition starts.
    pub column: u32,
    /// Line number (1-based) where the definition ends.
    pub end_line: u32,
    /// Column number (1-based) where the definition ends.
    pub end_column: u32,
    /// Name of the defined symbol.
    pub name: String,
    /// Kind of the symbol (function, struct, and so on).
    pub kind: Option<String>,
    /// Content of the definition.
    pub content: String,
    /// Canonical module path.
    pub module: String,
    /// Signature or doc description, if available.
    pub description: Option<String>,
}

/// A single text edit within a file; 1-based, half-open at the end.
#[derive(Debug, Clone)]
pub struct TextEdit {
    /// Line number (1-based) where the edit starts.
    pub line: u32,
    /// Column number (1-based) where the edit starts.
    pub column: u32,
    /// Line number (1-based) where the edit ends.
    pub end_line: u32,
    /// Column number (1-based) where the edit ends.
    pub end_column: u32,
    /// The text to replace the range with.
    pub new_text: String,
}

/// Changes to a single file during a rename.
#[derive(Debug, Clone)]
pub struct FileChange {
    /// Path to the file that will be changed.
    pub file_path: String,
    /// List of text edits to apply to this file.
    pub edits: Vec<TextEdit>,
}

/// Result of a rename operation: one change set per touched file.
#[derive(Debug, Clone)]
pub struct RenameResult {
    /// Files that will be changed by the rename operation.
    pub file_changes: Vec<FileChange>,
}

/// A type hint for a given position.
#[derive(Debug, Clone)]
pub struct TypeHint {
    /// Path to the file the hint is about.
    pub file_path: String,
    /// Line number (1-based) of the request.
    pub line: u32,
    /// Column number (1-based) of the request.
    pub column: u32,
    /// Markup text describing the symbol under the cursor.
    pub symbol: String,
    /// Canonical paths of the types involved.
    pub canonical_types: Vec<String>,
}

/// A completion item for a given cursor position.
#[derive(Debug, Clone)]
pub struct CompletionItem {
    /// The primary name.
    pub name: String,
    /// Import required to use the completion, if any.
    pub required_import: Option<String>,
    /// The kind of completion (function, variable, and so on).
    pub kind: Option<String>,
    /// Function signature or type information.
    pub signature: Option<String>,
    /// Documentation for this completion.
    pub documentation: Option<String>,
    /// Whether this completion is deprecated.
    pub deprecated: bool,
}

/// Information about one reference location.
#[derive(Debug, Clone, PartialEq)]
pub struct ReferenceInfo {
    /// Path to the file containing the reference.
    pub file_path: String,
    /// Line number (1-based) where the reference starts.
    pub line: u32,
    /// Column number (1-based) where the reference starts.
    pub column: u32,
    /// Line number (1-based) where the reference ends.
    pub end_line: u32,
    /// Column number (1-based) where the reference ends.
    pub end_column: u32,
    /// Name of the referenced symbol.
    pub name: String,
    /// The line of source containing the reference.
    pub content: String,
    /// Whether this is the definition rather than a usage.
    pub is_definition: bool,
}

/// A code assist (code action) offered at a position.
#[derive(Debug, Clone)]
pub struct AssistInfo {
    /// Stable identifier of the assist.
    pub id: String,
    /// Assist category.
    pub kind: String,
    /// Human-readable label.
    pub label: String,
    /// The target range the assist applies to, rendered as text.
    pub target: String,
    /// The change the assist would make, when resolved.
    pub source_change: Option<AssistSourceChange>,
}

/// Source change produced by an assist.
#[derive(Debug, Clone)]
pub struct AssistSourceChange {
    /// Files that the assist would change.
    pub file_changes: Vec<FileChange>,
    /// Whether the change carries editor snippets.
    pub is_snippet: bool,
}

/// Workspace-wide symbol search result.
#[derive(Debug, Clone)]
pub struct WorkspaceSymbol {
    /// The symbol name.
    pub name: String,
    /// The kind of symbol, if known.
    pub kind: Option<String>,
    /// Absolute path to the file that contains this symbol.
    pub file_path: String,
    /// Line number (1-based) where the symbol is defined.
    pub line: u32,
    /// Column number (1-based) where the symbol is defined.
    pub column: u32,
    /// Containing module, impl or similar, if known.
    pub container_name: Option<String>,
}

} // verus!
