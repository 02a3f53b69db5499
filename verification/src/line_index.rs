//! Per-file mapping between 0-based (line, column) pairs and character
//! offsets, rebuilt whenever the file content changes.
//!
//! Columns and offsets here count characters.  The semantic database
//! addresses text by UTF-8 byte offsets; `byte_offset_of_char` and
//! `char_offset_of_byte` translate exactly between the two at that
//! boundary.

use vstd::prelude::*;
use vstd::string::StrSliceExecFns;
use vstd::string::StringSliceAdditionalSpecFns;
use vstd::utf8::encode_scalar;
use vstd::utf8::encode_utf8;
use vstd::utf8::has_width_1_encoding;
use vstd::utf8::has_width_2_encoding;
use vstd::utf8::has_width_3_encoding;

verus! {

broadcast use vstd::slice::group_slice_axioms;

/// Positions of line starts within one file, plus the total length.
/// Line `k` spans from `starts[k]` up to the position of its line feed
/// (or the end of the text for the last line).
pub struct LineIndex {
    line_starts: Vec<usize>,
    len: usize,
}

impl LineIndex {
    /// The recorded line start positions.
    pub closed spec fn starts(self) -> Seq<usize> {
        self.line_starts@
    }

    /// The recorded text length.
    pub closed spec fn text_len(self) -> int {
        self.len as int
    }

    /// Number of lines; a trailing line feed opens one more, empty line.
    pub open spec fn line_count(self) -> int {
        self.starts().len() as int
    }

    /// Structural soundness: starts begin at 0, grow strictly, stay within
    /// the text, and the `k`-th start is never below `k`.
    pub open spec fn wf(self) -> bool {
        &&& self.starts().len() >= 1
        &&& self.starts()[0] == 0
        &&& forall|k: int|
            0 <= k < self.line_count() - 1 ==> ((#[trigger] self.starts()[k]) as int)
                < self.starts()[k + 1] as int
        &&& forall|k: int|
            0 <= k < self.line_count() ==> (#[trigger] self.starts()[k]) as int <= self.text_len()
        &&& forall|k: int| 0 <= k < self.line_count() ==> k <= (#[trigger] self.starts()[k]) as int
    }

    /// The index describes `text`: every line start past the first sits
    /// directly after a line feed, and no line feed hides inside a line.
    pub open spec fn matches(self, text: Seq<char>) -> bool {
        &&& self.wf()
        &&& self.text_len() == text.len()
        &&& forall|k: int|
            1 <= k < self.line_count() ==> text[(#[trigger] self.starts()[k]) as int - 1] == '\n'
        &&& forall|k: int, t: int|
            #![trigger self.starts()[k], text[t]]
            0 <= k < self.line_count() && self.starts()[k] <= t < self.line_term(k) ==> text[t]
                != '\n'
    }

    /// Offset one past the last character of line `l` (the position of its
    /// line feed, or the end of the text).
    pub open spec fn line_term(self, l: int) -> int {
        if l + 1 < self.line_count() {
            self.starts()[l + 1] as int - 1
        } else {
            self.text_len()
        }
    }

    /// The offset of 0-based (line, col), when the pair lies within the
    /// text; the column may point just past the line, at its line feed.
    pub open spec fn spec_offset(self, line: int, col: int) -> Option<int> {
        if 0 <= line < self.line_count() && 0 <= col && self.starts()[line] + col <= self.line_term(
            line,
        ) {
            Option::Some(self.starts()[line] + col)
        } else {
            Option::None
        }
    }

    /// Offset `off` lies on line `l`.
    pub open spec fn is_line_of(self, off: int, l: int) -> bool {
        &&& 0 <= l < self.line_count()
        &&& self.starts()[l] <= off
        &&& l + 1 == self.line_count() || off < self.starts()[l + 1] as int
    }

    /// Build the index for a text.
    pub fn new(text: &str) -> (r: LineIndex)
        ensures
            r.matches(text@),
    {
        let ll = text.unicode_len();
        let mut starts: Vec<usize> = Vec::new();
        starts.push(0);
        let mut i: usize = 0;
        while i < ll
            invariant
                i <= ll,
                ll == text@.len(),
                starts@.len() >= 1,
                starts@[0] == 0,
                forall|k: int|
                    0 <= k < starts@.len() - 1 ==> ((#[trigger] starts@[k]) as int) < starts@[k
                        + 1] as int,
                forall|k: int| 0 <= k < starts@.len() ==> (#[trigger] starts@[k]) as int <= i,
                forall|k: int| 0 <= k < starts@.len() ==> k <= (#[trigger] starts@[k]) as int,
                forall|k: int|
                    1 <= k < starts@.len() ==> text@[(#[trigger] starts@[k]) as int - 1] == '\n',
                forall|k: int, t: int|
                    #![trigger starts@[k], text@[t]]
                    0 <= k < starts@.len() && starts@[k] <= t < (if k + 1 < starts@.len() {
                        starts@[k + 1] as int - 1
                    } else {
                        i as int
                    }) ==> text@[t] != '\n',
            decreases ll - i,
        {
            let c = text.get_char(i);
            let ghost old_starts = starts@;
            if c == '\n' {
                starts.push(i + 1);
                proof {
                    let n = old_starts.len() as int;
                    assert(starts@[n] == (i + 1) as usize);
                    assert(forall|k: int| 0 <= k < n ==> starts@[k] == old_starts[k]);
                    assert(n - 1 <= (starts@[n - 1] as int));
                    assert(starts@[n - 1] as int <= i);
                    assert forall|k: int, t: int|
                        #![trigger starts@[k], text@[t]]
                        0 <= k < starts@.len() && starts@[k] <= t < (if k + 1 < starts@.len() {
                            starts@[k + 1] as int - 1
                        } else {
                            i + 1
                        }) implies text@[t] != '\n' by {
                        if k < n - 1 {
                            assert(old_starts[k] == starts@[k]);
                        } else if k == n - 1 {
                            assert(t < i);
                            assert(old_starts[k] == starts@[k]);
                        } else {
                            assert(starts@[k] as int == i + 1);
                        }
                    }
                }
            } else {
                proof {
                    let n = old_starts.len() as int;
                    assert forall|k: int, t: int|
                        #![trigger starts@[k], text@[t]]
                        0 <= k < starts@.len() && starts@[k] <= t < (if k + 1 < starts@.len() {
                            starts@[k + 1] as int - 1
                        } else {
                            i + 1
                        }) implies text@[t] != '\n' by {
                        if k == n - 1 && t == i {
                            assert(text@[t] != '\n');
                        }
                    }
                }
            }
            i += 1;
        }
        LineIndex { line_starts: starts, len: ll }
    }

    /// Number of lines known to the index.
    pub fn lines(&self) -> (r: usize)
        ensures
            r as int == self.line_count(),
    {
        self.line_starts.len()
    }

    /// Total length of the indexed text.
    pub fn length(&self) -> (r: usize)
        ensures
            r as int == self.text_len(),
    {
        self.len
    }

    /// Convert a 0-based (line, col) pair to an offset; `None` when the
    /// pair lies outside the text.
    pub fn offset(&self, line: u32, col: u32) -> (r: Option<usize>)
        requires
            self.wf(),
        ensures
            r is Some <==> self.spec_offset(line as int, col as int) is Some,
            r matches Some(s) ==> self.spec_offset(line as int, col as int) == Some(s as int),
    {
        let count = self.line_starts.len();
        if (line as usize) >= count {
            return None;
        }
        let l = line as usize;
        let start = self.line_starts[l];
        let term: usize = if l < count - 1 {
            self.line_starts[l + 1] - 1
        } else {
            self.len
        };
        if (col as usize) <= term - start {
            Some(start + col as usize)
        } else {
            None
        }
    }

    /// Convert an offset back to a 0-based (line, col) pair.  The offset
    /// must lie within the text and fit the `u32` coordinate schema.
    pub fn line_col(&self, off: usize) -> (r: (u32, u32))
        requires
            self.wf(),
            off as int <= self.text_len(),
            off < 0x1_0000_0000,
        ensures
            self.is_line_of(off as int, r.0 as int),
            r.1 as int == off - self.starts()[r.0 as int],
    {
        let count = self.line_starts.len();
        let mut l: usize = 0;
        while l + 1 < count && self.line_starts[l + 1] <= off
            invariant
                self.wf(),
                count == self.line_count(),
                0 <= l < count,
                self.starts()[l as int] <= off,
            decreases count - l,
        {
            l += 1;
        }
        let c = off - self.line_starts[l];
        ((l as u32), (c as u32))
    }
}

/// The recorded length is a machine size.
pub proof fn lemma_text_len_fits(idx: LineIndex)
    ensures
        0 <= idx.text_len() <= usize::MAX as int,
{
}

/// Line starts grow strictly across any gap, not only between neighbours.
pub proof fn lemma_starts_increasing(idx: LineIndex, k: int, m: int)
    requires
        idx.wf(),
        0 <= k < m < idx.line_count(),
    ensures
        (idx.starts()[k] as int) < idx.starts()[m] as int,
    decreases m - k,
{
    if k + 1 == m {
    } else {
        lemma_starts_increasing(idx, k + 1, m);
    }
}

/// An offset lies on at most one line.
pub proof fn lemma_line_of_unique(idx: LineIndex, off: int, l1: int, l2: int)
    requires
        idx.wf(),
        idx.is_line_of(off, l1),
        idx.is_line_of(off, l2),
    ensures
        l1 == l2,
{
    if l1 < l2 {
        if l1 + 2 <= l2 {
            lemma_starts_increasing(idx, l1 + 1, l2);
        }
    } else if l2 < l1 {
        if l2 + 2 <= l1 {
            lemma_starts_increasing(idx, l2 + 1, l1);
        }
    }
}

/// Coordinate round trip: converting a valid (line, col) pair to an offset
/// and back returns the same pair.
pub proof fn lemma_coordinate_round_trip(idx: LineIndex, line: int, col: int, off: int)
    requires
        idx.wf(),
        idx.spec_offset(line, col) == Some(off),
    ensures
        idx.is_line_of(off, line),
        off - idx.starts()[line] == col,
        forall|l2: int| idx.is_line_of(off, l2) ==> l2 == line,
{
    assert forall|l2: int| idx.is_line_of(off, l2) implies l2 == line by {
        lemma_line_of_unique(idx, off, line, l2);
    }
}


/// How many bytes the UTF-8 encoding of one character takes.
pub open spec fn char_utf8_width(c: char) -> int {
    if has_width_1_encoding(c as u32) {
        1
    } else if has_width_2_encoding(c as u32) {
        2
    } else if has_width_3_encoding(c as u32) {
        3
    } else {
        4
    }
}

/// The UTF-8 byte offset of the 0-based character offset `i` in `text`:
/// the byte length of the encoded prefix before it.
pub open spec fn spec_byte_offset(text: Seq<char>, i: int) -> int {
    encode_utf8(text.subrange(0, i)).len() as int
}

/// Encoding splits at any character offset.
proof fn lemma_encode_split(s: Seq<char>, i: int)
    requires
        0 <= i <= s.len(),
    ensures
        encode_utf8(s) == encode_utf8(s.subrange(0, i)) + encode_utf8(
            s.subrange(i, s.len() as int),
        ),
    decreases i,
{
    if i == 0 {
        assert(s.subrange(0, 0) =~= Seq::<char>::empty());
        assert(s.subrange(0, s.len() as int) =~= s);
        assert(encode_utf8(s) =~= encode_utf8(s.subrange(0, i)) + encode_utf8(
            s.subrange(i, s.len() as int),
        ));
    } else {
        let rest = s.drop_first();
        lemma_encode_split(rest, i - 1);
        assert(rest.subrange(0, i - 1) =~= s.subrange(0, i).drop_first());
        assert(rest.subrange(i - 1, rest.len() as int) =~= s.subrange(i, s.len() as int));
        assert(encode_utf8(s) == encode_scalar(s[0] as u32) + encode_utf8(rest));
        assert(encode_utf8(s.subrange(0, i)) == encode_scalar(s.subrange(0, i)[0] as u32)
            + encode_utf8(s.subrange(0, i).drop_first()));
        assert(s.subrange(0, i)[0] == s[0]);
        assert(encode_utf8(s) =~= encode_utf8(s.subrange(0, i)) + encode_utf8(
            s.subrange(i, s.len() as int),
        ));
    }
}

/// One more character adds exactly its encoding width.
proof fn lemma_byte_offset_step(text: Seq<char>, i: int)
    requires
        0 <= i < text.len(),
    ensures
        spec_byte_offset(text, i + 1) == spec_byte_offset(text, i) + char_utf8_width(text[i]),
{
    let p = text.subrange(0, i + 1);
    lemma_encode_split(p, i);
    assert(p.subrange(0, i) =~= text.subrange(0, i));
    assert(p.subrange(i, i + 1) =~= seq![text[i]]);
    assert(encode_utf8(seq![text[i]]) == encode_scalar(text[i] as u32) + encode_utf8(
        seq![text[i]].drop_first(),
    ));
    assert(encode_utf8(seq![text[i]].drop_first()) =~= Seq::<u8>::empty());
    assert(encode_scalar(text[i] as u32).len() == char_utf8_width(text[i]));
}

/// Byte offsets grow with character offsets.
proof fn lemma_byte_offset_mono(text: Seq<char>, i: int, j: int)
    requires
        0 <= i <= j <= text.len(),
    ensures
        spec_byte_offset(text, i) <= spec_byte_offset(text, j),
        i < j ==> spec_byte_offset(text, i) < spec_byte_offset(text, j),
    decreases j - i,
{
    if i < j {
        lemma_byte_offset_step(text, i);
        assert(char_utf8_width(text[i]) >= 1);
        lemma_byte_offset_mono(text, i + 1, j);
    }
}

/// The bytes of one character's UTF-8 encoding.
fn char_width(c: char) -> (r: usize)
    ensures
        r as int == char_utf8_width(c),
{
    let u = c as u32;
    if u < 0x80 {
        1
    } else if u < 0x800 {
        2
    } else if u < 0x10000 {
        3
    } else {
        4
    }
}

/// The UTF-8 byte offset of a character offset in `text`, as the
/// semantic database's byte-based positions count it.  Defined for
/// offsets up to and including the text length.
pub fn byte_offset_of_char(text: &str, char_offset: usize) -> (r: Option<usize>)
    ensures
        r is Some <==> char_offset as int <= text@.len(),
        r matches Some(b) ==> b as int == spec_byte_offset(text@, char_offset as int),
{
    let n = text.unicode_len();
    if char_offset > n {
        return Option::None;
    }
    let total = text.as_bytes().len();
    proof {
        assert(text@.subrange(0, 0) =~= Seq::<char>::empty());
        assert(text.spec_bytes() == encode_utf8(text@));
    }
    let mut i: usize = 0;
    let mut acc: usize = 0;
    while i < char_offset
        invariant
            i <= char_offset,
            char_offset <= n,
            n == text@.len(),
            total == encode_utf8(text@).len(),
            acc as int == spec_byte_offset(text@, i as int),
            acc <= total,
        decreases char_offset - i,
    {
        let c = text.get_char(i);
        proof {
            lemma_byte_offset_step(text@, i as int);
            lemma_byte_offset_mono(text@, i as int + 1, text@.len() as int);
            assert(text@.subrange(0, text@.len() as int) =~= text@);
        }
        acc = acc + char_width(c);
        i += 1;
    }
    Option::Some(acc)
}

/// The character offset whose UTF-8 byte offset in `text` is
/// `byte_offset`, or nothing when the byte offset lands inside a
/// character's encoding or beyond the text.
pub fn char_offset_of_byte(text: &str, byte_offset: usize) -> (r: Option<usize>)
    ensures
        r matches Some(i) ==> i as int <= text@.len() && spec_byte_offset(text@, i as int)
            == byte_offset as int,
        r is None ==> forall|i: int|
            0 <= i <= text@.len() ==> spec_byte_offset(text@, i) != byte_offset as int,
{
    let n = text.unicode_len();
    let total = text.as_bytes().len();
    proof {
        assert(text@.subrange(0, 0) =~= Seq::<char>::empty());
        assert(text.spec_bytes() == encode_utf8(text@));
    }
    let mut i: usize = 0;
    let mut acc: usize = 0;
    while acc < byte_offset && i < n
        invariant
            i <= n,
            n == text@.len(),
            total == encode_utf8(text@).len(),
            acc as int == spec_byte_offset(text@, i as int),
            acc <= total,
            forall|j: int| 0 <= j < i ==> spec_byte_offset(text@, j) < byte_offset as int,
        decreases n - i,
    {
        let c = text.get_char(i);
        proof {
            lemma_byte_offset_step(text@, i as int);
            lemma_byte_offset_mono(text@, i as int + 1, text@.len() as int);
            assert(encode_utf8(text@.subrange(0, text@.len() as int)).len() == encode_utf8(
                text@,
            ).len()) by {
                assert(text@.subrange(0, text@.len() as int) =~= text@);
            }
            assert(spec_byte_offset(text@, i as int + 1) <= encode_utf8(text@).len());
        }
        acc = acc + char_width(c);
        i += 1;
    }
    if acc == byte_offset {
        Option::Some(i)
    } else {
        proof {
            assert forall|j: int| 0 <= j <= text@.len() implies spec_byte_offset(text@, j)
                != byte_offset as int by {
                if j < i {
                } else if acc > byte_offset {
                    lemma_byte_offset_mono(text@, i as int, j);
                } else {
                    lemma_byte_offset_mono(text@, j, text@.len() as int);
                    assert(i == n);
                    assert(spec_byte_offset(text@, n as int) == acc);
                }
            }
        }
        Option::None
    }
}

} // verus!
