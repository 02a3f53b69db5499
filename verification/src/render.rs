//! Plain-text rendering of the external schema records, as the front
//! ends print them.

use vstd::prelude::*;
use vstd::string::StrSliceExecFns;
use vstd::string::StringExecFns;

use crate::entities::AssistInfo;
use crate::entities::AssistSourceChange;
use crate::entities::CompletionItem;
use crate::entities::DefinitionInfo;
use crate::entities::FileChange;
use crate::entities::ReferenceInfo;
use crate::entities::RenameResult;
use crate::entities::TextEdit;
use crate::entities::TypeHint;
use crate::entities::WorkspaceSymbol;

verus! {

/// The character for one decimal digit.
pub open spec fn digit_char(d: nat) -> char {
    if d == 0 {
        '0'
    } else if d == 1 {
        '1'
    } else if d == 2 {
        '2'
    } else if d == 3 {
        '3'
    } else if d == 4 {
        '4'
    } else if d == 5 {
        '5'
    } else if d == 6 {
        '6'
    } else if d == 7 {
        '7'
    } else if d == 8 {
        '8'
    } else {
        '9'
    }
}

/// The decimal digits of a number, most significant first.
pub open spec fn dec_digits(n: nat) -> Seq<char>
    decreases n,
{
    if n < 10 {
        seq![digit_char(n)]
    } else {
        dec_digits(n / 10).push(digit_char(n % 10))
    }
}

/// One decimal digit as text.
fn digit_str(d: u32) -> (r: &'static str)
    requires
        d < 10,
    ensures
        r@ == seq![digit_char(d as nat)],
{
    let s: &'static str = match d {
        0 => "0",
        1 => "1",
        2 => "2",
        3 => "3",
        4 => "4",
        5 => "5",
        6 => "6",
        7 => "7",
        8 => "8",
        _ => "9",
    };
    proof {
        reveal_strlit("0");
        reveal_strlit("1");
        reveal_strlit("2");
        reveal_strlit("3");
        reveal_strlit("4");
        reveal_strlit("5");
        reveal_strlit("6");
        reveal_strlit("7");
        reveal_strlit("8");
        reveal_strlit("9");
        assert(s@ =~= seq![digit_char(d as nat)]);
    }
    s
}

/// A number rendered in decimal.
pub fn u32_text(n: u32) -> (r: String)
    ensures
        r@ == dec_digits(n as nat),
    decreases n,
{
    if n < 10 {
        String::from_str(digit_str(n))
    } else {
        let mut s = u32_text(n / 10);
        s.append(digit_str(n % 10));
        proof {
            assert(dec_digits((n / 10) as nat).push(digit_char((n % 10) as nat)) =~= dec_digits(
                (n / 10) as nat,
            ) + seq![digit_char((n % 10) as nat)]);
        }
        s
    }
}

/// A number rendered in decimal.
pub fn usize_text(n: usize) -> (r: String)
    ensures
        r@ == dec_digits(n as nat),
    decreases n,
{
    if n < 10 {
        let d: u32 = n as u32;
        String::from_str(digit_str(d))
    } else {
        let mut s = usize_text(n / 10);
        let d: u32 = (n % 10) as u32;
        s.append(digit_str(d));
        proof {
            assert(dec_digits((n / 10) as nat).push(digit_char((n % 10) as nat)) =~= dec_digits(
                (n / 10) as nat,
            ) + seq![digit_char((n % 10) as nat)]);
        }
        s
    }
}

/// `file:line:column`, the position prefix shared by several records.
pub open spec fn spec_position_text(file: Seq<char>, line: nat, column: nat) -> Seq<char> {
    file + ":"@ + dec_digits(line) + ":"@ + dec_digits(column)
}

/// Render a `file:line:column` position.
pub fn position_text(file: &String, line: u32, column: u32) -> (r: String)
    ensures
        r@ == spec_position_text(file@, line as nat, column as nat),
{
    let mut s = file.clone();
    s.append(":");
    let lt = u32_text(line);
    s.append(lt.as_str());
    s.append(":");
    let ct = u32_text(column);
    s.append(ct.as_str());
    s
}

/// The items joined with `, `.
pub open spec fn spec_join_comma(items: Seq<Seq<char>>) -> Seq<char>
    decreases items.len(),
{
    if items.len() == 0 {
        Seq::empty()
    } else if items.len() == 1 {
        items[0]
    } else {
        items[0] + ", "@ + spec_join_comma(items.drop_first())
    }
}

/// Join texts with `, ` between them.
pub fn join_comma(items: &Vec<String>) -> (r: String)
    ensures
        r@ == spec_join_comma(Seq::new(items@.len(), |k: int| items@[k]@)),
{
    let ghost views = Seq::new(items@.len(), |k: int| items@[k]@);
    let mut out = String::new();
    let n = items.len();
    let mut k: usize = 0;
    proof {
        assert(views.skip(0) =~= views);
        assert(out@ + spec_join_comma(views) =~= spec_join_comma(views));
    }
    while k < n
        invariant
            k <= n,
            n == items@.len(),
            views == Seq::new(items@.len(), |j: int| items@[j]@),
            spec_join_comma(views) == out@ + spec_join_comma(views.skip(k as int)),
        decreases n - k,
    {
        proof {
            assert(views.skip(k as int)[0] == items@[k as int]@);
            assert(views.skip(k as int).drop_first() =~= views.skip(k as int + 1));
        }
        out.append(items[k].as_str());
        if k + 1 < n {
            out.append(", ");
        } else {
            proof {
                assert(views.skip(k as int).len() == 1);
                assert(spec_join_comma(views.skip(k as int + 1)).len() == 0);
            }
        }
        k += 1;
    }
    proof {
        assert(spec_join_comma(views.skip(n as int)).len() == 0);
    }
    out
}

impl TypeHint {
    /// The hint as the front ends print it: the position, the markup in a
    /// fenced block, and the canonical types joined with commas.
    pub fn render(&self) -> (r: String)
        ensures
            r@ == spec_position_text(self.file_path@, self.line as nat, self.column as nat)
                + "\n```md\n"@ + self.symbol@ + "\n```\nRelevant types: "@ + spec_join_comma(
                Seq::new(self.canonical_types@.len(), |k: int| self.canonical_types@[k]@),
            ),
    {
        let mut s = position_text(&self.file_path, self.line, self.column);
        s.append("\n```md\n");
        s.append(self.symbol.as_str());
        s.append("\n```\nRelevant types: ");
        let joined = join_comma(&self.canonical_types);
        s.append(joined.as_str());
        s
    }
}

impl DefinitionInfo {
    /// The definition as the front ends print it: its position, then its
    /// source text.
    pub fn render(&self) -> (r: String)
        ensures
            r@ == spec_position_text(self.file_path@, self.line as nat, self.column as nat) + "\n"@
                + self.content@,
    {
        let mut s = position_text(&self.file_path, self.line, self.column);
        s.append("\n");
        s.append(self.content.as_str());
        s
    }
}

/// A text edit as the front ends print it.
pub open spec fn spec_edit_text(e: TextEdit) -> Seq<char> {
    dec_digits(e.line as nat) + ":"@ + dec_digits(e.column as nat) + "-"@ + dec_digits(
        e.end_line as nat,
    ) + ":"@ + dec_digits(e.end_column as nat) + " -> '"@ + e.new_text@ + "'"@
}

impl TextEdit {
    /// The edit as the front ends print it: its range, then the new text.
    pub fn render(&self) -> (r: String)
        ensures
            r@ == spec_edit_text(*self),
    {
        let mut s = u32_text(self.line);
        s.append(":");
        let t1 = u32_text(self.column);
        s.append(t1.as_str());
        s.append("-");
        let t2 = u32_text(self.end_line);
        s.append(t2.as_str());
        s.append(":");
        let t3 = u32_text(self.end_column);
        s.append(t3.as_str());
        s.append(" -> '");
        s.append(self.new_text.as_str());
        s.append("'");
        s
    }
}

impl ReferenceInfo {
    /// The reference as the front ends print it: its position, whether it
    /// is the definition, and the line holding it.
    pub fn render(&self) -> (r: String)
        ensures
            r@ == spec_position_text(self.file_path@, self.line as nat, self.column as nat) + " ("@
                + (if self.is_definition {
                "def"@
            } else {
                "ref"@
            }) + ") - "@ + self.content@,
    {
        let mut s = position_text(&self.file_path, self.line, self.column);
        s.append(" (");
        if self.is_definition {
            s.append("def");
        } else {
            s.append("ref");
        }
        s.append(") - ");
        s.append(self.content.as_str());
        s
    }
}

impl CompletionItem {
    /// The completion as the front ends print it: the name, then the kind
    /// in parentheses and the signature after a dash, where present.
    pub fn render(&self) -> (r: String)
        ensures
            r@ == self.name@ + (match self.kind {
                Option::Some(kind) => " ("@ + kind@ + ")"@,
                Option::None => Seq::<char>::empty(),
            }) + (match self.signature {
                Option::Some(sig) => " - "@ + sig@,
                Option::None => Seq::<char>::empty(),
            }),
    {
        let mut s = self.name.clone();
        match &self.kind {
            Option::Some(kind) => {
                s.append(" (");
                s.append(kind.as_str());
                s.append(")");
            },
            Option::None => {},
        }
        match &self.signature {
            Option::Some(sig) => {
                s.append(" - ");
                s.append(sig.as_str());
            },
            Option::None => {},
        }
        s
    }
}

/// The edits of a file change, one indented line each.
pub open spec fn spec_edit_lines(edits: Seq<TextEdit>) -> Seq<char>
    decreases edits.len(),
{
    if edits.len() == 0 {
        Seq::empty()
    } else {
        "  -> "@ + spec_edit_text(edits[0]) + "\n"@ + spec_edit_lines(edits.drop_first())
    }
}

/// A file change as the front ends print it: the path, then its edits.
pub open spec fn spec_file_change_text(fc: FileChange) -> Seq<char> {
    fc.file_path@ + "\n"@ + spec_edit_lines(fc.edits@)
}

impl FileChange {
    /// The change as the front ends print it.
    pub fn render(&self) -> (r: String)
        ensures
            r@ == spec_file_change_text(*self),
    {
        let mut out = self.file_path.clone();
        out.append("\n");
        let n = self.edits.len();
        let mut k: usize = 0;
        proof {
            assert(self.edits@.skip(0) =~= self.edits@);
        }
        while k < n
            invariant
                k <= n,
                n == self.edits@.len(),
                spec_file_change_text(*self) == out@ + spec_edit_lines(self.edits@.skip(k as int)),
            decreases n - k,
        {
            proof {
                assert(self.edits@.skip(k as int)[0] == self.edits@[k as int]);
                assert(self.edits@.skip(k as int).drop_first() =~= self.edits@.skip(k as int + 1));
            }
            out.append("  -> ");
            let et = self.edits[k].render();
            out.append(et.as_str());
            out.append("\n");
            k += 1;
        }
        proof {
            assert(spec_edit_lines(self.edits@.skip(n as int)).len() == 0);
        }
        out
    }
}

/// The file changes of a rename, one block each.
pub open spec fn spec_change_blocks(changes: Seq<FileChange>) -> Seq<char>
    decreases changes.len(),
{
    if changes.len() == 0 {
        Seq::empty()
    } else {
        spec_file_change_text(changes[0]) + "\n"@ + spec_change_blocks(changes.drop_first())
    }
}

impl RenameResult {
    /// The rename summary as the front ends print it: how many files
    /// changed, then each file's edits.
    pub fn render(&self) -> (r: String)
        ensures
            r@ == "Successfully renamed symbol in "@ + dec_digits(self.file_changes@.len())
                + " file(s):\n\n"@ + spec_change_blocks(self.file_changes@),
    {
        let mut out = String::from_str("Successfully renamed symbol in ");
        let nt = usize_text(self.file_changes.len());
        out.append(nt.as_str());
        out.append(" file(s):\n\n");
        let n = self.file_changes.len();
        let mut k: usize = 0;
        proof {
            assert(self.file_changes@.skip(0) =~= self.file_changes@);
        }
        while k < n
            invariant
                k <= n,
                n == self.file_changes@.len(),
                "Successfully renamed symbol in "@ + dec_digits(self.file_changes@.len())
                    + " file(s):\n\n"@ + spec_change_blocks(self.file_changes@) == out@
                    + spec_change_blocks(self.file_changes@.skip(k as int)),
            decreases n - k,
        {
            proof {
                assert(self.file_changes@.skip(k as int)[0] == self.file_changes@[k as int]);
                assert(self.file_changes@.skip(k as int).drop_first() =~= self.file_changes@.skip(
                    k as int + 1,
                ));
            }
            let ct = self.file_changes[k].render();
            out.append(ct.as_str());
            out.append("\n");
            k += 1;
        }
        proof {
            assert(spec_change_blocks(self.file_changes@.skip(n as int)).len() == 0);
        }
        out
    }
}

impl AssistInfo {
    /// The assist as the front ends print it: label, kind and target.
    pub fn render(&self) -> (r: String)
        ensures
            r@ == self.label@ + " ("@ + self.kind@ + "): "@ + self.target@,
    {
        let mut s = self.label.clone();
        s.append(" (");
        s.append(self.kind.as_str());
        s.append("): ");
        s.append(self.target.as_str());
        s
    }
}

impl AssistSourceChange {
    /// The change summary as the front ends print it.
    pub fn render(&self) -> (r: String)
        ensures
            r@ == "Changes to "@ + dec_digits(self.file_changes@.len()) + " files"@,
    {
        let mut s = String::from_str("Changes to ");
        let nt = usize_text(self.file_changes.len());
        s.append(nt.as_str());
        s.append(" files");
        s
    }
}

impl WorkspaceSymbol {
    /// The symbol as the front ends print it: its position and name, the
    /// kind in parentheses and the container after `::`, where present.
    pub fn render(&self) -> (r: String)
        ensures
            r@ == spec_position_text(self.file_path@, self.line as nat, self.column as nat) + " - "@
                + self.name@ + (match self.kind {
                Option::Some(kind) => " ("@ + kind@ + ")"@,
                Option::None => Seq::<char>::empty(),
            }) + (match self.container_name {
                Option::Some(container) => " :: "@ + container@,
                Option::None => Seq::<char>::empty(),
            }),
    {
        let mut s = position_text(&self.file_path, self.line, self.column);
        s.append(" - ");
        s.append(self.name.as_str());
        match &self.kind {
            Option::Some(kind) => {
                s.append(" (");
                s.append(kind.as_str());
                s.append(")");
            },
            Option::None => {},
        }
        match &self.container_name {
            Option::Some(container) => {
                s.append(" :: ");
                s.append(container.as_str());
            },
            Option::None => {},
        }
        s
    }
}

} // verus!
