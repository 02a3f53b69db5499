//! Path logic for project discovery: ancestor chains and the choice of
//! the workspace root.
//!
//! Canonicalization and existence checks are filesystem work and live in
//! the application shell; it hands this module plain path strings and a
//! flag per ancestor saying whether the manifest file exists there.

use vstd::prelude::*;
use vstd::string::StrSliceExecFns;
use vstd::string::StringExecFns;

use crate::errors::EngineError;

verus! {

/// Index of the last path separator in `s`, or -1 when it has none.
pub open spec fn last_slash(s: Seq<char>) -> int
    decreases s.len(),
{
    if s.len() == 0 {
        -1
    } else if s[s.len() - 1] == '/' {
        s.len() - 1
    } else {
        last_slash(s.drop_last())
    }
}

/// The directory containing `s`: the text before its last separator, the
/// root alone when only the leading separator remains, nothing when `s`
/// has no separator or is the root itself.
pub open spec fn spec_parent(s: Seq<char>) -> Option<Seq<char>> {
    let ls = last_slash(s);
    if ls > 0 {
        Option::Some(s.subrange(0, ls))
    } else if ls == 0 && s.len() > 1 {
        Option::Some(seq!['/'])
    } else {
        Option::None
    }
}

/// Where the last separator may sit.
pub proof fn lemma_last_slash_bounds(s: Seq<char>)
    ensures
        -1 <= last_slash(s) < s.len(),
        last_slash(s) >= 0 ==> s[last_slash(s)] == '/',
        forall|t: int| last_slash(s) < t < s.len() ==> s[t] != '/',
    decreases s.len(),
{
    if s.len() == 0 {
    } else if s[s.len() - 1] == '/' {
    } else {
        lemma_last_slash_bounds(s.drop_last());
        assert forall|t: int| last_slash(s) < t < s.len() implies s[t] != '/' by {
            if t < s.len() - 1 {
                assert(s.drop_last()[t] == s[t]);
            }
        }
        if last_slash(s) >= 0 {
            assert(s.drop_last()[last_slash(s.drop_last())] == s[last_slash(s)]);
        }
    }
}

/// A position with a separator at it and none after it is the last one.
pub proof fn lemma_last_slash_at(s: Seq<char>, j: int)
    requires
        0 <= j < s.len(),
        s[j] == '/',
        forall|t: int| j < t < s.len() ==> s[t] != '/',
    ensures
        last_slash(s) == j,
{
    lemma_last_slash_bounds(s);
    if last_slash(s) < j {
        assert(s[j] != '/');
    } else if last_slash(s) > j {
        assert(s[last_slash(s)] == '/');
    }
}

/// Every ancestor directory of a path, nearest first, ending at the root.
pub open spec fn spec_ancestors(s: Seq<char>) -> Seq<Seq<char>>
    decreases s.len(),
{
    match spec_parent(s) {
        Option::None => Seq::empty(),
        Option::Some(d) => {
            if d.len() < s.len() {
                seq![d] + spec_ancestors(d)
            } else {
                seq![d]
            }
        },
    }
}

/// A parent is strictly shorter than its child.
pub proof fn lemma_parent_shorter(s: Seq<char>)
    requires
        spec_parent(s) is Some,
    ensures
        spec_parent(s)->Some_0.len() < s.len(),
{
    lemma_last_slash_bounds(s);
}

/// The directory part of a path.
pub fn parent_dir(path: &str) -> (r: Option<String>)
    ensures
        opt_view(r) == spec_parent(path@),
{
    let n = path.unicode_len();
    let mut j: usize = n;
    while j > 0
        invariant
            j <= n,
            n == path@.len(),
            forall|t: int| j <= t < n ==> path@[t] != '/',
        decreases j,
    {
        if path.get_char(j - 1) == '/' {
            proof {
                lemma_last_slash_at(path@, j - 1);
            }
            if j - 1 > 0 {
                return Option::Some(String::from_str(path.substring_char(0, j - 1)));
            }
            if n > 1 {
                let root = String::from_str("/");
                proof {
                    reveal_strlit("/");
                    assert(root@ =~= seq!['/']);
                }
                return Option::Some(root);
            }
            return Option::None;
        }
        j -= 1;
    }
    proof {
        lemma_last_slash_bounds(path@);
        if last_slash(path@) >= 0 {
            assert(path@[last_slash(path@)] == '/');
        }
    }
    Option::None
}

/// The view of an optional path.
pub open spec fn opt_view(r: Option<String>) -> Option<Seq<char>> {
    match r {
        Option::Some(s) => Option::Some(s@),
        Option::None => Option::None,
    }
}

/// The manifest file that would mark `dir` as a workspace root.
pub fn manifest_path_in(dir: &String) -> (r: String)
    ensures
        r@ == dir@ + "/Cargo.toml"@,
{
    dir.clone().concat("/Cargo.toml")
}

/// The ancestor directories of a path, nearest first.
pub fn ancestor_dirs(path: &str) -> (r: Vec<String>)
    ensures
        r@.len() == spec_ancestors(path@).len(),
        forall|k: int| 0 <= k < r@.len() ==> (#[trigger] r@[k])@ == spec_ancestors(path@)[k],
{
    let mut out: Vec<String> = Vec::new();
    let mut cur: Option<String> = parent_dir(path);
    proof {
        if cur is Some {
            lemma_parent_shorter(path@);
        }
    }
    while cur.is_some()
        invariant
            forall|k: int|
                0 <= k < out@.len() ==> (#[trigger] out@[k])@ == spec_ancestors(path@)[k],
            (match cur {
                Option::Some(d) => {
                    &&& spec_ancestors(path@).len() == out@.len() + 1 + spec_ancestors(d@).len()
                    &&& spec_ancestors(path@)[out@.len() as int] == d@
                    &&& forall|k: int|
                        0 <= k < spec_ancestors(d@).len() ==> spec_ancestors(path@)[out@.len() + 1
                            + k] == #[trigger] spec_ancestors(d@)[k]
                },
                Option::None => out@.len() == spec_ancestors(path@).len(),
            }),
        decreases (match cur {
            Option::Some(d) => d@.len() + 1,
            Option::None => 0,
        }),
    {
        let d = cur.unwrap();
        let ghost dv = d@;
        let ghost old_len = out@.len() as int;
        let next = parent_dir(d.as_str());
        let ghost nv = (match next {
            Option::Some(ref s2) => Option::Some(s2@),
            Option::None => Option::<Seq<char>>::None,
        });
        out.push(d);
        cur = next;
        proof {
            match nv {
                Option::Some(d2v) => {
                    lemma_parent_shorter(dv);
                    assert(spec_ancestors(dv) == seq![d2v] + spec_ancestors(d2v));
                    assert(spec_ancestors(dv)[0] == d2v);
                    assert(spec_ancestors(path@)[old_len + 1] == spec_ancestors(dv)[0]);
                    assert forall|k: int|
                        0 <= k < spec_ancestors(d2v).len() implies spec_ancestors(path@)[old_len + 2
                        + k] == #[trigger] spec_ancestors(d2v)[k] by {
                        assert(spec_ancestors(path@)[old_len + 1 + (k + 1)] == spec_ancestors(
                            dv,
                        )[k + 1]);
                        assert(spec_ancestors(dv)[k + 1] == spec_ancestors(d2v)[k]);
                    }
                },
                Option::None => {
                    assert(spec_ancestors(dv) =~= Seq::<Seq<char>>::empty());
                },
            }
        }
    }
    out
}

/// The workspace root for a path: the nearest ancestor directory that
/// holds the manifest, given one flag per ancestor.  Fails with
/// `NoManifest` exactly when no ancestor holds one.
pub fn discover_project_root(dirs: &Vec<String>, has_manifest: &Vec<bool>) -> (r: Result<
    String,
    EngineError,
>)
    requires
        dirs@.len() == has_manifest@.len(),
    ensures
        r is Ok <==> exists|k: int| 0 <= k < has_manifest@.len() && has_manifest@[k],
        r matches Ok(d) ==> exists|k: int|
            {
                &&& 0 <= k < has_manifest@.len()
                &&& has_manifest@[k]
                &&& d == dirs@[k]
                &&& forall|j: int| 0 <= j < k ==> !has_manifest@[j]
            },
        r is Err ==> r == Result::<String, EngineError>::Err(EngineError::NoManifest),
{
    let n = dirs.len();
    let mut k: usize = 0;
    while k < n
        invariant
            k <= n,
            n == dirs@.len(),
            n == has_manifest@.len(),
            forall|j: int| 0 <= j < k ==> !has_manifest@[j],
        decreases n - k,
    {
        if has_manifest[k] {
            return Result::Ok(dirs[k].clone());
        }
        k += 1;
    }
    Result::Err(EngineError::NoManifest)
}

/// Whether the path is absolute.
pub fn is_absolute_path(path: &str) -> (r: bool)
    ensures
        r <==> (path@.len() > 0 && path@[0] == '/'),
{
    if path.unicode_len() == 0 {
        false
    } else {
        path.get_char(0) == '/'
    }
}

} // verus!
