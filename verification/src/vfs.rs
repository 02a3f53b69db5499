//! Virtual file system: the authoritative in-memory mirror of workspace
//! contents, with a staged change set.
//!
//! Paths and file ids form a bijection maintained by a two-way map from
//! the `bimap` crate, reached through trusted wrappers.  A file id is
//! issued once per path and never reused; deleting a file tombstones the
//! id instead of retiring it.

use vstd::prelude::*;

verus! {

/// Opaque, stable identity of a file within the engine lifetime.
#[derive(Debug, Clone, Copy, PartialEq, Eq, Structural, Hash)]
pub struct FileId {
    /// Index issued at first introduction.
    pub id: u32,
}

/// What the VFS holds for one file id.
#[derive(Debug, Clone)]
pub enum FileContents {
    /// The file exists with these bytes (not necessarily UTF-8).
    Present(Vec<u8>),
    /// The file was deleted; the id stays as a tombstone.
    Deleted,
}

/// How a staged file differs from the state last handed to the database.
#[derive(Debug, Clone, Copy, PartialEq, Eq, Structural)]
pub enum ChangeKind {
    /// The file is new since the last drain.
    Create,
    /// The file existed and its contents changed.
    Modify,
    /// The file existed and is gone.
    Delete,
}

/// One staged change.
#[derive(Debug, Clone, Copy, PartialEq, Eq, Structural)]
pub struct ChangedFile {
    /// The file the change is about.
    pub file_id: FileId,
    /// The net effect since the last drain.
    pub kind: ChangeKind,
}

/// The two-way map between paths and issued ids.
pub type PathIdMap = bimap::BiMap<String, u32>;

/// The pairs held by the two-way path map: each known path with its id.
pub uninterp spec fn bimap_pairs(m: PathIdMap) -> Map<Seq<char>, u32>;

#[verifier::external_type_specification]
#[verifier::external_body]
#[verifier::reject_recursive_types(L)]
#[verifier::reject_recursive_types(R)]
#[verifier::reject_recursive_types(LS)]
#[verifier::reject_recursive_types(RS)]
pub struct ExBiHashMap<L, R, LS, RS>(bimap::BiHashMap<L, R, LS, RS>);

/// Relies on bimap's BiHashMap::new: the new map holds no pairs.
#[verifier::external_body]
fn bimap_new() -> (r: PathIdMap)
    ensures
        forall|p: Seq<char>| !bimap_pairs(r).dom().contains(p),
{
    bimap::BiMap::new()
}

/// Relies on bimap's BiHashMap::insert: when neither the path nor the id
/// is present, exactly that pair is added (nothing is overwritten).
#[verifier::external_body]
fn bimap_insert_fresh(m: &mut PathIdMap, path: String, id: u32)
    requires
        !bimap_pairs(*old(m)).dom().contains(path@),
        forall|p: Seq<char>|
            bimap_pairs(*old(m)).dom().contains(p) ==> bimap_pairs(*old(m))[p] != id,
    ensures
        bimap_pairs(*final(m)).dom() == bimap_pairs(*old(m)).dom().insert(path@),
        bimap_pairs(*final(m))[path@] == id,
        forall|p: Seq<char>|
            p != path@ && bimap_pairs(*old(m)).dom().contains(p) ==> bimap_pairs(*final(m))[p]
                == bimap_pairs(*old(m))[p],
{
    m.insert(path, id);
}

/// Relies on bimap's BiHashMap::get_by_left: returns the id paired with
/// the path, and nothing when the path is unknown.
#[verifier::external_body]
fn bimap_get_by_left(m: &PathIdMap, path: &String) -> (r: Option<u32>)
    ensures
        (match r {
            Option::Some(id) => bimap_pairs(*m).dom().contains(path@) && bimap_pairs(*m)[path@]
                == id,
            Option::None => !bimap_pairs(*m).dom().contains(path@),
        }),
{
    m.get_by_left(path).copied()
}

/// Relies on bimap's BiHashMap::get_by_right: returns the path paired
/// with the id, and nothing when no pair carries the id.
#[verifier::external_body]
fn bimap_get_by_right(m: &PathIdMap, id: u32) -> (r: Option<String>)
    ensures
        (match r {
            Option::Some(p) => bimap_pairs(*m).dom().contains(p@) && bimap_pairs(*m)[p@] == id,
            Option::None => forall|p: Seq<char>|
                bimap_pairs(*m).dom().contains(p) ==> bimap_pairs(*m)[p] != id,
        }),
{
    m.get_by_right(&id).cloned()
}

/// Compare two byte buffers.
fn bytes_eq(a: &Vec<u8>, b: &Vec<u8>) -> (r: bool)
    ensures
        r <==> a@ == b@,
{
    if a.len() != b.len() {
        return false;
    }
    let n = a.len();
    let mut i: usize = 0;
    while i < n
        invariant
            n == a@.len(),
            n == b@.len(),
            i <= n,
            forall|k: int| 0 <= k < i ==> a@[k] == b@[k],
        decreases n - i,
    {
        if a[i] != b[i] {
            return false;
        }
        i += 1;
    }
    proof {
        assert(a@ =~= b@);
    }
    true
}

/// The staged state a payload asks for, compared with what is recorded.
pub open spec fn state_matches(s: FileContents, c: Option<Seq<u8>>) -> bool {
    match s {
        FileContents::Present(b) => c matches Option::Some(nb) && b@ == nb,
        FileContents::Deleted => c is None,
    }
}

/// The view of an optional byte payload.
pub open spec fn contents_view(c: Option<Vec<u8>>) -> Option<Seq<u8>> {
    match c {
        Option::Some(b) => Option::Some(b@),
        Option::None => Option::None,
    }
}

/// The net effect of two staged changes in sequence: a creation absorbs
/// later modifications, and a file deleted and recreated within one batch
/// nets out as modified.
pub open spec fn merge_kind(first: ChangeKind, second: ChangeKind) -> ChangeKind {
    match (first, second) {
        (ChangeKind::Create, ChangeKind::Modify) => ChangeKind::Create,
        (ChangeKind::Delete, ChangeKind::Create) => ChangeKind::Modify,
        (_, k) => k,
    }
}

/// The bytes a content record holds, or nothing for a tombstone.
pub open spec fn state_view(fc: FileContents) -> Option<Seq<u8>> {
    match fc {
        FileContents::Present(b) => Option::Some(b@),
        FileContents::Deleted => Option::None,
    }
}

/// The VFS as mathematics: the path map, the contents per id, and the
/// staged change set.
#[verifier::ext_equal]
pub struct VfsModel {
    /// Path-to-id pairs.
    pub paths: Map<Seq<char>, u32>,
    /// Contents per issued id.
    pub states: Seq<Option<Seq<u8>>>,
    /// Staged change records, oldest first.
    pub staged: Seq<ChangedFile>,
}

/// Merge a change for `id` into the staged set: the first record for the
/// id absorbs it per `merge_kind`, and an id without one gets a record.
pub open spec fn model_stage(staged: Seq<ChangedFile>, id: FileId, kind: ChangeKind) -> Seq<
    ChangedFile,
>
    decreases staged.len(),
{
    if staged.len() == 0 {
        seq![ChangedFile { file_id: id, kind }]
    } else if staged[0].file_id == id {
        seq![
            ChangedFile { file_id: id, kind: merge_kind(staged[0].kind, kind) },
        ] + staged.drop_first()
    } else {
        seq![staged[0]] + model_stage(staged.drop_first(), id, kind)
    }
}

/// What recording contents for a path does to the VFS: an unknown path
/// bringing bytes is issued the next id (unless the id space is
/// exhausted), an unknown path being deleted is ignored, a payload equal
/// to the current state changes nothing, and anything else updates the
/// contents and stages the change.
pub open spec fn model_set(m: VfsModel, path: Seq<char>, contents: Option<Seq<u8>>) -> VfsModel {
    if !m.paths.dom().contains(path) {
        match contents {
            Option::None => m,
            Option::Some(b) => {
                if m.states.len() < 0xFFFF_FFFF {
                    VfsModel {
                        paths: m.paths.insert(path, m.states.len() as u32),
                        states: m.states.push(Option::Some(b)),
                        staged: m.staged.push(
                            ChangedFile {
                                file_id: FileId { id: m.states.len() as u32 },
                                kind: ChangeKind::Create,
                            },
                        ),
                    }
                } else {
                    m
                }
            },
        }
    } else {
        let id = m.paths[path] as int;
        if 0 <= id < m.states.len() && m.states[id] == contents {
            m
        } else {
            let kind = (match (m.states[id], contents) {
                (Option::None, Option::Some(_)) => ChangeKind::Create,
                (Option::Some(_), Option::Some(_)) => ChangeKind::Modify,
                (_, Option::None) => ChangeKind::Delete,
            });
            VfsModel {
                paths: m.paths,
                states: m.states.update(id, contents),
                staged: model_stage(m.staged, FileId { id: m.paths[path] }, kind),
            }
        }
    }
}

/// Merging into the first record for an id rewrites exactly that record.
proof fn lemma_model_stage_found(staged: Seq<ChangedFile>, id: FileId, kind: ChangeKind, k: int)
    requires
        0 <= k < staged.len(),
        staged[k].file_id == id,
        forall|j: int| 0 <= j < k ==> (#[trigger] staged[j]).file_id != id,
    ensures
        model_stage(staged, id, kind) == staged.update(
            k,
            ChangedFile { file_id: id, kind: merge_kind(staged[k].kind, kind) },
        ),
    decreases k,
{
    if k == 0 {
        assert(model_stage(staged, id, kind) =~= staged.update(
            0,
            ChangedFile { file_id: id, kind: merge_kind(staged[0].kind, kind) },
        ));
    } else {
        assert(staged.drop_first()[k - 1].file_id == id);
        assert(forall|j: int|
            0 <= j < k - 1 ==> (#[trigger] staged.drop_first()[j]).file_id != id);
        lemma_model_stage_found(staged.drop_first(), id, kind, k - 1);
        assert(model_stage(staged, id, kind) =~= staged.update(
            k,
            ChangedFile { file_id: id, kind: merge_kind(staged[k].kind, kind) },
        ));
    }
}

/// Merging a change for an id with no record appends one.
proof fn lemma_model_stage_absent(staged: Seq<ChangedFile>, id: FileId, kind: ChangeKind)
    requires
        forall|j: int| 0 <= j < staged.len() ==> (#[trigger] staged[j]).file_id != id,
    ensures
        model_stage(staged, id, kind) == staged.push(ChangedFile { file_id: id, kind }),
    decreases staged.len(),
{
    if staged.len() == 0 {
        assert(model_stage(staged, id, kind) =~= staged.push(ChangedFile { file_id: id, kind }));
    } else {
        lemma_model_stage_absent(staged.drop_first(), id, kind);
        assert(model_stage(staged, id, kind) =~= staged.push(ChangedFile { file_id: id, kind }));
    }
}

/// In-memory mirror of on-disk workspace contents.
pub struct Vfs {
    path_map: PathIdMap,
    files: Vec<FileContents>,
    staged: Vec<ChangedFile>,
}

impl Vfs {
    /// The path-to-id pairs currently known.
    pub closed spec fn paths(self) -> Map<Seq<char>, u32> {
        bimap_pairs(self.path_map)
    }

    /// Contents per file id.
    pub closed spec fn states(self) -> Seq<FileContents> {
        self.files@
    }

    /// The staged change set, oldest first.
    pub closed spec fn staged(self) -> Seq<ChangedFile> {
        self.staged@
    }

    /// The VFS as a mathematical model.
    pub open spec fn model(self) -> VfsModel {
        VfsModel {
            paths: self.paths(),
            states: Seq::new(self.states().len(), |i: int| state_view(self.states()[i])),
            staged: self.staged(),
        }
    }

    /// Number of ids issued so far.
    pub open spec fn count(self) -> int {
        self.states().len() as int
    }

    /// Some known path carries this id.
    pub open spec fn has_path_for(self, id: int) -> bool {
        exists|p: Seq<char>|
            self.paths().dom().contains(p) && (#[trigger] self.paths()[p]) == id
    }

    /// The path map and the content store agree: every path maps to an
    /// issued id, distinct paths map to distinct ids, every issued id
    /// carries a path, and staged records name issued ids, one per file.
    pub open spec fn wf(self) -> bool {
        &&& forall|p: Seq<char>|
            self.paths().dom().contains(p) ==> (#[trigger] self.paths()[p]) < self.count()
        &&& forall|p1: Seq<char>, p2: Seq<char>|
            self.paths().dom().contains(p1) && self.paths().dom().contains(p2) && (
            #[trigger] self.paths()[p1]) == #[trigger] self.paths()[p2] ==> p1 == p2
        &&& forall|id: int| 0 <= id < self.count() ==> #[trigger] self.has_path_for(id)
        &&& self.count() <= 0xFFFF_FFFF
        &&& forall|k: int|
            0 <= k < self.staged().len() ==> (#[trigger] self.staged()[k]).file_id.id
                < self.count()
        &&& forall|k1: int, k2: int|
            0 <= k1 < k2 < self.staged().len() ==> (#[trigger] self.staged()[k1]).file_id != (
            #[trigger] self.staged()[k2]).file_id
    }

    /// An empty VFS: no paths, no contents, nothing staged.
    pub fn new() -> (r: Vfs)
        ensures
            r.wf(),
            r.paths() == Map::<Seq<char>, u32>::empty(),
            r.states() == Seq::<FileContents>::empty(),
            r.staged() == Seq::<ChangedFile>::empty(),
    {
        let files: Vec<FileContents> = Vec::new();
        let staged: Vec<ChangedFile> = Vec::new();
        proof {
            assert(files@ =~= Seq::<FileContents>::empty());
            assert(staged@ =~= Seq::<ChangedFile>::empty());
        }
        Vfs { path_map: bimap_new(), files, staged }
    }

    /// Number of ids issued so far.
    pub fn file_count(&self) -> (r: usize)
        ensures
            r as int == self.count(),
    {
        self.files.len()
    }

    /// The id issued for a path, also for tombstoned files.
    pub fn file_id(&self, path: &String) -> (r: Option<FileId>)
        ensures
            r is Some <==> self.paths().dom().contains(path@),
            r matches Some(id) ==> id.id == self.paths()[path@],
    {
        match bimap_get_by_left(&self.path_map, path) {
            Option::Some(id) => Option::Some(FileId { id }),
            Option::None => Option::None,
        }
    }

    /// The path of a live file id; `None` for tombstoned or unissued ids.
    pub fn file_path(&self, id: FileId) -> (r: Option<String>)
        requires
            self.wf(),
        ensures
            r is Some <==> (id.id < self.count() && !(self.states()[id.id as int] is Deleted)),
            r matches Some(p) ==> self.paths().dom().contains(p@) && self.paths()[p@] == id.id,
    {
        if (id.id as usize) < self.files.len() {
            let deleted = match &self.files[id.id as usize] {
                FileContents::Present(_) => false,
                FileContents::Deleted => true,
            };
            if deleted {
                return Option::None;
            }
            let found = bimap_get_by_right(&self.path_map, id.id);
            proof {
                assert(self.has_path_for(id.id as int));
                if found is None {
                    let p = choose|p: Seq<char>|
                        self.paths().dom().contains(p) && (#[trigger] self.paths()[p])
                            == id.id as int;
                    assert(self.paths()[p] != id.id);
                }
            }
            found
        } else {
            Option::None
        }
    }

    /// Whether the id maps to a present, non-tombstoned file.
    pub fn file_exists(&self, id: FileId) -> (r: bool)
        ensures
            r <==> (id.id < self.states().len() && self.states()[id.id as int] is Present),
    {
        if (id.id as usize) < self.files.len() {
            match &self.files[id.id as usize] {
                FileContents::Present(_) => true,
                FileContents::Deleted => false,
            }
        } else {
            false
        }
    }

    /// The bytes stored for a live file id.
    pub fn content(&self, id: FileId) -> (r: Option<&Vec<u8>>)
        ensures
            r is Some <==> (id.id < self.states().len() && self.states()[id.id as int] is Present),
            r matches Some(b) ==> self.states()[id.id as int] == FileContents::Present(*b),
    {
        if (id.id as usize) < self.files.len() {
            match &self.files[id.id as usize] {
                FileContents::Present(b) => Option::Some(b),
                FileContents::Deleted => Option::None,
            }
        } else {
            Option::None
        }
    }

    /// Index of the staged record for an id, if one exists.
    fn find_staged(&self, id: FileId) -> (r: Option<usize>)
        ensures
            r matches Some(k) ==> k < self.staged().len() && self.staged()[k as int].file_id == id
                && forall|j: int| 0 <= j < k ==> (#[trigger] self.staged()[j]).file_id != id,
            r is None ==> forall|k: int|
                0 <= k < self.staged().len() ==> (#[trigger] self.staged()[k]).file_id != id,
    {
        let n = self.staged.len();
        let mut k: usize = 0;
        while k < n
            invariant
                k <= n,
                n == self.staged().len(),
                forall|j: int| 0 <= j < k ==> (#[trigger] self.staged()[j]).file_id != id,
            decreases n - k,
        {
            if self.staged[k].file_id.id == id.id {
                return Option::Some(k);
            }
            k += 1;
        }
        Option::None
    }

    /// Record a change for an already-issued id: merge it into the staged
    /// record for that id, or open one.
    fn stage(&mut self, id: FileId, kind: ChangeKind)
        requires
            old(self).wf(),
            id.id < old(self).count(),
        ensures
            final(self).wf(),
            final(self).paths() == old(self).paths(),
            final(self).states() == old(self).states(),
            final(self).staged() == model_stage(old(self).staged(), id, kind),
    {
        let found = self.find_staged(id);
        match found {
            Option::Some(k) => {
                let merged = match (self.staged[k].kind, kind) {
                    (ChangeKind::Create, ChangeKind::Modify) => ChangeKind::Create,
                    (ChangeKind::Delete, ChangeKind::Create) => ChangeKind::Modify,
                    (_, other) => other,
                };
                proof {
                    assert(merged == merge_kind(self.staged()[k as int].kind, kind));
                }
                self.staged[k] = ChangedFile { file_id: id, kind: merged };
                proof {
                    assert(self.staged() == old(self).staged().update(
                        k as int,
                        ChangedFile {
                            file_id: id,
                            kind: merge_kind(old(self).staged()[k as int].kind, kind),
                        },
                    ));
                    lemma_model_stage_found(old(self).staged(), id, kind, k as int);
                    assert forall|j: int| 0 <= j < self.staged().len() implies (
                    #[trigger] self.staged()[j]).file_id == old(self).staged()[j].file_id by {
                        if j == k {
                            assert(old(self).staged()[j].file_id == id);
                        }
                    }
                    assert forall|j: int| 0 <= j < self.staged().len() implies (
                    #[trigger] self.staged()[j]).file_id.id < self.count() by {
                        assert(old(self).staged()[j].file_id.id < old(self).count());
                    }
                    assert forall|k1: int, k2: int|
                        0 <= k1 < k2 < self.staged().len() implies (
                    #[trigger] self.staged()[k1]).file_id != (
                    #[trigger] self.staged()[k2]).file_id by {
                        assert(old(self).staged()[k1].file_id != old(self).staged()[k2].file_id);
                    }
                    lemma_wf_transfer(*old(self), *self);
                }
            },
            Option::None => {
                self.staged.push(ChangedFile { file_id: id, kind });
                proof {
                    lemma_model_stage_absent(old(self).staged(), id, kind);
                    assert forall|j: int| 0 <= j < self.staged().len() implies (
                    #[trigger] self.staged()[j]).file_id.id < self.count() by {
                        if j < old(self).staged().len() {
                            assert(old(self).staged()[j].file_id.id < old(self).count());
                        }
                    }
                    assert forall|k1: int, k2: int|
                        0 <= k1 < k2 < self.staged().len() implies (
                    #[trigger] self.staged()[k1]).file_id != (
                    #[trigger] self.staged()[k2]).file_id by {
                        if k2 < old(self).staged().len() {
                            assert(old(self).staged()[k1].file_id != old(self).staged()[k2].file_id);
                        } else {
                            assert(old(self).staged()[k1].file_id != id);
                        }
                    }
                    lemma_wf_transfer(*old(self), *self);
                }
            },
        }
    }

    /// Record new contents (or a deletion) for a path, exactly as
    /// `model_set` describes: a payload equal to the current state
    /// changes nothing, an unknown path bringing contents is issued the
    /// next id while ids remain, a deletion of an unknown path is
    /// ignored, and anything else updates the contents and stages the
    /// change.
    #[verifier::rlimit(100)]
    #[verifier::spinoff_prover]
    pub fn set_file_contents(&mut self, path: String, contents: Option<Vec<u8>>)
        requires
            old(self).wf(),
        ensures
            final(self).wf(),
            final(self).model() == model_set(
                old(self).model(),
                path@,
                contents_view(contents),
            ),
    {
        let known = bimap_get_by_left(&self.path_map, &path);
        match known {
            Option::None => {
                match contents {
                    Option::None => {
                        proof {
                            assert(bimap_pairs(self.path_map) == self.paths());
                            assert(self.model() =~~= model_set(
                                old(self).model(),
                                path@,
                                contents_view(contents),
                            ));
                        }
                    },
                    Option::Some(b) => {
                        if self.files.len() >= 0xFFFF_FFFF {
                            proof {
                                assert(bimap_pairs(self.path_map) == self.paths());
                                assert(old(self).model().states.len() >= 0xFFFF_FFFF);
                                assert(self.model() =~~= model_set(
                                    old(self).model(),
                                    path@,
                                    contents_view(Option::Some(b)),
                                ));
                            }
                        } else {
                            let id = self.files.len() as u32;
                            proof {
                                assert(bimap_pairs(self.path_map) == self.paths());
                                assert forall|p: Seq<char>|
                                    self.paths().dom().contains(p) implies (
                                #[trigger] self.paths()[p]) != id by {
                                    assert(self.paths()[p] < self.count());
                                }
                            }
                            bimap_insert_fresh(&mut self.path_map, path, id);
                            self.files.push(FileContents::Present(b));
                            self.staged.push(
                                ChangedFile { file_id: FileId { id }, kind: ChangeKind::Create },
                            );
                            proof {
                                assert(self.paths().dom() == old(self).paths().dom().insert(
                                    path@,
                                ));
                                assert(self.paths() =~= old(self).paths().insert(
                                    path@,
                                    old(self).count() as u32,
                                ));
                                assert forall|p: Seq<char>|
                                    self.paths().dom().contains(p) implies (
                                #[trigger] self.paths()[p]) < self.count() by {
                                    if p != path@ {
                                        assert(old(self).paths()[p] < old(self).count());
                                    }
                                }
                                assert forall|p1: Seq<char>, p2: Seq<char>|
                                    self.paths().dom().contains(p1) && self.paths().dom().contains(
                                    p2,
                                ) && (#[trigger] self.paths()[p1]) == #[trigger] self.paths()[p2]
                                    implies p1 == p2 by {
                                    if p1 != path@ && p2 != path@ {
                                        assert(old(self).paths()[p1] == old(self).paths()[p2]);
                                    } else if p1 == path@ && p2 != path@ {
                                        assert(old(self).paths()[p2] < old(self).count());
                                    } else if p1 != path@ && p2 == path@ {
                                        assert(old(self).paths()[p1] < old(self).count());
                                    }
                                }
                                assert forall|id2: int|
                                    0 <= id2 < self.count() implies #[trigger] self.has_path_for(
                                    id2,
                                ) by {
                                    if id2 < old(self).count() {
                                        assert(old(self).has_path_for(id2));
                                        let p = choose|p: Seq<char>|
                                            old(self).paths().dom().contains(p) && (#[trigger] old(
                                                self,
                                            ).paths()[p]) == id2;
                                        assert(self.paths().dom().contains(p) && self.paths()[p]
                                            == id2);
                                    } else {
                                        assert(self.paths().dom().contains(path@)
                                            && self.paths()[path@] == id2);
                                    }
                                }
                                assert forall|j: int|
                                    0 <= j < self.staged().len() implies (
                                #[trigger] self.staged()[j]).file_id.id < self.count() by {
                                    if j < old(self).staged().len() {
                                        assert(old(self).staged()[j].file_id.id < old(
                                            self,
                                        ).count());
                                    }
                                }
                                assert forall|k1: int, k2: int|
                                    0 <= k1 < k2 < self.staged().len() implies (
                                #[trigger] self.staged()[k1]).file_id != (
                                #[trigger] self.staged()[k2]).file_id by {
                                    if k2 < old(self).staged().len() {
                                        assert(old(self).staged()[k1].file_id != old(
                                            self,
                                        ).staged()[k2].file_id);
                                    } else {
                                        assert(old(self).staged()[k1].file_id.id < old(
                                            self,
                                        ).count());
                                    }
                                }
                                assert(self.model() =~~= model_set(
                                    old(self).model(),
                                    path@,
                                    contents_view(Option::Some(b)),
                                ));
                            }
                        }
                    },
                }
            },
            Option::Some(id) => {
                proof {
                    assert(bimap_pairs(self.path_map) == self.paths());
                    assert(self.paths()[path@] < self.count());
                }
                let same = match (&self.files[id as usize], &contents) {
                    (FileContents::Present(b), Option::Some(nb)) => bytes_eq(b, nb),
                    (FileContents::Deleted, Option::None) => true,
                    _ => false,
                };
                if !same {
                    let kind = match (&self.files[id as usize], &contents) {
                        (FileContents::Deleted, Option::Some(_)) => ChangeKind::Create,
                        (FileContents::Present(_), Option::Some(_)) => ChangeKind::Modify,
                        (_, Option::None) => ChangeKind::Delete,
                    };
                    let state = match contents {
                        Option::Some(b) => FileContents::Present(b),
                        Option::None => FileContents::Deleted,
                    };
                    let ghost cv = contents_view(contents);
                    self.files[id as usize] = state;
                    proof {
                        lemma_wf_transfer(*old(self), *self);
                    }
                    self.stage(FileId { id }, kind);
                    proof {
                        let m = old(self).model();
                        assert(!(m.states[m.paths[path@] as int] == cv));
                        assert(self.staged() == model_stage(
                            m.staged,
                            FileId { id: m.paths[path@] },
                            kind,
                        ));
                        assert(self.model().states =~~= m.states.update(
                            m.paths[path@] as int,
                            cv,
                        ));
                        assert(self.model() =~~= model_set(m, path@, cv));
                    }
                } else {
                    proof {
                        let m = old(self).model();
                        assert(m.states[m.paths[path@] as int] == contents_view(contents));
                        assert(self.model() =~~= model_set(m, path@, contents_view(contents)));
                    }
                }
            },
        }
    }

    /// Drain the staged set: the caller takes ownership of the delta, and
    /// the staged set is empty afterwards, so a second drain with no
    /// intervening mutation hands back nothing.
    pub fn take_changes(&mut self) -> (r: Vec<ChangedFile>)
        requires
            old(self).wf(),
        ensures
            final(self).wf(),
            r@ == old(self).staged(),
            final(self).staged() == Seq::<ChangedFile>::empty(),
            final(self).paths() == old(self).paths(),
            final(self).states() == old(self).states(),
    {
        let mut out: Vec<ChangedFile> = Vec::new();
        core::mem::swap(&mut out, &mut self.staged);
        proof {
            assert(self.staged() =~= Seq::<ChangedFile>::empty());
            lemma_wf_transfer(*old(self), *self);
        }
        out
    }
}

/// Well-formedness carries over to a state with the same paths and file
/// count whose staged records still name issued ids, one record per file.
proof fn lemma_wf_transfer(a: Vfs, b: Vfs)
    requires
        a.wf(),
        b.paths() == a.paths(),
        b.count() == a.count(),
        forall|k: int|
            0 <= k < b.staged().len() ==> (#[trigger] b.staged()[k]).file_id.id < b.count(),
        forall|k1: int, k2: int|
            0 <= k1 < k2 < b.staged().len() ==> (#[trigger] b.staged()[k1]).file_id != (
            #[trigger] b.staged()[k2]).file_id,
    ensures
        b.wf(),
{
    assert forall|p: Seq<char>|
        b.paths().dom().contains(p) implies (#[trigger] b.paths()[p]) < b.count() by {
        assert(a.paths()[p] < a.count());
    }
    assert forall|p1: Seq<char>, p2: Seq<char>|
        b.paths().dom().contains(p1) && b.paths().dom().contains(p2) && (
        #[trigger] b.paths()[p1]) == #[trigger] b.paths()[p2] implies p1 == p2 by {
        assert(a.paths()[p1] == b.paths()[p1]);
        assert(a.paths()[p2] == b.paths()[p2]);
    }
    assert forall|id2: int| 0 <= id2 < b.count() implies #[trigger] b.has_path_for(id2) by {
        assert(a.has_path_for(id2));
        let p = choose|p: Seq<char>|
            a.paths().dom().contains(p) && (#[trigger] a.paths()[p]) == id2;
        assert(b.paths().dom().contains(p) && b.paths()[p] == id2);
    }
}

/// FileId bijection: two known paths carrying the same id are the same
/// path, so looking a known path's id back up yields that path alone.
pub proof fn lemma_file_id_bijection(v: Vfs, p1: Seq<char>, p2: Seq<char>)
    requires
        v.wf(),
        v.paths().dom().contains(p1),
        v.paths().dom().contains(p2),
        v.paths()[p1] == v.paths()[p2],
    ensures
        p1 == p2,
{
}

} // verus!
