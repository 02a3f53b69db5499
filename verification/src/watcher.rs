//! File-watch ingestion: batched change messages, drain-and-apply, and
//! the translation of the VFS delta into database change records.
//!
//! The background task that observes the filesystem lives in the
//! application shell; it enqueues messages here.  Draining applies them
//! to the VFS in arrival order — for one path the last content wins —
//! and hands the caller the delta for the semantic database.

use vstd::prelude::*;
use vstd::string::StringExecFns;
use vstd::utf8::decode_utf8;
use vstd::utf8::valid_utf8;

use crate::errors::EngineError;
use crate::vfs::contents_view;
use crate::vfs::model_set;
use crate::vfs::ChangedFile;
use crate::vfs::VfsModel;
use crate::vfs::FileContents;
use crate::vfs::FileId;
use crate::vfs::Vfs;

verus! {

/// One message from the filesystem observer.
pub enum WatchMessage {
    /// Initial-scan progress report; carries no file data.
    Progress {
        /// Files scanned so far.
        done: usize,
        /// Files expected in total.
        total: usize,
    },
    /// Files seen by the initial scan.
    Loaded {
        /// Each path with its bytes, or `None` for an unreadable file.
        files: Vec<(String, Option<Vec<u8>>)>,
    },
    /// Files changed after the initial scan.
    Changed {
        /// Each path with its bytes, or `None` for a deleted file.
        files: Vec<(String, Option<Vec<u8>>)>,
    },
}

/// One record of the delta handed to the semantic database.
pub struct DbChange {
    /// The file the change is about.
    pub file_id: FileId,
    /// The new text, or `None` when the file is gone or not UTF-8.
    pub new_text: Option<String>,
}

/// What the watcher observes for a workspace root.
pub struct WatchConfig {
    /// Directory watched recursively.
    pub root: String,
    /// File extensions of interest.
    pub extensions: Vec<String>,
    /// Subtrees left out: build output and version-control metadata.
    pub exclude: Vec<String>,
}

/// Relies on std's String::from_utf8: it succeeds exactly on valid UTF-8
/// and returns its decoding.
#[verifier::external_body]
fn utf8_to_string(bytes: &Vec<u8>) -> (r: Option<String>)
    ensures
        valid_utf8(bytes@) ==> r is Some,
        valid_utf8(bytes@) ==> r->Some_0@ == decode_utf8(bytes@),
        !valid_utf8(bytes@) ==> r is None,
{
    String::from_utf8(bytes.clone()).ok()
}

/// The view of an optional text payload.
pub open spec fn opt_text_view(t: Option<String>) -> Option<Seq<char>> {
    match t {
        Option::Some(s) => Option::Some(s@),
        Option::None => Option::None,
    }
}

/// The text the database is to see for a file id in the given VFS: its
/// decoded bytes when present and valid UTF-8, nothing otherwise.
pub open spec fn db_text_of(v: Vfs, id: FileId) -> Option<Seq<char>> {
    if id.id < v.states().len() {
        match v.states()[id.id as int] {
            FileContents::Present(b) => if valid_utf8(b@) {
                Option::Some(decode_utf8(b@))
            } else {
                Option::None
            },
            FileContents::Deleted => Option::None,
        }
    } else {
        Option::None
    }
}

/// The file entries one message carries; a progress report carries none.
pub open spec fn msg_files(msg: WatchMessage) -> Seq<(String, Option<Vec<u8>>)> {
    match msg {
        WatchMessage::Progress { .. } => Seq::empty(),
        WatchMessage::Loaded { files } => files@,
        WatchMessage::Changed { files } => files@,
    }
}

/// The VFS model after one message's entries are recorded in order, each
/// per `model_set`.
pub open spec fn model_after_files(m: VfsModel, files: Seq<(String, Option<Vec<u8>>)>) -> VfsModel
    decreases files.len(),
{
    if files.len() == 0 {
        m
    } else {
        model_after_files(model_set(m, files[0].0@, contents_view(files[0].1)), files.drop_first())
    }
}

/// The VFS model after a message queue is applied in arrival order.
pub open spec fn model_after_msgs(m: VfsModel, msgs: Seq<WatchMessage>) -> VfsModel
    decreases msgs.len(),
{
    if msgs.len() == 0 {
        m
    } else {
        model_after_msgs(model_after_files(m, msg_files(msgs[0])), msgs.drop_first())
    }
}

/// Translate a drained delta into database change records against the
/// current VFS state: one record per changed file, text per `db_text_of`.
pub fn translate_changes(v: &Vfs, changes: &Vec<ChangedFile>) -> (r: Vec<DbChange>)
    ensures
        r@.len() == changes@.len(),
        forall|k: int|
            0 <= k < r@.len() ==> (#[trigger] r@[k]).file_id == changes@[k].file_id
                && opt_text_view(r@[k].new_text) == db_text_of(*v, changes@[k].file_id),
{
    let mut out: Vec<DbChange> = Vec::new();
    let n = changes.len();
    let mut k: usize = 0;
    while k < n
        invariant
            k <= n,
            n == changes@.len(),
            out@.len() == k,
            forall|j: int|
                0 <= j < k ==> (#[trigger] out@[j]).file_id == changes@[j].file_id
                    && opt_text_view(out@[j].new_text) == db_text_of(*v, changes@[j].file_id),
        decreases n - k,
    {
        let id = changes[k].file_id;
        let new_text = match v.content(id) {
            Option::Some(b) => utf8_to_string(b),
            Option::None => Option::None,
        };
        out.push(DbChange { file_id: id, new_text });
        k += 1;
    }
    out
}

/// File watching state: the in-memory VFS plus the queue of messages the
/// observer task has delivered and a drain has not yet consumed.
pub struct FileWatcher {
    vfs: Vfs,
    pending: Vec<WatchMessage>,
}

impl FileWatcher {
    /// The mirrored file system.
    pub closed spec fn vfs_spec(self) -> Vfs {
        self.vfs
    }

    /// Messages delivered and not yet drained.
    pub closed spec fn pending(self) -> Seq<WatchMessage> {
        self.pending@
    }

    /// The watcher's VFS is well formed.
    pub open spec fn wf(self) -> bool {
        self.vfs_spec().wf()
    }

    /// A fresh watcher over an empty VFS with nothing queued.
    pub fn new() -> (r: FileWatcher)
        ensures
            r.wf(),
            r.pending().len() == 0,
            r.vfs_spec().staged().len() == 0,
            r.vfs_spec().states().len() == 0,
    {
        FileWatcher { vfs: Vfs::new(), pending: Vec::new() }
    }

    /// Take over an already-populated VFS, as the workspace loader hands
    /// one out.
    pub fn with_vfs(vfs: Vfs) -> (r: FileWatcher)
        requires
            vfs.wf(),
        ensures
            r.wf(),
            r.vfs_spec() == vfs,
            r.pending().len() == 0,
    {
        FileWatcher { vfs, pending: Vec::new() }
    }

    /// Queue one observer message for the next drain.
    pub fn enqueue(&mut self, msg: WatchMessage)
        requires
            old(self).wf(),
        ensures
            final(self).wf(),
            final(self).pending() == old(self).pending().push(msg),
            final(self).vfs_spec() == old(self).vfs_spec(),
    {
        self.pending.push(msg);
    }

    /// The watch configuration for a workspace root: its sources and
    /// manifests, leaving out build output and version-control metadata.
    pub fn watch_config(root: String) -> (r: WatchConfig)
        ensures
            r.root@ == root@,
            r.extensions@.len() == 2,
            r.extensions@[0]@ == "rs"@,
            r.extensions@[1]@ == "toml"@,
            r.exclude@.len() == 2,
            r.exclude@[0]@ == root@ + "/target"@,
            r.exclude@[1]@ == root@ + "/.git"@,
    {
        let mut extensions: Vec<String> = Vec::new();
        extensions.push(String::from_str("rs"));
        extensions.push(String::from_str("toml"));
        let mut exclude: Vec<String> = Vec::new();
        exclude.push(root.clone().concat("/target"));
        exclude.push(root.clone().concat("/.git"));
        WatchConfig { root, extensions, exclude }
    }

    /// Drain all pending messages, apply each message's entries to the
    /// VFS in arrival order — every `(path, bytes)` pair per `model_set`,
    /// so for one path the last content wins — and hand back the delta
    /// for the semantic database.  An empty queue leaves the VFS as it
    /// was, so a second drain right after a first one returns no records.
    #[verifier::rlimit(100)]
    #[verifier::spinoff_prover]
    pub fn drain_and_apply_changes(&mut self) -> (r: Vec<DbChange>)
        requires
            old(self).wf(),
        ensures
            final(self).wf(),
            final(self).pending().len() == 0,
            final(self).vfs_spec().staged().len() == 0,
            old(self).pending().len() == 0 ==> final(self).vfs_spec().paths() == old(
                self,
            ).vfs_spec().paths() && final(self).vfs_spec().states() == old(
                self,
            ).vfs_spec().states(),
            old(self).pending().len() == 0 ==> r@.len() == old(self).vfs_spec().staged().len(),
            old(self).pending().len() == 0 && old(self).vfs_spec().staged().len() == 0
                ==> r@.len() == 0,
            ({
                let applied = model_after_msgs(old(self).vfs_spec().model(), old(self).pending());
                &&& final(self).vfs_spec().model().paths == applied.paths
                &&& final(self).vfs_spec().model().states == applied.states
                &&& r@.len() == applied.staged.len()
                &&& forall|k: int|
                    0 <= k < r@.len() ==> (#[trigger] r@[k]).file_id == applied.staged[k].file_id
            }),
            forall|k: int|
                0 <= k < r@.len() ==> opt_text_view((#[trigger] r@[k]).new_text) == db_text_of(
                    final(self).vfs_spec(),
                    r@[k].file_id,
                ),
            forall|k: int|
                0 <= k < r@.len() ==> (#[trigger] r@[k]).file_id.id < final(self).vfs_spec().count(),
    {
        let ghost target = model_after_msgs(old(self).vfs_spec().model(), old(self).pending());
        let mut msgs: Vec<WatchMessage> = Vec::new();
        core::mem::swap(&mut msgs, &mut self.pending);
        while msgs.len() > 0
            invariant
                self.vfs.wf(),
                self.pending@.len() == 0,
                old(self).pending().len() == 0 ==> msgs@.len() == 0 && self.vfs == old(self).vfs_spec(),
                target == model_after_msgs(old(self).vfs_spec().model(), old(self).pending()),
                target == model_after_msgs(self.vfs.model(), msgs@),
            decreases msgs@.len(),
        {
            let ghost old_msgs = msgs@;
            let msg = msgs.remove(0);
            let ghost mv = msg;
            proof {
                assert(old_msgs.drop_first() =~= msgs@);
                assert(target == model_after_msgs(
                    model_after_files(self.vfs.model(), msg_files(mv)),
                    msgs@,
                ));
            }
            match msg {
                WatchMessage::Progress { .. } => {
                    proof {
                        assert(msg_files(mv) =~= Seq::<(String, Option<Vec<u8>>)>::empty());
                    }
                },
                WatchMessage::Loaded { files } | WatchMessage::Changed { files } => {
                    let mut fs = files;
                    proof {
                        assert(msg_files(mv) == fs@);
                    }
                    while fs.len() > 0
                        invariant
                            self.vfs.wf(),
                            self.pending@.len() == 0,
                            target == model_after_msgs(
                                model_after_files(self.vfs.model(), fs@),
                                msgs@,
                            ),
                        decreases fs@.len(),
                    {
                        let ghost old_fs = fs@;
                        let entry = fs.remove(0);
                        let ghost ev = entry;
                        proof {
                            assert(old_fs.drop_first() =~= fs@);
                            assert(model_after_files(self.vfs.model(), old_fs)
                                == model_after_files(
                                model_set(self.vfs.model(), ev.0@, contents_view(ev.1)),
                                fs@,
                            ));
                        }
                        self.vfs.set_file_contents(entry.0, entry.1);
                    }
                },
            }
        }
        proof {
            assert(target == self.vfs.model());
        }
        let changes = self.vfs.take_changes();
        proof {
            assert(self.vfs.model().paths =~= target.paths);
            assert(self.vfs.model().states =~~= target.states);
            assert(changes@ == target.staged);
        }
        translate_changes(&self.vfs, &changes)
    }

    /// The id the VFS knows the path under.
    pub fn get_file_id(&self, path: &String) -> (r: Result<FileId, EngineError>)
        ensures
            r is Ok <==> self.vfs_spec().paths().dom().contains(path@),
            r matches Ok(id) ==> id.id == self.vfs_spec().paths()[path@],
            r is Err ==> r == Result::<FileId, EngineError>::Err(EngineError::FileNotInWorkspace),
    {
        match self.vfs.file_id(path) {
            Option::Some(id) => Result::Ok(id),
            Option::None => Result::Err(EngineError::FileNotInWorkspace),
        }
    }

    /// Whether the id maps to a present, non-tombstoned file.
    pub fn file_exists(&self, id: FileId) -> (r: bool)
        ensures
            r <==> (id.id < self.vfs_spec().states().len() && self.vfs_spec().states()[id.id as int]
                is Present),
    {
        self.vfs.file_exists(id)
    }

    /// The path of a live file id.
    pub fn file_path(&self, id: FileId) -> (r: Option<String>)
        requires
            self.wf(),
        ensures
            r is Some <==> (id.id < self.vfs_spec().count() && !(self.vfs_spec().states()[id.id as int]
                is Deleted)),
            r matches Some(p) ==> self.vfs_spec().paths().dom().contains(p@)
                && self.vfs_spec().paths()[p@] == id.id,
    {
        self.vfs.file_path(id)
    }

    /// The UTF-8 text of a live file, as the database sees it.
    pub fn file_text(&self, id: FileId) -> (r: Option<String>)
        ensures
            opt_text_view(r) == db_text_of(self.vfs_spec(), id),
    {
        match self.vfs.content(id) {
            Option::Some(b) => utf8_to_string(b),
            Option::None => Option::None,
        }
    }

    /// Read access to the VFS.
    pub fn vfs(&self) -> (r: &Vfs)
        ensures
            *r == self.vfs_spec(),
    {
        &self.vfs
    }
}

} // verus!
