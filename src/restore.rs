//! Decisions of the restore pipeline: each directory below the root is a
//! bucket, created on demand, and its tree is walked depth-first, each file
//! uploaded under the key that its path below the bucket directory gives.
//!
//! The caller performs each action (a bucket creation, a directory listing
//! or a batch of uploads) and hands its result back to the matching method.
use vstd::prelude::*;
use crate::backup::{failed_items, failure_views, record_failures, texts, Failure};
use crate::keymap::{child_key, child_object_key, join_path, key_path, path_key, prefix_dir, lemma_child_key_reads_path};
use crate::backup::bucket_dir;

verus! {

/// One entry of a directory listing.
pub struct DirEntry {
    pub name: String,
    pub is_dir: bool,
}

/// A directory still to be walked: `path` on disk, whose files go to
/// `bucket` under keys that start with `prefix`.
pub struct DirTask {
    pub bucket: String,
    pub prefix: String,
    pub path: String,
}

/// An entry still to be handled by the walk: a directory to list (whose
/// entries get keys that start with `key`) or a file to upload under `key`,
/// at `path` on disk, for `bucket`; `dir` is the directory it was listed in.
pub struct WorkItem {
    pub is_dir: bool,
    pub dir: String,
    pub bucket: String,
    pub key: String,
    pub path: String,
}

/// One file upload: the file at `path` stored as object `key` of `bucket`.
pub struct Upload {
    pub bucket: String,
    pub key: String,
    pub path: String,
}

/// What came of creating a bucket.
pub enum CreateOutcome {
    Created,
    AlreadyExists,
    Failed(String),
}

/// What the caller does next.
pub enum RestoreAction {
    /// Create the named bucket.
    CreateBucket(String),
    /// List the directory at this path.
    ListDir(String),
    /// Upload each file, in any order or all at once; then report one outcome
    /// per upload, in order.
    Upload(Vec<Upload>),
    /// The run is over, with this result.
    Finish(Result<(), String>),
}

/// The state of one restore run.
pub struct RestoreRun {
    /// Local directory that holds one subdirectory per bucket.
    pub root: String,
    /// The platform path separator.
    pub sep: char,
    /// Buckets to restore, in order.
    pub buckets: Vec<String>,
    /// Index of the bucket being restored.
    pub next: usize,
    /// Entries of the current bucket still to be handled; the last is next.
    pub stack: Vec<WorkItem>,
    /// The directory whose listing is awaited.
    pub current: Option<DirTask>,
    /// Local paths of the files of the uploads launched last.
    pub batch: Vec<String>,
    /// Bucket creations, directory listings and uploads that failed: the
    /// local path of the bucket directory, directory or file, and the error.
    pub failures: Vec<Failure>,
}

/// A bucket, a key or key prefix, and a local path.
pub type Triple = (Seq<char>, Seq<char>, Seq<char>);

/// The bucket, key prefix and path of a pending directory.
pub open spec fn task_view(t: DirTask) -> Triple {
    (t.bucket@, t.prefix@, t.path@)
}

/// The bucket, key and path of a work item.
pub open spec fn item_triple(w: WorkItem) -> Triple {
    (w.bucket@, w.key@, w.path@)
}

/// Whether a work item is a directory, with its bucket, key and path, and
/// the directory it was listed in.
pub open spec fn item_view(w: WorkItem) -> (bool, Triple, Seq<char>) {
    (w.is_dir, item_triple(w), w.dir@)
}

/// The views of work items, in order.
pub open spec fn items(s: Seq<WorkItem>) -> Seq<(bool, Triple, Seq<char>)> {
    s.map_values(|w: WorkItem| item_view(w))
}

/// The bucket, key and path of an upload.
pub open spec fn upload_view(u: Upload) -> Triple {
    (u.bucket@, u.key@, u.path@)
}

/// The views of uploads, in order.
pub open spec fn uploads(s: Seq<Upload>) -> Seq<Triple> {
    s.map_values(|u: Upload| upload_view(u))
}

/// The entry `e` of the directory of task `t`: its bucket, its key and its path.
pub open spec fn entry_of(t: DirTask, e: DirEntry, sep: char) -> Triple {
    (t.bucket@, child_key(t.prefix@, e.name@), t.path@ + seq![sep] + e.name@)
}

/// The work items of the listing `es` of the directory of task `t`, last
/// entry first: pushed on the stack in this order, they leave the stack in
/// listing order, and the entries of a subdirectory, pushed later, leave it
/// before the entries listed after that subdirectory.
pub open spec fn listing_items(t: DirTask, es: Seq<DirEntry>, sep: char) -> Seq<(bool, Triple, Seq<char>)>
    decreases es.len(),
{
    if es.len() == 0 {
        seq![]
    } else {
        listing_items(t, es.drop_first(), sep).push((es[0].is_dir, entry_of(t, es[0], sep), t.path@))
    }
}

/// The names of the directories among `es`, in order.
pub open spec fn dir_names(es: Seq<DirEntry>) -> Seq<Seq<char>>
    decreases es.len(),
{
    if es.len() == 0 {
        seq![]
    } else if es.last().is_dir {
        dir_names(es.drop_last()).push(es.last().name@)
    } else {
        dir_names(es.drop_last())
    }
}

/// A pending directory (bucket, key prefix, path) lies at the local
/// directory of its key prefix below its bucket's directory under `root`,
/// and its prefix holds no platform separator (unless that is `/`).
pub open spec fn at_prefix(t: Triple, root: Seq<char>, sep: char) -> bool {
    &&& t.2 == prefix_dir(bucket_dir(root, t.0, sep), t.1, sep)
    &&& sep == '/' || !t.1.contains(sep)
}

/// A name that the walk maps faithfully: not empty, and holding neither `/`
/// nor the platform separator.
pub open spec fn plain_name(name: Seq<char>, sep: char) -> bool {
    name.len() > 0 && !name.contains('/') && !name.contains(sep)
}

/// The walk keeps every directory at the path of its key prefix, and gives
/// every entry the key that its path below the bucket directory reads as: a
/// bucket's own directory starts at the empty prefix, and each entry of a
/// directory at its prefix, directory or file, lies at the path of its key.
/// By induction over the depth, each file of the tree, however deep, is
/// uploaded under the key of its path relative to the bucket directory.
pub proof fn lemma_walk_keys_follow_paths(t: DirTask, e: DirEntry, root: Seq<char>, sep: char)
    requires
        at_prefix(task_view(t), root, sep),
        plain_name(e.name@, sep),
    ensures
        at_prefix((t.bucket@, Seq::<char>::empty(), root + seq![sep] + t.bucket@), root, sep),
        at_prefix(entry_of(t, e, sep), root, sep),
        entry_of(t, e, sep).2 == key_path(bucket_dir(root, t.bucket@, sep), entry_of(t, e, sep).1, sep),
        path_key(bucket_dir(root, t.bucket@, sep), entry_of(t, e, sep).2, sep) == entry_of(t, e, sep).1,
{
    let dir = bucket_dir(root, t.bucket@, sep);
    lemma_child_key_reads_path(dir, t.prefix@, e.name@, sep);
    assert(child_key(t.prefix@, e.name@).len() > 0);
}

/// `a` ends the run with success.
pub open spec fn done_ok(a: RestoreAction) -> bool {
    a matches RestoreAction::Finish(Ok(_))
}

impl RestoreRun {
    /// The bucket index stays within the bucket list.
    pub open spec fn wf(&self) -> bool {
        self.next <= self.buckets@.len()
    }

    /// A bucket is being restored.
    pub open spec fn in_bucket(&self) -> bool {
        self.next < self.buckets@.len()
    }

    /// The action that restores the bucket at `next`, or ends the run with
    /// success when none is left.
    pub open spec fn starts_bucket(&self, a: RestoreAction) -> bool {
        if self.in_bucket() {
            a matches RestoreAction::CreateBucket(b) && b@ == self.buckets@[self.next as int]@
        } else {
            done_ok(a)
        }
    }

    /// From a state whose pending work is `stack` and whose bucket index is
    /// `next`, `self` and `a` follow. When nothing is pending, the next bucket
    /// is started. When a directory is next, it is listed. When a file is
    /// next, that file and the files under it on the stack that were listed
    /// in the same directory, up to the first item that is not such a file,
    /// are uploaded as one batch, in the order they leave the stack.
    pub open spec fn proceeds(&self, stack: Seq<WorkItem>, next: usize, a: RestoreAction) -> bool {
        let n = stack.len();
        if n == 0 {
            &&& self.next == next + 1
            &&& self.stack@.len() == 0
            &&& self.current is None
            &&& self.batch@.len() == 0
            &&& self.starts_bucket(a)
        } else if stack.last().is_dir {
            &&& self.next == next
            &&& self.stack@ == stack.drop_last()
            &&& (self.current matches Some(t) && task_view(t) == item_triple(stack.last()))
            &&& self.batch@.len() == 0
            &&& (a matches RestoreAction::ListDir(p) && p@ == stack.last().path@)
        } else {
            &&& self.next == next
            &&& self.current is None
            &&& a matches RestoreAction::Upload(us) && {
                let k = us@.len() as int;
                &&& 0 < k <= n
                &&& self.stack@ == stack.subrange(0, n - k)
                &&& (n == k || stack[n - k - 1].is_dir || stack[n - k - 1].dir@ != stack.last().dir@)
                &&& forall|i: int| n - k <= i < n ==> !(#[trigger] stack[i]).is_dir && stack[i].dir@ == stack.last().dir@
                &&& forall|j: int| #![trigger us@[j]] 0 <= j < k ==> upload_view(us@[j]) == item_triple(stack[n - 1 - j])
                &&& texts(self.batch@) == uploads(us@).map_values(|u: Triple| u.2)
            }
        }
    }

    /// Same root, separator and buckets as `o`.
    pub open spec fn same_run(&self, o: RestoreRun) -> bool {
        &&& self.root == o.root
        &&& self.sep == o.sep
        &&& self.buckets == o.buckets
    }

    fn start_bucket(&self) -> (a: RestoreAction)
        requires
            self.wf(),
        ensures
            self.starts_bucket(a),
    {
        if self.next < self.buckets.len() {
            RestoreAction::CreateBucket(self.buckets[self.next].clone())
        } else {
            RestoreAction::Finish(Ok(()))
        }
    }

    fn proceed(&mut self) -> (a: RestoreAction)
        requires
            old(self).wf(),
            old(self).in_bucket(),
        ensures
            final(self).wf(),
            final(self).same_run(*old(self)),
            final(self).failures == old(self).failures,
            final(self).proceeds(old(self).stack@, old(self).next, a),
    {
        let n = self.stack.len();
        if n == 0 {
            let count = self.buckets.len();
            assert(self.next < count);
            self.next = self.next + 1;
            self.current = None;
            self.batch = Vec::new();
            self.start_bucket()
        } else if self.stack[n - 1].is_dir {
            let w = self.stack.pop().unwrap();
            let a = RestoreAction::ListDir(w.path.clone());
            self.current = Some(DirTask { bucket: w.bucket, prefix: w.key, path: w.path });
            self.batch = Vec::new();
            a
        } else {
            let ghost s = self.stack@;
            let from = self.stack[n - 1].dir.clone();
            let mut us: Vec<Upload> = Vec::new();
            let mut paths: Vec<String> = Vec::new();
            loop
                invariant
                    n == s.len(),
                    n > 0,
                    !s[n - 1].is_dir,
                    from@ == s[n - 1].dir@,
                    us@.len() <= n,
                    self.stack@ == s.subrange(0, n - us@.len()),
                    forall|i: int| n - us@.len() <= i < n ==> !(#[trigger] s[i]).is_dir && s[i].dir@ == s[n - 1].dir@,
                    forall|j: int| #![trigger us@[j]] 0 <= j < us@.len() ==> upload_view(us@[j]) == item_triple(s[n - 1 - j]),
                    texts(paths@) == uploads(us@).map_values(|u: Triple| u.2),
                    self.wf(),
                    self.in_bucket(),
                    self.same_run(*old(self)),
                    self.next == old(self).next,
                    self.failures == old(self).failures,
                ensures
                    0 < us@.len() <= n,
                    self.stack@ == s.subrange(0, n - us@.len()),
                    n == us@.len() || s[n - us@.len() - 1].is_dir || s[n - us@.len() - 1].dir@ != s[n - 1].dir@,
                    forall|i: int| n - us@.len() <= i < n ==> !(#[trigger] s[i]).is_dir && s[i].dir@ == s[n - 1].dir@,
                    forall|j: int| #![trigger us@[j]] 0 <= j < us@.len() ==> upload_view(us@[j]) == item_triple(s[n - 1 - j]),
                    texts(paths@) == uploads(us@).map_values(|u: Triple| u.2),
                    self.wf(),
                    self.in_bucket(),
                    self.same_run(*old(self)),
                    self.next == old(self).next,
                    self.failures == old(self).failures,
                decreases self.stack@.len(),
            {
                let m = self.stack.len();
                if m == 0 || self.stack[m - 1].is_dir || self.stack[m - 1].dir != from {
                    break;
                }
                let ghost before_us = us@;
                let ghost before_paths = paths@;
                let ghost k = us@.len() as int;
                assert(self.stack@[m - 1] == s[n - 1 - k]);
                let w = self.stack.pop().unwrap();
                let ghost wv = item_triple(w);
                assert(w == s[n - 1 - k]);
                paths.push(w.path.clone());
                us.push(Upload { bucket: w.bucket, key: w.key, path: w.path });
                assert(self.stack@ =~= s.subrange(0, n - us@.len()));
                assert(uploads(us@) =~= uploads(before_us).push(wv));
                assert(upload_view(us@[k]) == wv);
                assert forall|j: int| #![trigger us@[j]] 0 <= j < us@.len() implies upload_view(us@[j]) == item_triple(s[n - 1 - j]) by {
                    if j < k {
                        assert(us@[j] == before_us[j]);
                    }
                }
                assert(texts(paths@) =~= texts(before_paths).push(wv.2));
                assert(uploads(us@).map_values(|u: Triple| u.2) =~= uploads(before_us).map_values(
                    |u: Triple| u.2,
                ).push(wv.2));
            }
            self.current = None;
            self.batch = paths;
            RestoreAction::Upload(us)
        }
    }

    /// Starts a restore of the buckets held below `root`; the caller lists
    /// `root` and hands the listing to `root_listed`.
    pub fn start(root: String, sep: char) -> (r: RestoreRun)
        ensures
            r.wf(),
            r.root@ == root@,
            r.sep == sep,
            r.buckets@.len() == 0,
            r.stack@.len() == 0,
            r.current is None,
            r.batch@.len() == 0,
            r.failures@.len() == 0,
    {
        RestoreRun {
            root,
            sep,
            buckets: Vec::new(),
            next: 0,
            stack: Vec::new(),
            current: None,
            batch: Vec::new(),
            failures: Vec::new(),
        }
    }

    /// Takes the listing of the root: an error ends the run with that error;
    /// otherwise each directory in it is a bucket, restored in order.
    pub fn root_listed(&mut self, listed: Result<Vec<DirEntry>, String>) -> (a: RestoreAction)
        requires
            old(self).wf(),
        ensures
            final(self).wf(),
            final(self).root == old(self).root,
            final(self).sep == old(self).sep,
            final(self).failures == old(self).failures,
            final(self).stack == old(self).stack,
            final(self).current == old(self).current,
            final(self).batch == old(self).batch,
            match listed {
                Err(e) => a matches RestoreAction::Finish(Err(m)) && m@ == e@
                    && final(self).buckets == old(self).buckets,
                Ok(es) => texts(final(self).buckets@) == dir_names(es@) && final(self).next == 0
                    && final(self).starts_bucket(a),
            },
    {
        match listed {
            Err(e) => RestoreAction::Finish(Err(e)),
            Ok(es) => {
                let mut names: Vec<String> = Vec::new();
                let mut i: usize = 0;
                while i < es.len()
                    invariant
                        i <= es@.len(),
                        texts(names@) == dir_names(es@.take(i as int)),
                    decreases es@.len() - i,
                {
                    assert(es@.take(i + 1).drop_last() =~= es@.take(i as int));
                    let ghost before = names@;
                    if es[i].is_dir {
                        names.push(es[i].name.clone());
                        assert(texts(names@) =~= texts(before).push(es@[i as int].name@));
                    }
                    i = i + 1;
                }
                assert(es@.take(i as int) =~= es@);
                self.buckets = names;
                self.next = 0;
                self.start_bucket()
            },
        }
    }

    /// Takes the outcome of creating the current bucket. Created or already
    /// there: its directory is walked from the empty key prefix. Any other
    /// failure is recorded and the bucket is skipped.
    pub fn bucket_created(&mut self, outcome: CreateOutcome) -> (a: RestoreAction)
        requires
            old(self).wf(),
            old(self).in_bucket(),
            old(self).stack@.len() == 0,
        ensures
            final(self).wf(),
            final(self).same_run(*old(self)),
            match outcome {
                CreateOutcome::Failed(e) => {
                    &&& failure_views(final(self).failures@) == failure_views(old(self).failures@).push(
                        (old(self).root@ + seq![old(self).sep] + old(self).buckets@[old(self).next as int]@, e@),
                    )
                    &&& final(self).proceeds(old(self).stack@, old(self).next, a)
                },
                _ => {
                    let b = old(self).buckets@[old(self).next as int]@;
                    let dir = old(self).root@ + seq![old(self).sep] + b;
                    &&& final(self).failures == old(self).failures
                    &&& final(self).batch == old(self).batch
                    &&& final(self).next == old(self).next
                    &&& final(self).stack@.len() == 0
                    &&& final(self).current matches Some(t) && task_view(t) == (b, Seq::<char>::empty(), dir)
                    &&& a matches RestoreAction::ListDir(p) && p@ == dir
                },
            },
    {
        match outcome {
            CreateOutcome::Failed(e) => {
                let ghost before = self.failures@;
                let dir = join_path(self.root.as_str(), self.buckets[self.next].as_str(), self.sep);
                let f = Failure { subject: dir, error: e };
                self.failures.push(f);
                assert(failure_views(self.failures@) =~= failure_views(before).push((f.subject@, f.error@)));
                self.proceed()
            },
            _ => {
                let b = &self.buckets[self.next];
                let path = join_path(self.root.as_str(), b.as_str(), self.sep);
                let t = DirTask { bucket: b.clone(), prefix: String::new(), path: path.clone() };
                self.current = Some(t);
                RestoreAction::ListDir(path)
            },
        }
    }

    /// Takes the listing of the current directory. A listing error is
    /// recorded and the walk goes on. Otherwise the entries are put on the
    /// stack so that they are handled in listing order, each directory's
    /// whole subtree before the entries listed after it, each file under the
    /// key of its path below the bucket directory; the walk then goes on.
    pub fn dir_listed(&mut self, listed: Result<Vec<DirEntry>, String>) -> (a: RestoreAction)
        requires
            old(self).wf(),
            old(self).in_bucket(),
            old(self).current is Some,
        ensures
            final(self).wf(),
            final(self).same_run(*old(self)),
            ({
                let t = old(self).current->0;
                match listed {
                    Err(e) => {
                        &&& failure_views(final(self).failures@) == failure_views(old(self).failures@).push((t.path@, e@))
                        &&& final(self).proceeds(old(self).stack@, old(self).next, a)
                    },
                    Ok(es) => {
                        &&& final(self).failures == old(self).failures
                        &&& exists|s: Seq<WorkItem>| items(s) == items(old(self).stack@) + listing_items(t, es@, old(self).sep)
                            && #[trigger] final(self).proceeds(s, old(self).next, a)
                    },
                }
            }),
    {
        let t = self.current.take().unwrap();
        match listed {
            Err(e) => {
                let ghost before = self.failures@;
                let f = Failure { subject: t.path.clone(), error: e };
                self.failures.push(f);
                assert(failure_views(self.failures@) =~= failure_views(before).push((f.subject@, f.error@)));
                self.proceed()
            },
            Ok(es) => {
                let ghost start = items(self.stack@);
                let mut i: usize = es.len();
                while i > 0
                    invariant
                        i <= es@.len(),
                        self.wf(),
                        self.in_bucket(),
                        self.same_run(*old(self)),
                        self.next == old(self).next,
                        self.failures == old(self).failures,
                        items(self.stack@) == start + listing_items(t, es@.subrange(i as int, es@.len() as int), self.sep),
                    decreases i,
                {
                    i = i - 1;
                    let e = &es[i];
                    let key = child_object_key(t.prefix.as_str(), e.name.as_str());
                    let path = join_path(t.path.as_str(), e.name.as_str(), self.sep);
                    let ghost before = self.stack@;
                    let w = WorkItem { is_dir: e.is_dir, dir: t.path.clone(), bucket: t.bucket.clone(), key, path };
                    self.stack.push(w);
                    let ghost rest = es@.subrange(i as int, es@.len() as int);
                    assert(rest.drop_first() =~= es@.subrange(i + 1, es@.len() as int));
                    assert(rest[0] == es@[i as int]);
                    assert(item_view(w) == (es@[i as int].is_dir, entry_of(t, es@[i as int], self.sep), t.path@));
                    assert(items(self.stack@) =~= items(before).push(item_view(w)));
                }
                assert(es@.subrange(0, es@.len() as int) =~= es@);
                let ghost s = self.stack@;
                let a = self.proceed();
                assert(self.proceeds(s, old(self).next, a));
                a
            },
        }
    }

    /// Takes the outcome of each upload of the last batch, in order. Each
    /// failed upload is recorded with its file's path and error, and never
    /// ends the run; the walk goes on.
    pub fn uploads_done(&mut self, outcomes: Vec<Result<(), String>>) -> (a: RestoreAction)
        requires
            old(self).wf(),
            old(self).in_bucket(),
            outcomes@.len() == old(self).batch@.len(),
        ensures
            final(self).wf(),
            final(self).same_run(*old(self)),
            failure_views(final(self).failures@) == failure_views(old(self).failures@) + failed_items(old(self).batch@, outcomes@),
            final(self).proceeds(old(self).stack@, old(self).next, a),
            !(a matches RestoreAction::Finish(Err(_))),
    {
        record_failures(&mut self.failures, &self.batch, &outcomes);
        self.batch = Vec::new();
        self.proceed()
    }
}

} // verus!
