//! Decisions of the backup pipeline: which buckets are exported, which
//! objects are fetched to which local paths, and how the run ends.
//!
//! The caller performs each action (a listing or a batch of transfers) and
//! hands its result back to the matching method.
use vstd::prelude::*;
use crate::keymap::{join_path, key_to_path, key_path, path_key, swap_char, lemma_key_path_round_trip};

verus! {

/// One object download: the object `key` of `bucket`, written to `path`.
pub struct Transfer {
    pub bucket: String,
    pub key: String,
    pub path: String,
}

/// What the caller does next.
pub enum BackupAction {
    /// List every bucket of the store.
    ListBuckets,
    /// List the objects of the named bucket.
    ListObjects(String),
    /// Fetch each object and write it to its path, all at once; then report
    /// one outcome per transfer, in order.
    Fetch(Vec<Transfer>),
    /// The run is over, with this result.
    Finish(Result<(), String>),
}

/// The state of one backup run.
pub struct BackupRun {
    /// Local directory that receives one subdirectory per bucket.
    pub root: String,
    /// The platform path separator.
    pub sep: char,
    /// Buckets to export, in order.
    pub buckets: Vec<String>,
    /// Index of the bucket being exported.
    pub next: usize,
    /// Local paths of the transfers launched for the current bucket.
    pub batch: Vec<String>,
    /// Transfers that failed so far: the local path and the error.
    pub failures: Vec<Failure>,
}

/// A unit of work that failed: what it was about (a local path) and why.
pub struct Failure {
    pub subject: String,
    pub error: String,
}

/// The bucket filter that asks for every bucket: empty or `null`.
pub open spec fn is_all_buckets(filter: Seq<char>) -> bool {
    filter.len() == 0 || filter == seq!['n', 'u', 'l', 'l']
}

/// The local directory of `bucket` under `root`.
pub open spec fn bucket_dir(root: Seq<char>, bucket: Seq<char>, sep: char) -> Seq<char> {
    root + seq![sep] + bucket
}

/// The text of each string, in order.
pub open spec fn texts(v: Seq<String>) -> Seq<Seq<char>> {
    v.map_values(|s: String| s@)
}

/// `t` downloads object `key` of `bucket` to its path under `root`.
pub open spec fn is_transfer(t: Transfer, root: Seq<char>, sep: char, bucket: Seq<char>, key: Seq<char>) -> bool {
    &&& t.bucket@ == bucket
    &&& t.key@ == key
    &&& t.path@ == key_path(bucket_dir(root, bucket, sep), key, sep)
}

/// `ts` holds one transfer for each key of `keys`, in the same order.
pub open spec fn plans(ts: Seq<Transfer>, root: Seq<char>, sep: char, bucket: Seq<char>, keys: Seq<String>) -> bool {
    &&& ts.len() == keys.len()
    &&& forall|i: int| 0 <= i < ts.len() ==> is_transfer(#[trigger] ts[i], root, sep, bucket, keys[i]@)
}

/// The subject and error text of a failure.
pub open spec fn failure_view(f: Failure) -> (Seq<char>, Seq<char>) {
    (f.subject@, f.error@)
}

/// The views of failures, in order.
pub open spec fn failure_views(v: Seq<Failure>) -> Seq<(Seq<char>, Seq<char>)> {
    v.map_values(|f: Failure| failure_view(f))
}

/// Each subject whose outcome is an error, with that error, in order.
pub open spec fn failed_items(subjects: Seq<String>, outcomes: Seq<Result<(), String>>) -> Seq<(Seq<char>, Seq<char>)>
    decreases subjects.len(),
{
    if subjects.len() == 0 || outcomes.len() == 0 {
        seq![]
    } else {
        let rest = failed_items(subjects.drop_last(), outcomes.drop_last());
        match outcomes.last() {
            Err(e) => rest.push((subjects.last()@, e@)),
            Ok(_) => rest,
        }
    }
}

/// Appends to `failures` each subject whose outcome is an error, with that
/// error, in order.
pub fn record_failures(failures: &mut Vec<Failure>, subjects: &Vec<String>, outcomes: &Vec<Result<(), String>>)
    requires
        outcomes@.len() == subjects@.len(),
    ensures
        failure_views(final(failures)@) == failure_views(old(failures)@) + failed_items(subjects@, outcomes@),
{
    let mut i: usize = 0;
    let ghost start = failure_views(failures@);
    while i < outcomes.len()
        invariant
            i <= outcomes@.len(),
            outcomes@.len() == subjects@.len(),
            failure_views(failures@) == start + failed_items(subjects@.take(i as int), outcomes@.take(i as int)),
        decreases outcomes@.len() - i,
    {
        assert(subjects@.take(i + 1).drop_last() =~= subjects@.take(i as int));
        assert(outcomes@.take(i + 1).drop_last() =~= outcomes@.take(i as int));
        assert(outcomes@.take(i + 1).last() == outcomes@[i as int]);
        assert(subjects@.take(i + 1).last() == subjects@[i as int]);
        let ghost before = failures@;
        match &outcomes[i] {
            Err(e) => {
                let f = Failure { subject: subjects[i].clone(), error: e.clone() };
                failures.push(f);
                assert(failure_views(failures@) =~= failure_views(before).push(failure_view(f)));
            },
            Ok(_) => {},
        }
        i = i + 1;
        assert(failure_views(failures@) =~= start + failed_items(subjects@.take(i as int), outcomes@.take(i as int)));
    }
    assert(subjects@.take(i as int) =~= subjects@);
    assert(outcomes@.take(i as int) =~= outcomes@);
}

/// `a` ends the run with the error `e`.
pub open spec fn fails_with(a: BackupAction, e: Seq<char>) -> bool {
    a matches BackupAction::Finish(Err(m)) && m@ == e
}

/// `a` ends the run with success.
pub open spec fn succeeds(a: BackupAction) -> bool {
    a matches BackupAction::Finish(Ok(_))
}

/// `a` lists the objects of `bucket`.
pub open spec fn lists(a: BackupAction, bucket: Seq<char>) -> bool {
    a matches BackupAction::ListObjects(b) && b@ == bucket
}

impl BackupRun {
    /// The bucket index stays within the bucket list.
    pub open spec fn wf(&self) -> bool {
        self.next <= self.buckets@.len()
    }

    /// A bucket is being exported.
    pub open spec fn in_bucket(&self) -> bool {
        self.next < self.buckets@.len()
    }

    /// The action that exports the bucket at `next`, or ends the run with
    /// success when none is left.
    pub open spec fn resumes(&self, a: BackupAction) -> bool {
        if self.in_bucket() {
            lists(a, self.buckets@[self.next as int]@)
        } else {
            succeeds(a)
        }
    }

    fn resume(&self) -> (a: BackupAction)
        requires
            self.wf(),
        ensures
            self.resumes(a),
    {
        if self.next < self.buckets.len() {
            BackupAction::ListObjects(self.buckets[self.next].clone())
        } else {
            BackupAction::Finish(Ok(()))
        }
    }

    /// Moves on from the current bucket to the next one.
    fn advance(&mut self) -> (a: BackupAction)
        requires
            old(self).wf(),
            old(self).in_bucket(),
        ensures
            final(self).wf(),
            final(self).root == old(self).root,
            final(self).sep == old(self).sep,
            final(self).buckets == old(self).buckets,
            final(self).batch == old(self).batch,
            final(self).failures == old(self).failures,
            final(self).next == old(self).next + 1,
            final(self).resumes(a),
    {
        let count = self.buckets.len();
        assert(self.next < count);
        self.next = self.next + 1;
        self.resume()
    }

    /// Starts a backup of the buckets that `filter` names into `root`: every
    /// bucket when the filter is empty or `null`, else the one named.
    pub fn start(root: String, filter: String, sep: char) -> (r: (BackupRun, BackupAction))
        ensures
            r.0.wf(),
            r.0.root@ == root@,
            r.0.sep == sep,
            r.0.next == 0,
            r.0.batch@.len() == 0,
            r.0.failures@.len() == 0,
            is_all_buckets(filter@) ==> r.0.buckets@.len() == 0 && r.1 is ListBuckets,
            !is_all_buckets(filter@) ==> texts(r.0.buckets@) == seq![filter@] && lists(r.1, filter@),
    {
        let all = is_null_or_empty(filter.as_str());
        let mut run = BackupRun {
            root,
            sep,
            buckets: Vec::new(),
            next: 0,
            batch: Vec::new(),
            failures: Vec::new(),
        };
        if all {
            (run, BackupAction::ListBuckets)
        } else {
            let a = BackupAction::ListObjects(filter.clone());
            run.buckets.push(filter);
            assert(texts(run.buckets@) =~= seq![filter@]);
            (run, a)
        }
    }

    /// Takes the result of listing every bucket: a listing error ends the
    /// run with that error; otherwise the listed buckets are exported in order.
    pub fn buckets_listed(&mut self, listed: Result<Vec<String>, String>) -> (a: BackupAction)
        requires
            old(self).wf(),
        ensures
            final(self).wf(),
            final(self).root == old(self).root,
            final(self).sep == old(self).sep,
            final(self).failures == old(self).failures,
            match listed {
                Err(e) => fails_with(a, e@) && final(self).buckets == old(self).buckets
                    && final(self).next == old(self).next,
                Ok(names) => final(self).buckets@ == names@ && final(self).next == 0
                    && final(self).resumes(a),
            },
    {
        match listed {
            Err(e) => BackupAction::Finish(Err(e)),
            Ok(names) => {
                self.buckets = names;
                self.next = 0;
                self.resume()
            },
        }
    }

    /// Takes the object listing of the current bucket. A listing error ends
    /// the run with that error. Otherwise every object is fetched to its path
    /// below the bucket's directory; a bucket without objects is done at once.
    pub fn objects_listed(&mut self, listed: Result<Vec<String>, String>) -> (a: BackupAction)
        requires
            old(self).wf(),
            old(self).in_bucket(),
        ensures
            final(self).wf(),
            final(self).root == old(self).root,
            final(self).sep == old(self).sep,
            final(self).buckets == old(self).buckets,
            final(self).failures == old(self).failures,
            match listed {
                Err(e) => fails_with(a, e@) && final(self).next == old(self).next,
                Ok(keys) => if keys@.len() == 0 {
                    final(self).next == old(self).next + 1 && final(self).resumes(a)
                } else {
                    &&& final(self).next == old(self).next
                    &&& final(self).batch@.len() == keys@.len()
                    &&& forall|i: int| 0 <= i < keys@.len() ==> #[trigger] final(self).batch@[i]@ == key_path(
                        bucket_dir(old(self).root@, old(self).buckets@[old(self).next as int]@, old(self).sep),
                        keys@[i]@,
                        old(self).sep,
                    )
                    &&& a matches BackupAction::Fetch(ts) && plans(
                        ts@,
                        old(self).root@,
                        old(self).sep,
                        old(self).buckets@[old(self).next as int]@,
                        keys@,
                    )
                },
            },
    {
        match listed {
            Err(e) => BackupAction::Finish(Err(e)),
            Ok(keys) => {
                if keys.len() == 0 {
                    self.advance()
                } else {
                    let (ts, paths) = self.plan(&keys);
                    self.batch = paths;
                    BackupAction::Fetch(ts)
                }
            },
        }
    }

    /// One transfer for each key of the current bucket.
    fn plan(&self, keys: &Vec<String>) -> (r: (Vec<Transfer>, Vec<String>))
        requires
            self.wf(),
            self.in_bucket(),
        ensures
            plans(r.0@, self.root@, self.sep, self.buckets@[self.next as int]@, keys@),
            r.1@.len() == r.0@.len(),
            forall|i: int| 0 <= i < r.1@.len() ==> #[trigger] r.1@[i]@ == r.0@[i].path@,
    {
        let bucket = &self.buckets[self.next];
        let dir = join_path(self.root.as_str(), bucket.as_str(), self.sep);
        let mut ts: Vec<Transfer> = Vec::new();
        let mut paths: Vec<String> = Vec::new();
        let mut i: usize = 0;
        while i < keys.len()
            invariant
                i <= keys@.len(),
                dir@ == bucket_dir(self.root@, bucket@, self.sep),
                *bucket == self.buckets@[self.next as int],
                ts@.len() == i,
                paths@.len() == i,
                forall|j: int| 0 <= j < i ==> #[trigger] paths@[j]@ == ts@[j].path@,
                forall|j: int| 0 <= j < i ==> is_transfer(#[trigger] ts@[j], self.root@, self.sep, bucket@, keys@[j]@),
            decreases keys@.len() - i,
        {
            let key = &keys[i];
            let path = key_to_path(dir.as_str(), key.as_str(), self.sep);
            paths.push(path.clone());
            ts.push(Transfer { bucket: bucket.clone(), key: key.clone(), path });
            i = i + 1;
        }
        (ts, paths)
    }

    /// Takes the outcome of each transfer of the current batch, in order.
    /// Each failed transfer is recorded with its local path and error, and
    /// never ends the run; the next bucket is exported, or the run ends with
    /// success.
    pub fn batch_done(&mut self, outcomes: Vec<Result<(), String>>) -> (a: BackupAction)
        requires
            old(self).wf(),
            old(self).in_bucket(),
            outcomes@.len() == old(self).batch@.len(),
        ensures
            final(self).wf(),
            final(self).root == old(self).root,
            final(self).sep == old(self).sep,
            final(self).buckets == old(self).buckets,
            final(self).next == old(self).next + 1,
            final(self).batch@.len() == 0,
            failure_views(final(self).failures@) == failure_views(old(self).failures@) + failed_items(old(self).batch@, outcomes@),
            final(self).resumes(a),
            !(a matches BackupAction::Finish(Err(_))),
    {
        record_failures(&mut self.failures, &self.batch, &outcomes);
        self.batch = Vec::new();
        self.advance()
    }
}

/// Stored payloads, by bucket and then by key.
pub type StoreModel = Map<Seq<char>, Map<Seq<char>, Seq<u8>>>;

/// Local file contents, by path.
pub type FilesModel = Map<Seq<char>, Seq<u8>>;

/// The local files after the transfers `ts` are performed in order on the
/// files `fs`, each writing the whole payload that `store` holds for its
/// bucket and key.
pub open spec fn after_transfers(fs: FilesModel, ts: Seq<Transfer>, store: StoreModel) -> FilesModel
    decreases ts.len(),
{
    if ts.len() == 0 {
        fs
    } else {
        after_transfers(fs, ts.drop_last(), store).insert(ts.last().path@, store[ts.last().bucket@][ts.last().key@])
    }
}

proof fn lemma_after_transfers_union(fs: FilesModel, ts: Seq<Transfer>, store: StoreModel)
    ensures
        after_transfers(fs, ts, store) == fs.union_prefer_right(after_transfers(Map::empty(), ts, store)),
    decreases ts.len(),
{
    if ts.len() > 0 {
        lemma_after_transfers_union(fs, ts.drop_last(), store);
        assert(after_transfers(fs, ts, store) =~= fs.union_prefer_right(after_transfers(Map::empty(), ts, store)));
    }
}

/// Performing the same transfers twice leaves the same files as performing
/// them once: each transfer replaces a file's content, never appends to it.
pub proof fn lemma_backup_idempotent(fs: FilesModel, ts: Seq<Transfer>, store: StoreModel)
    ensures
        after_transfers(after_transfers(fs, ts, store), ts, store) == after_transfers(fs, ts, store),
{
    let w = after_transfers(Map::empty(), ts, store);
    lemma_after_transfers_union(fs, ts, store);
    lemma_after_transfers_union(after_transfers(fs, ts, store), ts, store);
    assert(fs.union_prefer_right(w).union_prefer_right(w) =~= fs.union_prefer_right(w));
}

/// Bucket and key names that the local tree can tell apart: a bucket name
/// holds neither `/` nor the platform separator, a key holds no platform
/// separator (unless that separator is `/`).
pub open spec fn distinct_on_disk(bucket: Seq<char>, key: Seq<char>, sep: char) -> bool {
    &&& !bucket.contains('/')
    &&& !bucket.contains(sep)
    &&& sep == '/' || !key.contains(sep)
}

/// `t` writes object `key` of `bucket` to that object's path under `root`.
pub open spec fn writes_own_path(t: Transfer, root: Seq<char>, sep: char) -> bool {
    t.path@ == key_path(bucket_dir(root, t.bucket@, sep), t.key@, sep)
}

proof fn lemma_split_at_slash(b1: Seq<char>, k1: Seq<char>, b2: Seq<char>, k2: Seq<char>)
    requires
        !b1.contains('/'),
        !b2.contains('/'),
        b1 + seq!['/'] + k1 == b2 + seq!['/'] + k2,
    ensures
        b1 == b2,
        k1 == k2,
{
    let l = b1 + seq!['/'] + k1;
    let r = b2 + seq!['/'] + k2;
    if b1.len() < b2.len() {
        assert(l[b1.len() as int] == '/');
        assert(r[b1.len() as int] == b2[b1.len() as int]);
    } else if b2.len() < b1.len() {
        assert(r[b2.len() as int] == '/');
        assert(l[b2.len() as int] == b1[b2.len() as int]);
    }
    assert(b1 =~= l.subrange(0, b1.len() as int));
    assert(b2 =~= r.subrange(0, b2.len() as int));
    assert(k1 =~= l.subrange(b1.len() as int + 1, l.len() as int));
    assert(k2 =~= r.subrange(b2.len() as int + 1, r.len() as int));
}

/// The path of object `key` of `bucket` is the path of the combined key
/// `bucket/key` under `root`, from which that combined key reads back.
proof fn lemma_object_path_reads_back(root: Seq<char>, bucket: Seq<char>, key: Seq<char>, sep: char)
    requires
        distinct_on_disk(bucket, key, sep),
    ensures
        path_key(root, key_path(bucket_dir(root, bucket, sep), key, sep), sep) == bucket + seq!['/'] + key,
{
    let joined = bucket + seq!['/'] + key;
    assert(swap_char(bucket, '/', sep) =~= bucket);
    assert(swap_char(joined, '/', sep) =~= swap_char(bucket, '/', sep) + seq![sep] + swap_char(key, '/', sep));
    assert(key_path(bucket_dir(root, bucket, sep), key, sep) =~= key_path(root, joined, sep));
    assert(sep == '/' || !joined.contains(sep)) by {
        if sep != '/' && joined.contains(sep) {
            let i = choose|i: int| 0 <= i < joined.len() && joined[i] == sep;
            if i < bucket.len() {
                assert(bucket[i] == sep);
            } else if i > bucket.len() {
                assert(key[i - bucket.len() - 1] == sep);
            }
        }
    }
    lemma_key_path_round_trip(root, joined, sep);
}

/// Once transfers that each write their object's path are performed, from
/// any number of buckets and in any grouping into batches, the path of every
/// transferred object holds exactly that object's payload, provided the
/// bucket and key names can be told apart on disk.
pub proof fn lemma_backup_complete(root: Seq<char>, sep: char, ts: Seq<Transfer>, store: StoreModel, fs: FilesModel)
    requires
        forall|i: int| 0 <= i < ts.len() ==> writes_own_path(#[trigger] ts[i], root, sep),
        forall|i: int| 0 <= i < ts.len() ==> distinct_on_disk((#[trigger] ts[i]).bucket@, ts[i].key@, sep),
    ensures
        forall|i: int| 0 <= i < ts.len() ==> after_transfers(fs, ts, store)[(#[trigger] ts[i]).path@]
            == store[ts[i].bucket@][ts[i].key@],
    decreases ts.len(),
{
    if ts.len() > 0 {
        let init = ts.drop_last();
        lemma_backup_complete(root, sep, init, store, fs);
        let last = ts.last();
        assert forall|i: int| 0 <= i < ts.len() implies after_transfers(fs, ts, store)[(
        #[trigger] ts[i]).path@] == store[ts[i].bucket@][ts[i].key@] by {
            if i < ts.len() - 1 {
                assert(init[i] == ts[i]);
                if ts[i].path@ == last.path@ {
                    assert(writes_own_path(ts[i], root, sep));
                    assert(writes_own_path(ts[ts.len() - 1], root, sep));
                    lemma_object_path_reads_back(root, ts[i].bucket@, ts[i].key@, sep);
                    lemma_object_path_reads_back(root, last.bucket@, last.key@, sep);
                    lemma_split_at_slash(ts[i].bucket@, ts[i].key@, last.bucket@, last.key@);
                }
            }
        }
    }
}

/// Every transfer that the plan of a bucket holds writes its object's path.
pub proof fn lemma_planned_transfers_write_own_path(
    ts: Seq<Transfer>,
    root: Seq<char>,
    sep: char,
    bucket: Seq<char>,
    keys: Seq<String>,
)
    requires
        plans(ts, root, sep, bucket, keys),
    ensures
        forall|i: int| 0 <= i < ts.len() ==> writes_own_path(#[trigger] ts[i], root, sep),
{
    assert forall|i: int| 0 <= i < ts.len() implies writes_own_path(#[trigger] ts[i], root, sep) by {
        assert(is_transfer(ts[i], root, sep, bucket, keys[i]@));
    }
}

/// Whether `filter` asks for every bucket.
pub fn is_null_or_empty(filter: &str) -> (r: bool)
    ensures
        r == is_all_buckets(filter@),
{
    let n = filter.unicode_len();
    if n == 0 {
        return true;
    }
    if n != 4 {
        return false;
    }
    let r = filter.get_char(0) == 'n' && filter.get_char(1) == 'u' && filter.get_char(2) == 'l'
        && filter.get_char(3) == 'l';
    assert(r ==> filter@ =~= seq!['n', 'u', 'l', 'l']);
    r
}

} // verus!
