//! A directory snapshot and the rules by which it is kept up to date.

use crate::text::{
    bytes_precede_irreflexive, bytes_precede_total, bytes_precede_transitive,
    encoding_determines_text, text_before, text_precedes,
};
use std::path::PathBuf;
use std::sync::Arc;
use vstd::prelude::*;
use vstd::utf8::encode_utf8;

verus! {

/// Keys in a strict total order, which is an order of their views.
pub trait SnapshotKey: View + Sized {
    /// Whether one key comes before another.
    spec fn precedes(a: Self::V, b: Self::V) -> bool;

    /// No key comes before itself.
    proof fn irreflexive(a: Self::V)
        ensures
            !Self::precedes(a, a),
    ;

    /// The order is transitive.
    proof fn transitive(a: Self::V, b: Self::V, c: Self::V)
        requires
            Self::precedes(a, b),
            Self::precedes(b, c),
        ensures
            Self::precedes(a, c),
    ;

    /// Of two different keys one comes before the other.
    proof fn total(a: Self::V, b: Self::V)
        ensures
            a == b || Self::precedes(a, b) || Self::precedes(b, a),
    ;

    /// Whether this key comes before another.
    fn before(&self, other: &Self) -> (r: bool)
        ensures
            r == Self::precedes(self@, other@),
    ;
}

impl SnapshotKey for String {
    open spec fn precedes(a: Seq<char>, b: Seq<char>) -> bool {
        text_precedes(a, b)
    }

    proof fn irreflexive(a: Seq<char>) {
        bytes_precede_irreflexive(encode_utf8(a));
    }

    proof fn transitive(a: Seq<char>, b: Seq<char>, c: Seq<char>) {
        bytes_precede_transitive(encode_utf8(a), encode_utf8(b), encode_utf8(c));
    }

    proof fn total(a: Seq<char>, b: Seq<char>) {
        bytes_precede_total(encode_utf8(a), encode_utf8(b));
        if encode_utf8(a) == encode_utf8(b) {
            encoding_determines_text(a, b);
        }
    }

    fn before(&self, other: &String) -> (r: bool) {
        text_before(self.as_str(), other.as_str())
    }
}

/// Values by key, in the order of the keys.
pub type Contents<KV, V> = Seq<(KV, V)>;

/// Whether keys rise from entry to entry, so that none occurs twice.
pub open spec fn in_key_order<K: SnapshotKey, V>(contents: Contents<K::V, V>) -> bool {
    forall|i: int, j: int|
        0 <= i < j < contents.len() ==> K::precedes(
            (#[trigger] contents[i]).0,
            (#[trigger] contents[j]).0,
        )
}

/// Whether contents have a value for a key.
pub open spec fn has_key<KV, V>(contents: Contents<KV, V>, key: KV) -> bool {
    exists|i: int| 0 <= i < contents.len() && (#[trigger] contents[i]).0 == key
}

/// The value for a key.
pub open spec fn lookup<KV, V>(contents: Contents<KV, V>, key: KV) -> Option<V> {
    if has_key(contents, key) {
        Some(
            contents[choose|i: int|
                0 <= i < contents.len() && (#[trigger] contents[i]).0 == key].1,
        )
    } else {
        None
    }
}

/// How many keys at the front come before a key.
pub open spec fn rank<K: SnapshotKey, V>(contents: Contents<K::V, V>, key: K::V) -> nat
    decreases contents.len(),
{
    if contents.len() == 0 || !K::precedes(contents[0].0, key) {
        0
    } else {
        1 + rank::<K, V>(contents.skip(1), key)
    }
}

/// Contents with a value for a key that had none; a key that has a value keeps it.
pub open spec fn with_vacant<K: SnapshotKey, V>(
    contents: Contents<K::V, V>,
    key: K::V,
    value: V,
) -> Contents<K::V, V> {
    if has_key(contents, key) {
        contents
    } else {
        contents.insert(rank::<K, V>(contents, key) as int, (key, value))
    }
}

/// The entry of a key is found under it.
proof fn entry_is_found<K: SnapshotKey, V>(contents: Contents<K::V, V>, i: int)
    requires
        in_key_order::<K, V>(contents),
        0 <= i < contents.len(),
    ensures
        lookup(contents, contents[i].0) == Some(contents[i].1),
{
    let key = contents[i].0;
    assert(has_key(contents, key));
    let p = choose|p: int| 0 <= p < contents.len() && (#[trigger] contents[p]).0 == key;
    K::irreflexive(key);
    if p < i {
        assert(K::precedes(contents[p].0, contents[i].0));
    } else if i < p {
        assert(K::precedes(contents[i].0, contents[p].0));
    }
}

/// The rank of a key parts the keys before it from the others.
proof fn rank_parts<K: SnapshotKey, V>(contents: Contents<K::V, V>, key: K::V)
    requires
        in_key_order::<K, V>(contents),
    ensures
        rank::<K, V>(contents, key) <= contents.len(),
        forall|i: int|
            0 <= i < rank::<K, V>(contents, key) ==> K::precedes((#[trigger] contents[i]).0, key),
        forall|i: int|
            rank::<K, V>(contents, key) <= i < contents.len() ==> !K::precedes(
                (#[trigger] contents[i]).0,
                key,
            ),
    decreases contents.len(),
{
    if contents.len() > 0 {
        if K::precedes(contents[0].0, key) {
            let rest = contents.skip(1);
            assert(forall|i: int| 0 <= i < rest.len() ==> rest[i] == contents[i + 1]);
            rank_parts::<K, V>(rest, key);
            assert forall|i: int| 0 <= i < rank::<K, V>(contents, key) implies K::precedes(
                (#[trigger] contents[i]).0,
                key,
            ) by {
                if i > 0 {
                    assert(K::precedes(rest[i - 1].0, key));
                }
            }
            assert forall|i: int|
                rank::<K, V>(contents, key) <= i < contents.len() implies !K::precedes(
                (#[trigger] contents[i]).0,
                key,
            ) by {
                assert(!K::precedes(rest[i - 1].0, key));
            }
        } else {
            assert forall|i: int| 0 <= i < contents.len() implies !K::precedes(
                (#[trigger] contents[i]).0,
                key,
            ) by {
                if i > 0 && K::precedes(contents[i].0, key) {
                    assert(K::precedes(contents[0].0, contents[i].0));
                    K::transitive(contents[0].0, contents[i].0, key);
                }
            }
        }
    }
}

/// The place where the keys before a key end is its rank.
proof fn rank_found<K: SnapshotKey, V>(contents: Contents<K::V, V>, key: K::V, n: int)
    requires
        in_key_order::<K, V>(contents),
        0 <= n <= contents.len(),
        forall|i: int| 0 <= i < n ==> K::precedes((#[trigger] contents[i]).0, key),
        n < contents.len() ==> !K::precedes(contents[n].0, key),
    ensures
        rank::<K, V>(contents, key) == n,
{
    rank_parts::<K, V>(contents, key);
    let r = rank::<K, V>(contents, key) as int;
    if r < n {
        assert(K::precedes(contents[r].0, key));
    } else if n < r {
        assert(K::precedes(contents[n].0, key));
    }
}

/// Putting in a value for a vacant key keeps the order, makes that value the key's, and changes
/// no other. A key that has a value keeps it.
pub proof fn vacant_insertion<K: SnapshotKey, V>(
    contents: Contents<K::V, V>,
    key: K::V,
    value: V,
)
    requires
        in_key_order::<K, V>(contents),
    ensures
        in_key_order::<K, V>(with_vacant::<K, V>(contents, key, value)),
        lookup(with_vacant::<K, V>(contents, key, value), key) == (match lookup(contents, key) {
            Some(v) => Some(v),
            None => Some(value),
        }),
        forall|other: K::V|
            other != key ==> #[trigger] lookup(with_vacant::<K, V>(contents, key, value), other)
                == lookup(contents, other),
{
    if !has_key(contents, key) {
        rank_parts::<K, V>(contents, key);
        let r = rank::<K, V>(contents, key) as int;
        let after = with_vacant::<K, V>(contents, key, value);
        assert(forall|i: int| 0 <= i < r ==> after[i] == contents[i]);
        assert(after[r] == (key, value));
        assert(forall|i: int| r < i < after.len() ==> after[i] == contents[i - 1]);
        assert forall|i: int, j: int| 0 <= i < j < after.len() implies K::precedes(
            (#[trigger] after[i]).0,
            (#[trigger] after[j]).0,
        ) by {
            if i == r {
                K::total(contents[j - 1].0, key);
                assert(contents[j - 1].0 != key);
            } else if j == r {
                assert(K::precedes(contents[i].0, key));
            } else {
                let p = if i < r {
                    i
                } else {
                    i - 1
                };
                let q = if j < r {
                    j
                } else {
                    j - 1
                };
                assert(K::precedes(contents[p].0, contents[q].0));
            }
        }
        entry_is_found::<K, V>(after, r);
        assert forall|other: K::V| other != key implies #[trigger] lookup(after, other) == lookup(
            contents,
            other,
        ) by {
            if has_key(contents, other) {
                let p = choose|p: int|
                    0 <= p < contents.len() && (#[trigger] contents[p]).0 == other;
                let q = if p < r {
                    p
                } else {
                    p + 1
                };
                assert(after[q].0 == other);
                entry_is_found::<K, V>(contents, p);
                entry_is_found::<K, V>(after, q);
            } else if has_key(after, other) {
                let q = choose|q: int| 0 <= q < after.len() && (#[trigger] after[q]).0 == other;
                let p = if q < r {
                    q
                } else {
                    q - 1
                };
                assert(contents[p].0 == other);
            }
        }
    }
}

/// What entries hold.
pub open spec fn entries_view<K: SnapshotKey, V>(entries: Seq<(K, Arc<V>)>) -> Contents<K::V, V> {
    entries.map_values(|e: (K, Arc<V>)| (e.0@, *e.1))
}

/// How many entries at the front have keys before a key.
fn find_rank<K: SnapshotKey, V>(entries: &Vec<(K, Arc<V>)>, key: &K) -> (r: usize)
    requires
        in_key_order::<K, V>(entries_view::<K, V>(entries@)),
    ensures
        r == rank::<K, V>(entries_view::<K, V>(entries@), key@),
        r <= entries@.len(),
{
    let ghost view = entries_view::<K, V>(entries@);
    let mut i: usize = 0;
    while i < entries.len() && entries[i].0.before(key)
        invariant
            i <= entries@.len(),
            view == entries_view::<K, V>(entries@),
            view.len() == entries@.len(),
            forall|j: int| 0 <= j < i ==> K::precedes((#[trigger] view[j]).0, key@),
        decreases entries.len() - i,
    {
        assert(view[i as int].0 == entries@[i as int].0@);
        i = i + 1;
    }
    proof {
        if i < entries@.len() {
            assert(view[i as int].0 == entries@[i as int].0@);
        }
        rank_found::<K, V>(view, key@, i as int);
    }
    i
}

/// Whether the entry at the rank of a key is the key's.
fn at_rank<K: SnapshotKey, V>(entries: &Vec<(K, Arc<V>)>, key: &K, i: usize) -> (r: bool)
    requires
        in_key_order::<K, V>(entries_view::<K, V>(entries@)),
        i == rank::<K, V>(entries_view::<K, V>(entries@), key@),
    ensures
        r == has_key(entries_view::<K, V>(entries@), key@),
        r ==> i < entries@.len() && entries@[i as int].0@ == key@,
{
    let ghost view = entries_view::<K, V>(entries@);
    proof {
        rank_parts::<K, V>(view, key@);
    }
    if i < entries.len() && !key.before(&entries[i].0) {
        proof {
            assert(view[i as int].0 == entries@[i as int].0@);
            K::total(view[i as int].0, key@);
        }
        true
    } else {
        proof {
            if has_key(view, key@) {
                let p = choose|p: int| 0 <= p < view.len() && (#[trigger] view[p]).0 == key@;
                K::irreflexive(key@);
                assert(i <= p) by {
                    if p < i {
                        assert(K::precedes(view[p].0, key@));
                    }
                }
                if p == i {
                    assert(view[i as int].0 == entries@[i as int].0@);
                } else {
                    assert(K::precedes(view[i as int].0, view[p].0));
                    assert(view[i as int].0 == entries@[i as int].0@);
                }
            }
        }
        false
    }
}

/// Why a scan of the directory fails.
#[derive(Clone, Copy, Debug, PartialEq, Eq, Structural)]
pub enum ScanError {
    /// The directory cannot be walked.
    Walk,
    /// A file cannot be read.
    Read,
    /// A file's content is refused.
    Transform,
}

/// What the walk through the directory comes upon.
#[derive(Debug)]
pub enum WalkEntry<K> {
    /// An entry, whether it is a regular file, and the key that its path gives.
    Found { is_file: bool, key: Option<K> },
    /// An entry that cannot be looked at, and whether it is gone.
    Failed { not_found: bool },
}

/// What becomes of an entry of the walk.
#[derive(Debug)]
pub enum EntryAction<K> {
    Skip,
    /// Read the file; its value is for this key.
    Read(K),
    Fail(ScanError),
}

/// What reading a file and transforming its content comes to.
#[derive(Debug)]
pub enum FileOutcome<V> {
    Value(V),
    /// The file is gone.
    NotFound,
    /// The file cannot be read.
    Unreadable,
    /// The content is refused.
    Rejected,
}

/// What becomes of a file.
#[derive(Clone, Copy, Debug, PartialEq, Eq, Structural)]
pub enum FileAction {
    /// Its value is taken.
    Taken,
    /// It is gone, and left out.
    Skipped,
    /// Its key is taken by an earlier path.
    Duplicate,
    Fail(ScanError),
}

/// What becomes of a file whose key is `key`, after earlier files.
pub open spec fn file_action<KV, V>(
    contents: Contents<KV, V>,
    key: KV,
    outcome: FileOutcome<V>,
) -> FileAction {
    match outcome {
        FileOutcome::NotFound => FileAction::Skipped,
        FileOutcome::Unreadable => FileAction::Fail(ScanError::Read),
        FileOutcome::Rejected => FileAction::Fail(ScanError::Transform),
        FileOutcome::Value(_) => if has_key(contents, key) {
            FileAction::Duplicate
        } else {
            FileAction::Taken
        },
    }
}

/// The contents after a file.
pub open spec fn after_file<K: SnapshotKey, V>(
    contents: Contents<K::V, V>,
    key: K::V,
    outcome: FileOutcome<V>,
) -> Contents<K::V, V> {
    match outcome {
        FileOutcome::Value(value) => with_vacant::<K, V>(contents, key, value),
        _ => contents,
    }
}

/// The snapshot that a running scan has gathered.
#[verifier::reject_recursive_types(K)]
pub struct Scan<K: SnapshotKey, V> {
    entries: Vec<(K, Arc<V>)>,
}

impl<K: SnapshotKey, V> View for Scan<K, V> {
    type V = Contents<K::V, V>;

    closed spec fn view(&self) -> Contents<K::V, V> {
        entries_view::<K, V>(self.entries@)
    }
}

impl<K: SnapshotKey, V> Scan<K, V> {
    #[verifier::type_invariant]
    spec fn valid(self) -> bool {
        in_key_order::<K, V>(entries_view::<K, V>(self.entries@))
    }

    /// A scan that has gathered nothing.
    pub fn new() -> (r: Scan<K, V>)
        ensures
            r@ == Seq::<(K::V, V)>::empty(),
    {
        let r: Scan<K, V> = Scan { entries: Vec::new() };
        assert(r@ =~= Seq::<(K::V, V)>::empty());
        r
    }

    /// What becomes of an entry of the walk: one that is gone, no regular file or without a key
    /// is left out.
    pub fn entry(&self, entry: WalkEntry<K>) -> (r: EntryAction<K>)
        ensures
            r == entry_action(entry),
    {
        match entry {
            WalkEntry::Failed { not_found } => {
                if not_found {
                    EntryAction::Skip
                } else {
                    EntryAction::Fail(ScanError::Walk)
                }
            },
            WalkEntry::Found { is_file, key } => {
                if !is_file {
                    return EntryAction::Skip;
                }
                match key {
                    Some(key) => EntryAction::Read(key),
                    None => EntryAction::Skip,
                }
            },
        }
    }

    /// Takes in a file. Duplicate keys use the first path in traversal order.
    pub fn file(&mut self, key: K, outcome: FileOutcome<V>) -> (r: FileAction)
        ensures
            r == file_action(old(self)@, key@, outcome),
            final(self)@ == after_file::<K, V>(old(self)@, key@, outcome),
    {
        proof {
            use_type_invariant(&*self);
        }
        match outcome {
            FileOutcome::NotFound => FileAction::Skipped,
            FileOutcome::Unreadable => FileAction::Fail(ScanError::Read),
            FileOutcome::Rejected => FileAction::Fail(ScanError::Transform),
            FileOutcome::Value(value) => {
                let i: usize = find_rank(&self.entries, &key);
                if at_rank(&self.entries, &key, i) {
                    return FileAction::Duplicate;
                }
                let ghost before = self.entries@;
                let ghost view = entries_view::<K, V>(before);
                let mut entries: Vec<(K, Arc<V>)> = Vec::new();
                std::mem::swap(&mut entries, &mut self.entries);
                let ghost k = key@;
                entries.insert(i, (key, Arc::new(value)));
                proof {
                    vacant_insertion::<K, V>(view, k, value);
                    assert(entries_view::<K, V>(entries@) =~= with_vacant::<K, V>(view, k, value));
                }
                self.entries = entries;
                FileAction::Taken
            },
        }
    }
}

/// What becomes of an entry of the walk.
pub open spec fn entry_action<K>(entry: WalkEntry<K>) -> EntryAction<K> {
    match entry {
        WalkEntry::Failed { not_found } => if not_found {
            EntryAction::Skip
        } else {
            EntryAction::Fail(ScanError::Walk)
        },
        WalkEntry::Found { is_file, key } => match key {
            Some(key) => if is_file {
                EntryAction::Read(key)
            } else {
                EntryAction::Skip
            },
            None => EntryAction::Skip,
        },
    }
}

/// The contents after an entry of the walk, and the file that it names, or why the scan fails.
pub open spec fn after_entry<K: SnapshotKey, V>(
    contents: Contents<K::V, V>,
    entry: WalkEntry<K>,
    outcome: FileOutcome<V>,
) -> Result<Contents<K::V, V>, ScanError> {
    match entry_action(entry) {
        EntryAction::Skip => Ok(contents),
        EntryAction::Fail(e) => Err(e),
        EntryAction::Read(key) => match file_action(contents, key@, outcome) {
            FileAction::Fail(e) => Err(e),
            _ => Ok(after_file::<K, V>(contents, key@, outcome)),
        },
    }
}

/// The result of a scan, from the entries of the walk and what became of the files that they
/// name.
pub open spec fn scan_result<K: SnapshotKey, V>(
    walk: Seq<WalkEntry<K>>,
    files: Seq<FileOutcome<V>>,
) -> Result<Contents<K::V, V>, ScanError>
    decreases walk.len(),
{
    if walk.len() == 0 {
        Ok(Seq::empty())
    } else {
        match scan_result::<K, V>(walk.drop_last(), files) {
            Err(e) => Err(e),
            Ok(contents) => after_entry::<K, V>(contents, walk.last(), files[walk.len() - 1]),
        }
    }
}

/// What reading a file comes to.
#[derive(Debug)]
pub enum ReadOutcome {
    Content(String),
    /// The file is gone.
    NotFound,
    /// The file cannot be read.
    Unreadable,
}

/// Whether a file's outcome is what reading the file of entry `i` and transforming its content
/// can come to.
pub open spec fn file_came_about<V, E, R: Fn(usize) -> ReadOutcome, T: Fn(String) -> Result<V, E>>(
    read: R,
    transform: T,
    i: usize,
    outcome: FileOutcome<V>,
) -> bool {
    exists|content: ReadOutcome| #[trigger]
        call_ensures(read, (i,), content) && match content {
            ReadOutcome::NotFound => outcome is NotFound,
            ReadOutcome::Unreadable => outcome is Unreadable,
            ReadOutcome::Content(text) => match outcome {
                FileOutcome::Value(value) => call_ensures(transform, (text,), Ok(value)),
                FileOutcome::Rejected => exists|e: E| #[trigger]
                    call_ensures(transform, (text,), Err(e)),
                _ => false,
            },
        }
}

/// Whether the outcomes are what reading the files of a walk can come to, up to a failure.
pub open spec fn files_came_about<
    K: SnapshotKey,
    V,
    E,
    R: Fn(usize) -> ReadOutcome,
    T: Fn(String) -> Result<V, E>,
>(walk: Seq<WalkEntry<K>>, read: R, transform: T, files: Seq<FileOutcome<V>>) -> bool {
    &&& files.len() == walk.len()
    &&& forall|i: int|
        0 <= i < walk.len() && entry_action(walk[i]) is Read && scan_result::<K, V>(
            walk.take(i),
            files,
        ) is Ok ==> file_came_about::<V, E, R, T>(
            read,
            transform,
            i as usize,
            #[trigger] files[i],
        )
}

/// The result of a scan, with what it gathered.
pub open spec fn scan_view<K: SnapshotKey, V>(r: Result<Scan<K, V>, ScanError>) -> Result<
    Contents<K::V, V>,
    ScanError,
> {
    match r {
        Ok(scan) => Ok(scan@),
        Err(e) => Err(e),
    }
}

/// A scan that fails within the first `n` entries fails with that.
proof fn failed_scan_stands<K: SnapshotKey, V>(
    walk: Seq<WalkEntry<K>>,
    files: Seq<FileOutcome<V>>,
    n: int,
)
    requires
        0 <= n <= walk.len(),
        scan_result::<K, V>(walk.take(n), files) is Err,
    ensures
        scan_result::<K, V>(walk, files) == scan_result::<K, V>(walk.take(n), files),
    decreases walk.len() - n,
{
    if n == walk.len() {
        assert(walk.take(n) =~= walk);
    } else {
        assert(walk.take(n + 1).drop_last() =~= walk.take(n));
        failed_scan_stands::<K, V>(walk, files, n + 1);
    }
}

/// No entry behind a failure is reached.
proof fn nothing_is_read_after_a_failure<K: SnapshotKey, V>(
    walk: Seq<WalkEntry<K>>,
    files: Seq<FileOutcome<V>>,
    n: int,
)
    requires
        0 <= n <= walk.len(),
        scan_result::<K, V>(walk.take(n), files) is Err,
    ensures
        forall|j: int| n <= j <= walk.len() ==> #[trigger] scan_result::<K, V>(walk.take(j), files) is Err,
{
    assert forall|j: int| n <= j <= walk.len() implies #[trigger] scan_result::<K, V>(
        walk.take(j),
        files,
    ) is Err by {
        assert(walk.take(j).take(n) =~= walk.take(n));
        failed_scan_stands::<K, V>(walk.take(j), files, n);
    }
}

/// What becomes of files behind the walked entries makes no difference.
proof fn later_files_do_not_matter<K: SnapshotKey, V>(
    walk: Seq<WalkEntry<K>>,
    a: Seq<FileOutcome<V>>,
    b: Seq<FileOutcome<V>>,
)
    requires
        forall|i: int| 0 <= i < walk.len() ==> a[i] == b[i],
    ensures
        scan_result::<K, V>(walk, a) == scan_result::<K, V>(walk, b),
    decreases walk.len(),
{
    if walk.len() > 0 {
        later_files_do_not_matter::<K, V>(walk.drop_last(), a, b);
    }
}

/// Reads the file of an entry and transforms its content.
fn file_outcome<V, E, R: Fn(usize) -> ReadOutcome, T: Fn(String) -> Result<V, E>>(
    read: &R,
    transform: &T,
    i: usize,
) -> (r: FileOutcome<V>)
    requires
        call_requires(*read, (i,)),
        forall|text: String| #[trigger]
            call_ensures(*read, (i,), ReadOutcome::Content(text)) ==> call_requires(
                *transform,
                (text,),
            ),
    ensures
        file_came_about::<V, E, R, T>(*read, *transform, i, r),
{
    let content: ReadOutcome = read(i);
    assert(call_ensures(*read, (i,), content));
    match content {
        ReadOutcome::NotFound => FileOutcome::NotFound,
        ReadOutcome::Unreadable => FileOutcome::Unreadable,
        ReadOutcome::Content(text) => match transform(text) {
            Ok(value) => FileOutcome::Value(value),
            Err(_) => FileOutcome::Rejected,
        },
    }
}

/// A directory snapshot: the values of a directory's files by key.
#[verifier::reject_recursive_types(K)]
pub struct FileStore<K: SnapshotKey, V> {
    path: PathBuf,
    entries: Vec<(K, Arc<V>)>,
}

impl<K: SnapshotKey, V> View for FileStore<K, V> {
    type V = Contents<K::V, V>;

    closed spec fn view(&self) -> Contents<K::V, V> {
        entries_view::<K, V>(self.entries@)
    }
}

/// How far a lookup that may load the directory has come.
#[derive(Clone, Copy, Debug, PartialEq, Eq, Structural)]
pub enum LoadPhase {
    /// Nothing has been done yet.
    Start,
    /// The refresh lock is held.
    Locked,
    /// The directory has been loaded.
    Loaded,
    /// Loading the directory failed.
    Failed(ScanError),
}

/// What a lookup that may load the directory does next.
#[derive(Debug)]
pub enum LoadStep<V> {
    /// Take the refresh lock.
    Lock,
    /// Load the directory.
    Load,
    /// Give back this value.
    Return(Option<Arc<V>>),
    /// Give up.
    Fail(ScanError),
}

/// The value of the least key.
pub open spec fn first_value<KV, V>(contents: Contents<KV, V>) -> Option<V> {
    if contents.len() > 0 {
        Some(contents[0].1)
    } else {
        None
    }
}

/// An optional shared value.
pub open spec fn shared_view<V>(value: Option<Arc<V>>) -> Option<V> {
    match value {
        Some(value) => Some(*value),
        None => None,
    }
}

impl<K: SnapshotKey, V> FileStore<K, V> {
    #[verifier::type_invariant]
    spec fn valid(self) -> bool {
        in_key_order::<K, V>(entries_view::<K, V>(self.entries@))
    }

    /// The directory that the snapshot is of.
    pub closed spec fn directory(self) -> PathBuf {
        self.path
    }

    /// An empty snapshot of a directory.
    pub fn new(path: PathBuf) -> (r: FileStore<K, V>)
        ensures
            r@ == Seq::<(K::V, V)>::empty(),
            r.directory() == path,
    {
        let r: FileStore<K, V> = FileStore { path, entries: Vec::new() };
        assert(r@ =~= Seq::<(K::V, V)>::empty());
        r
    }

    /// The directory that the snapshot is of.
    pub fn path(&self) -> (r: &PathBuf)
        ensures
            *r == self.directory(),
    {
        &self.path
    }

    /// Select by key order so rescanning unchanged files does not switch values.
    pub fn first(&self) -> (r: Option<Arc<V>>)
        ensures
            shared_view(r) == first_value(self@),
            in_key_order::<K, V>(self@),
    {
        proof {
            use_type_invariant(self);
        }
        if self.entries.len() > 0 {
            assert(self@[0].1 == *self.entries@[0].1);
            Some(self.entries[0].1.clone())
        } else {
            None
        }
    }

    /// The value of a key.
    pub fn get(&self, key: &K) -> (r: Option<Arc<V>>)
        ensures
            shared_view(r) == lookup(self@, key@),
    {
        proof {
            use_type_invariant(self);
        }
        let i: usize = find_rank(&self.entries, key);
        if at_rank(&self.entries, key, i) {
            proof {
                entry_is_found::<K, V>(self@, i as int);
            }
            Some(self.entries[i].1.clone())
        } else {
            None
        }
    }

    /// All values, in the order of their keys.
    pub fn values(&self) -> (r: Vec<Arc<V>>)
        ensures
            r@.map_values(|v: Arc<V>| *v) == self@.map_values(|e: (K::V, V)| e.1),
            in_key_order::<K, V>(self@),
    {
        proof {
            use_type_invariant(self);
        }
        let mut all: Vec<Arc<V>> = Vec::new();
        let mut i: usize = 0;
        while i < self.entries.len()
            invariant
                i <= self.entries@.len(),
                all@.len() == i,
                forall|j: int| 0 <= j < i ==> *(#[trigger] all@[j]) == *self.entries@[j].1,
            decreases self.entries.len() - i,
        {
            all.push(self.entries[i].1.clone());
            i = i + 1;
        }
        assert(all@.map_values(|v: Arc<V>| *v) =~= self@.map_values(|e: (K::V, V)| e.1));
        all
    }

    /// Retry an empty snapshot on demand, using the same refresh path as the watcher. This is
    /// the next step of such a lookup on the snapshot as it stands now.
    pub fn get_or_load(&self, phase: LoadPhase) -> (r: LoadStep<V>)
        ensures
            match phase {
                LoadPhase::Start => match first_value(self@) {
                    Some(value) => r matches LoadStep::Return(v) && shared_view(v) == Some(value),
                    None => r is Lock,
                },
                LoadPhase::Locked => match first_value(self@) {
                    Some(value) => r matches LoadStep::Return(v) && shared_view(v) == Some(value),
                    None => r is Load,
                },
                LoadPhase::Loaded => r matches LoadStep::Return(v) && shared_view(v)
                    == first_value(self@),
                LoadPhase::Failed(e) => r == LoadStep::<V>::Fail(e),
            },
    {
        match phase {
            LoadPhase::Start => match self.first() {
                Some(value) => LoadStep::Return(Some(value)),
                None => LoadStep::Lock,
            },
            LoadPhase::Locked => match self.first() {
                Some(value) => LoadStep::Return(Some(value)),
                None => LoadStep::Load,
            },
            LoadPhase::Loaded => LoadStep::Return(self.first()),
            LoadPhase::Failed(e) => LoadStep::Fail(e),
        }
    }

    /// Gathers a snapshot from the entries of a walk through the directory, in sorted order.
    /// `read` reads the file of the entry at an index, and `transform` turns its content into
    /// the value. Neither is called for an entry that is left out, nor after a failure.
    pub fn scan<E, R: Fn(usize) -> ReadOutcome, T: Fn(String) -> Result<V, E>>(
        walk: Vec<WalkEntry<K>>,
        read: R,
        transform: T,
    ) -> (r: Result<Scan<K, V>, ScanError>)
        requires
            forall|i: usize|
                i < walk@.len() && entry_action(walk@[i as int]) is Read ==> #[trigger] call_requires(
                    read,
                    (i,),
                ),
            forall|i: usize, text: String| #[trigger]
                call_ensures(read, (i,), ReadOutcome::Content(text)) ==> call_requires(
                    transform,
                    (text,),
                ),
        ensures
            exists|files: Seq<FileOutcome<V>>| #[trigger]
                files_came_about::<K, V, E, R, T>(walk@, read, transform, files) && scan_view(r)
                    == scan_result::<K, V>(walk@, files),
    {
        let ghost entries = walk@;
        let total: usize = walk.len();
        let ghost mut files: Seq<FileOutcome<V>> = Seq::new(
            entries.len(),
            |i: int| FileOutcome::NotFound,
        );
        let mut scan: Scan<K, V> = Scan::new();
        let mut i: usize = 0;
        for entry in it: walk
            invariant
                it.seq() == entries,
                i == it.index(),
                entries == walk@,
                entries.len() == total,
                files.len() == entries.len(),
                forall|j: usize|
                    j < entries.len() && entry_action(entries[j as int]) is Read
                        ==> #[trigger] call_requires(read, (j,)),
                forall|j: usize, text: String| #[trigger]
                    call_ensures(read, (j,), ReadOutcome::Content(text)) ==> call_requires(
                        transform,
                        (text,),
                    ),
                scan_result::<K, V>(entries.take(i as int), files) == Ok::<
                    Contents<K::V, V>,
                    ScanError,
                >(scan@),
                forall|j: int|
                    0 <= j < i && entry_action(entries[j]) is Read ==> file_came_about::<V, E, R, T>(
                        read,
                        transform,
                        j as usize,
                        #[trigger] files[j],
                    ),
        {
            let ghost before = files;
            proof {
                assert(entries.take(i + 1).drop_last() =~= entries.take(i as int));
                assert(entry == entries[i as int]);
            }
            match scan.entry(entry) {
                EntryAction::Skip => {},
                EntryAction::Fail(e) => {
                    proof {
                        failed_scan_stands::<K, V>(entries, files, i + 1);
                        nothing_is_read_after_a_failure::<K, V>(entries, files, i + 1);
                        assert(files_came_about::<K, V, E, R, T>(entries, read, transform, files));
                    }
                    return Err(e);
                },
                EntryAction::Read(key) => {
                    let outcome: FileOutcome<V> = file_outcome(&read, &transform, i);
                    proof {
                        files = files.update(i as int, outcome);
                        later_files_do_not_matter::<K, V>(entries.take(i as int), before, files);
                    }
                    if let FileAction::Fail(e) = scan.file(key, outcome) {
                        proof {
                            failed_scan_stands::<K, V>(entries, files, i + 1);
                            nothing_is_read_after_a_failure::<K, V>(entries, files, i + 1);
                            assert(files_came_about::<K, V, E, R, T>(
                                entries,
                                read,
                                transform,
                                files,
                            ));
                        }
                        return Err(e);
                    }
                },
            }
            i = i + 1;
        }
        proof {
            assert(entries.take(i as int) =~= entries);
            assert(files_came_about::<K, V, E, R, T>(entries, read, transform, files));
        }
        Ok(scan)
    }

    /// Publishes the result of a scan as a whole. A scan that failed leaves the snapshot as it is.
    pub fn load(&mut self, scanned: Result<Scan<K, V>, ScanError>) -> (r: Result<(), ScanError>)
        ensures
            final(self).directory() == old(self).directory(),
            match scanned {
                Ok(scan) => r == Ok::<(), ScanError>(()) && final(self)@ == scan@,
                Err(e) => r == Err::<(), ScanError>(e) && final(self)@ == old(self)@,
            },
    {
        match scanned {
            Ok(scan) => {
                proof {
                    use_type_invariant(&scan);
                }
                self.entries = scan.entries;
                Ok(())
            },
            Err(e) => Err(e),
        }
    }
}

/// What a successful scan gathers stands in the order of the keys.
pub proof fn scans_are_in_key_order<K: SnapshotKey, V>(
    walk: Seq<WalkEntry<K>>,
    files: Seq<FileOutcome<V>>,
)
    ensures
        scan_result::<K, V>(walk, files) matches Ok(contents) ==> in_key_order::<K, V>(contents),
    decreases walk.len(),
{
    if walk.len() > 0 {
        scans_are_in_key_order::<K, V>(walk.drop_last(), files);
        if let Ok(before) = scan_result::<K, V>(walk.drop_last(), files) {
            if let EntryAction::Read(key) = entry_action(walk.last()) {
                if let FileOutcome::Value(value) = files[walk.len() - 1] {
                    vacant_insertion::<K, V>(before, key@, value);
                }
            }
        }
    }
}

/// The value of the first file of the walk that has a key.
pub open spec fn first_file<K: SnapshotKey, V>(
    walk: Seq<WalkEntry<K>>,
    files: Seq<FileOutcome<V>>,
    key: K::V,
) -> Option<V>
    decreases walk.len(),
{
    if walk.len() == 0 {
        None
    } else {
        match first_file::<K, V>(walk.drop_last(), files, key) {
            Some(value) => Some(value),
            None => match (entry_action(walk.last()), files[walk.len() - 1]) {
                (EntryAction::Read(k), FileOutcome::Value(value)) => if k@ == key {
                    Some(value)
                } else {
                    None
                },
                _ => None,
            },
        }
    }
}

/// Of several paths with one key, the first in traversal order gives the value; a key that no
/// path has gets none.
pub proof fn first_path_wins<K: SnapshotKey, V>(
    walk: Seq<WalkEntry<K>>,
    files: Seq<FileOutcome<V>>,
    key: K::V,
)
    ensures
        scan_result::<K, V>(walk, files) matches Ok(contents) ==> lookup(contents, key)
            == first_file::<K, V>(walk, files, key),
    decreases walk.len(),
{
    if walk.len() > 0 {
        let front = walk.drop_last();
        first_path_wins::<K, V>(front, files, key);
        scans_are_in_key_order::<K, V>(front, files);
        if let Ok(before) = scan_result::<K, V>(front, files) {
            if let EntryAction::Read(k) = entry_action(walk.last()) {
                if let FileOutcome::Value(value) = files[walk.len() - 1] {
                    vacant_insertion::<K, V>(before, k@, value);
                }
            }
        }
    }
}

/// Whether an entry of the walk, with what became of its file, fails a scan, and why.
pub open spec fn entry_failure<K, V>(entry: WalkEntry<K>, outcome: FileOutcome<V>) -> Option<
    ScanError,
> {
    match entry_action(entry) {
        EntryAction::Skip => None,
        EntryAction::Fail(e) => Some(e),
        EntryAction::Read(_) => match outcome {
            FileOutcome::Unreadable => Some(ScanError::Read),
            FileOutcome::Rejected => Some(ScanError::Transform),
            _ => None,
        },
    }
}

/// A scan fails exactly where an entry fails it, with the failure of the first such entry.
pub proof fn scans_fail_with_the_first_failure<K: SnapshotKey, V>(
    walk: Seq<WalkEntry<K>>,
    files: Seq<FileOutcome<V>>,
)
    ensures
        match scan_result::<K, V>(walk, files) {
            Ok(_) => forall|i: int|
                0 <= i < walk.len() ==> entry_failure(#[trigger] walk[i], files[i]) is None,
            Err(e) => exists|i: int|
                {
                    &&& 0 <= i < walk.len()
                    &&& entry_failure(#[trigger] walk[i], files[i]) == Some(e)
                    &&& scan_result::<K, V>(walk.take(i), files) is Ok
                },
        },
    decreases walk.len(),
{
    if walk.len() > 0 {
        let front = walk.drop_last();
        let last = walk.len() - 1;
        scans_fail_with_the_first_failure::<K, V>(front, files);
        assert(forall|i: int| 0 <= i < front.len() ==> front[i] == walk[i]);
        match scan_result::<K, V>(front, files) {
            Ok(_) => {
                assert forall|i: int| 0 <= i < front.len() implies entry_failure(
                    #[trigger] walk[i],
                    files[i],
                ) is None by {
                    assert(entry_failure(front[i], files[i]) is None);
                }
                assert(walk.take(last) =~= front);
                assert(walk[last] == walk.last());
                if let Err(e) = scan_result::<K, V>(walk, files) {
                    assert(entry_failure(walk[last], files[last]) == Some(e));
                }
            },
            Err(e) => {
                let i = choose|i: int|
                    {
                        &&& 0 <= i < front.len()
                        &&& entry_failure(#[trigger] front[i], files[i]) == Some(e)
                        &&& scan_result::<K, V>(front.take(i), files) is Ok
                    };
                assert(front.take(i) =~= walk.take(i));
                assert(entry_failure(walk[i], files[i]) == Some(e));
            },
        }
    }
}

/// The first value is that of the least key.
pub proof fn first_value_has_the_least_key<K: SnapshotKey, V>(contents: Contents<K::V, V>)
    requires
        in_key_order::<K, V>(contents),
        contents.len() > 0,
    ensures
        lookup(contents, contents[0].0) == first_value(contents),
        forall|key: K::V|
            #[trigger] has_key(contents, key) ==> key == contents[0].0 || K::precedes(
                contents[0].0,
                key,
            ),
{
    entry_is_found::<K, V>(contents, 0);
    assert forall|key: K::V| #[trigger] has_key(contents, key) implies key == contents[0].0
        || K::precedes(contents[0].0, key) by {
        let i = choose|i: int| 0 <= i < contents.len() && (#[trigger] contents[i]).0 == key;
        if i > 0 {
            assert(K::precedes(contents[0].0, contents[i].0));
        }
    }
}

/// Contents in key order are determined by the value of each key.
pub proof fn values_determine_contents<K: SnapshotKey, V>(
    a: Contents<K::V, V>,
    b: Contents<K::V, V>,
)
    requires
        in_key_order::<K, V>(a),
        in_key_order::<K, V>(b),
        forall|key: K::V| #[trigger] lookup(a, key) == lookup(b, key),
    ensures
        a == b,
    decreases a.len(),
{
    if a.len() == 0 {
        if b.len() > 0 {
            entry_is_found::<K, V>(b, 0);
            assert(lookup(a, b[0].0) is Some);
        }
        assert(a =~= b);
    } else {
        entry_is_found::<K, V>(a, 0);
        assert(lookup(b, a[0].0) is Some);
        assert(has_key(b, a[0].0));
        entry_is_found::<K, V>(b, 0);
        assert(lookup(a, b[0].0) is Some);
        assert(has_key(a, b[0].0));
        first_value_has_the_least_key::<K, V>(a);
        first_value_has_the_least_key::<K, V>(b);
        if a[0].0 != b[0].0 {
            K::transitive(a[0].0, b[0].0, a[0].0);
            K::irreflexive(a[0].0);
        }
        let x = a.skip(1);
        let y = b.skip(1);
        assert(forall|i: int| 0 <= i < x.len() ==> x[i] == a[i + 1]);
        assert(forall|i: int| 0 <= i < y.len() ==> y[i] == b[i + 1]);
        assert forall|key: K::V| #[trigger] lookup(x, key) == lookup(y, key) by {
            rest_lookup::<K, V>(a, key);
            rest_lookup::<K, V>(b, key);
            assert(lookup(a, key) == lookup(b, key));
        }
        values_determine_contents::<K, V>(x, y);
        assert(a =~= seq![a[0]] + x);
        assert(b =~= seq![b[0]] + y);
    }
}

/// Rescanning unchanged files does not switch values: two scans in which each key has the same
/// first file gather the same snapshot, whatever else they come upon.
pub proof fn rescans_agree<K: SnapshotKey, V>(
    walk: Seq<WalkEntry<K>>,
    files: Seq<FileOutcome<V>>,
    later_walk: Seq<WalkEntry<K>>,
    later_files: Seq<FileOutcome<V>>,
)
    requires
        scan_result::<K, V>(walk, files) is Ok,
        scan_result::<K, V>(later_walk, later_files) is Ok,
        forall|key: K::V| #[trigger]
            first_file::<K, V>(walk, files, key) == first_file::<K, V>(
                later_walk,
                later_files,
                key,
            ),
    ensures
        scan_result::<K, V>(walk, files) == scan_result::<K, V>(later_walk, later_files),
{
    let a = scan_result::<K, V>(walk, files)->Ok_0;
    let b = scan_result::<K, V>(later_walk, later_files)->Ok_0;
    scans_are_in_key_order::<K, V>(walk, files);
    scans_are_in_key_order::<K, V>(later_walk, later_files);
    assert forall|key: K::V| #[trigger] lookup(a, key) == lookup(b, key) by {
        first_path_wins::<K, V>(walk, files, key);
        first_path_wins::<K, V>(later_walk, later_files, key);
        assert(first_file::<K, V>(walk, files, key) == first_file::<K, V>(
            later_walk,
            later_files,
            key,
        ));
    }
    values_determine_contents::<K, V>(a, b);
}

/// Without the first entry all keys but its own have the values that they had.
proof fn rest_lookup<K: SnapshotKey, V>(contents: Contents<K::V, V>, key: K::V)
    requires
        in_key_order::<K, V>(contents),
        contents.len() > 0,
    ensures
        lookup(contents.skip(1), key) == (if key == contents[0].0 {
            None
        } else {
            lookup(contents, key)
        }),
{
    let rest = contents.skip(1);
    assert(forall|i: int| 0 <= i < rest.len() ==> rest[i] == contents[i + 1]);
    K::irreflexive(contents[0].0);
    if has_key(rest, key) {
        let i = choose|i: int| 0 <= i < rest.len() && (#[trigger] rest[i]).0 == key;
        assert(K::precedes(contents[0].0, contents[i + 1].0));
        entry_is_found::<K, V>(rest, i);
        entry_is_found::<K, V>(contents, i + 1);
    } else if has_key(contents, key) {
        let i = choose|i: int| 0 <= i < contents.len() && (#[trigger] contents[i]).0 == key;
        if i > 0 {
            assert(rest[i - 1].0 == key);
        }
    }
}

/// How often the directory is scanned without a notification, in seconds. This recovers from
/// missed notifications, such as a native watch lost after a directory replacement.
pub const RESCAN_INTERVAL_SECS: u64 = 30;

/// How long changes are gathered before a scan, in milliseconds, unless told otherwise.
pub const DEFAULT_DEBOUNCE_MS: u64 = 500;

/// A notification of the file watch.
#[derive(Clone, Copy, Debug, PartialEq, Eq, Structural)]
pub enum FileEvent {
    /// Something happened: whether it was a mere access, and whether events may have been lost.
    Happened { access: bool, need_rescan: bool },
    /// The watch reports an error.
    Error,
}

/// Whether a notification asks for a scan: all do but mere accesses.
pub open spec fn asks_for_scan(event: FileEvent) -> bool {
    match event {
        FileEvent::Happened { access, need_rescan } => need_rescan || !access,
        FileEvent::Error => true,
    }
}

/// Why a watcher does not start.
#[derive(Clone, Copy, Debug, PartialEq, Eq, Structural)]
pub enum StartError {
    /// The debounce time is not positive.
    ZeroDebounce,
    /// The directory cannot be watched.
    Watch,
}

/// How far the start of a watcher has come.
#[derive(Clone, Copy, Debug, PartialEq, Eq, Structural)]
pub enum StartPhase {
    /// Nothing has been done yet.
    Begin,
    /// The watch has been asked for, and is installed or not.
    Watched(bool),
    /// The first scan is over, and went well or not.
    Scanned(bool),
}

/// What the start of a watcher does next.
#[derive(Clone, Copy, Debug, PartialEq, Eq, Structural)]
pub enum StartStep {
    InstallWatch,
    Scan,
    /// Hand over to the loop.
    Run,
    Fail(StartError),
}

/// File events invalidate the directory snapshot; they are never applied as deltas.
pub struct AsyncFileWatcher<S> {
    pub store: S,
    pub debounce_ms: u64,
}

impl<S> AsyncFileWatcher<S> {
    /// A watcher for a store.
    pub fn new(store: S) -> (r: AsyncFileWatcher<S>)
        ensures
            r.store == store,
            r.debounce_ms == DEFAULT_DEBOUNCE_MS,
    {
        AsyncFileWatcher { store, debounce_ms: DEFAULT_DEBOUNCE_MS }
    }

    /// The same watcher with another debounce time.
    pub fn with_debounce_ms(self, ms: u64) -> (r: AsyncFileWatcher<S>)
        ensures
            r.store == self.store,
            r.debounce_ms == ms,
    {
        AsyncFileWatcher { store: self.store, debounce_ms: ms }
    }

    /// Install the watch before the initial scan. A scan that fails will be retried, and does
    /// not keep the watcher from starting.
    pub fn start(&self, phase: StartPhase) -> (r: StartStep)
        ensures
            r == (match phase {
                StartPhase::Begin => if self.debounce_ms == 0 {
                    StartStep::Fail(StartError::ZeroDebounce)
                } else {
                    StartStep::InstallWatch
                },
                StartPhase::Watched(installed) => if installed {
                    StartStep::Scan
                } else {
                    StartStep::Fail(StartError::Watch)
                },
                StartPhase::Scanned(_) => StartStep::Run,
            }),
    {
        match phase {
            StartPhase::Begin => {
                if self.debounce_ms == 0 {
                    StartStep::Fail(StartError::ZeroDebounce)
                } else {
                    StartStep::InstallWatch
                }
            },
            StartPhase::Watched(installed) => {
                if installed {
                    StartStep::Scan
                } else {
                    StartStep::Fail(StartError::Watch)
                }
            },
            StartPhase::Scanned(_) => StartStep::Run,
        }
    }

    /// The loop that the watcher runs, with nothing to do yet.
    pub fn run(&self) -> (r: WatchLoop)
        ensures
            r == (WatchLoop {
                phase: WatchPhase::Waiting,
                pending: false,
                debounce_ms: self.debounce_ms,
            }),
    {
        WatchLoop { phase: WatchPhase::Waiting, pending: false, debounce_ms: self.debounce_ms }
    }
}

/// Where the watch loop stands.
#[derive(Clone, Copy, Debug, PartialEq, Eq, Structural)]
pub enum WatchPhase {
    /// It waits for a change or for the rescan timer.
    Waiting,
    /// A change has come, and more are gathered.
    Debouncing,
    /// The directory is being scanned.
    Refreshing,
}

/// What the watch loop is told.
#[derive(Clone, Copy, Debug, PartialEq, Eq, Structural)]
pub enum LoopEvent {
    /// A change may be pending.
    Wake,
    /// The rescan timer has ticked.
    Tick,
    /// The debounce time is over.
    Elapsed,
    /// The scan is over; one that failed keeps the previous snapshot.
    Refreshed,
}

/// What the watch loop does next.
#[derive(Clone, Copy, Debug, PartialEq, Eq, Structural)]
pub enum LoopAction {
    /// Wait for a change or for the rescan timer.
    Wait,
    /// Sleep for so many milliseconds.
    Sleep(u64),
    /// Scan the directory and publish what comes of it.
    Refresh,
    /// Go on with what is under way.
    Continue,
}

/// The state of the watch loop. One pending change stands for any number of them: the scan that
/// answers it sees them all.
#[derive(Clone, Copy, Debug, PartialEq, Eq, Structural)]
pub struct WatchLoop {
    pub phase: WatchPhase,
    pub pending: bool,
    pub debounce_ms: u64,
}

impl WatchLoop {
    /// The loop after a notification.
    pub open spec fn after_change(self, event: FileEvent) -> WatchLoop {
        WatchLoop { pending: self.pending || asks_for_scan(event), ..self }
    }

    /// The loop after an event.
    pub open spec fn after(self, event: LoopEvent) -> WatchLoop {
        match (self.phase, event) {
            (WatchPhase::Waiting, LoopEvent::Wake) => if self.pending {
                WatchLoop { phase: WatchPhase::Debouncing, pending: false, ..self }
            } else {
                self
            },
            (WatchPhase::Waiting, LoopEvent::Tick) => WatchLoop {
                phase: WatchPhase::Refreshing,
                ..self
            },
            (WatchPhase::Debouncing, LoopEvent::Elapsed) => WatchLoop {
                phase: WatchPhase::Refreshing,
                pending: false,
                ..self
            },
            (WatchPhase::Refreshing, LoopEvent::Refreshed) => WatchLoop {
                phase: WatchPhase::Waiting,
                ..self
            },
            _ => self,
        }
    }

    /// What the loop does on an event.
    pub open spec fn action(self, event: LoopEvent) -> LoopAction {
        match (self.phase, event) {
            (WatchPhase::Waiting, LoopEvent::Wake) => if self.pending {
                LoopAction::Sleep(self.debounce_ms)
            } else {
                LoopAction::Wait
            },
            (WatchPhase::Waiting, LoopEvent::Tick) => LoopAction::Refresh,
            (WatchPhase::Debouncing, LoopEvent::Elapsed) => LoopAction::Refresh,
            (WatchPhase::Refreshing, LoopEvent::Refreshed) => LoopAction::Wait,
            _ => LoopAction::Continue,
        }
    }

    /// Takes in a notification, and says whether the loop is to be woken.
    pub fn change(&mut self, event: FileEvent) -> (r: bool)
        ensures
            r == asks_for_scan(event),
            *final(self) == old(self).after_change(event),
    {
        let asks: bool = match event {
            FileEvent::Happened { access, need_rescan } => need_rescan || !access,
            FileEvent::Error => true,
        };
        if asks {
            self.pending = true;
        }
        asks
    }

    /// Takes in an event, and says what to do next.
    pub fn step(&mut self, event: LoopEvent) -> (r: LoopAction)
        ensures
            r == old(self).action(event),
            *final(self) == old(self).after(event),
    {
        match (self.phase, event) {
            (WatchPhase::Waiting, LoopEvent::Wake) => {
                if self.pending {
                    self.pending = false;
                    self.phase = WatchPhase::Debouncing;
                    LoopAction::Sleep(self.debounce_ms)
                } else {
                    LoopAction::Wait
                }
            },
            (WatchPhase::Waiting, LoopEvent::Tick) => {
                self.phase = WatchPhase::Refreshing;
                LoopAction::Refresh
            },
            (WatchPhase::Debouncing, LoopEvent::Elapsed) => {
                // Bound batching latency even if changes keep arriving.
                self.pending = false;
                self.phase = WatchPhase::Refreshing;
                LoopAction::Refresh
            },
            (WatchPhase::Refreshing, LoopEvent::Refreshed) => {
                self.phase = WatchPhase::Waiting;
                LoopAction::Wait
            },
            _ => LoopAction::Continue,
        }
    }

    /// Whether the loop owes a scan for a change that has come.
    pub open spec fn owes_scan(self) -> bool {
        self.pending || self.phase == WatchPhase::Debouncing
    }
}

/// No change is lost: a notification that asks for a scan makes the loop owe one, it goes on
/// owing it through further notifications and events, and only the start of a scan pays it off.
pub proof fn changes_are_not_lost(state: WatchLoop, change: FileEvent, event: LoopEvent)
    ensures
        asks_for_scan(change) ==> state.after_change(change).owes_scan(),
        state.owes_scan() ==> state.after_change(change).owes_scan(),
        state.owes_scan() && !state.after(event).owes_scan() ==> state.action(event)
            == LoopAction::Refresh,
{
}

/// A loop that owes a scan gets to it: woken while it waits it sleeps the debounce time, and then
/// scans.
pub proof fn owed_scans_come(state: WatchLoop)
    requires
        state.owes_scan(),
    ensures
        state.phase == WatchPhase::Waiting ==> {
            &&& state.action(LoopEvent::Wake) == LoopAction::Sleep(state.debounce_ms)
            &&& state.after(LoopEvent::Wake).phase == WatchPhase::Debouncing
        },
        state.phase == WatchPhase::Debouncing ==> state.action(LoopEvent::Elapsed)
            == LoopAction::Refresh,
        state.phase == WatchPhase::Refreshing ==> {
            &&& state.after(LoopEvent::Refreshed).phase == WatchPhase::Waiting
            &&& state.after(LoopEvent::Refreshed).owes_scan()
        },
{
}

/// Changes that keep coming do not put a scan off: a notification changes neither the phase of
/// the loop nor, once one is pending, anything at all.
pub proof fn changes_coalesce(state: WatchLoop, change: FileEvent)
    ensures
        state.after_change(change).phase == state.phase,
        state.pending ==> state.after_change(change) == state,
        state.after_change(change).action(LoopEvent::Elapsed) == state.action(LoopEvent::Elapsed),
{
}

/// Whether the walk comes upon a regular file with a key at a place.
pub open spec fn file_at<K: SnapshotKey>(walk: Seq<WalkEntry<K>>, i: int, key: K::V) -> bool {
    &&& 0 <= i < walk.len()
    &&& walk[i] matches WalkEntry::Found { is_file, key: Some(k) } && is_file && k@ == key
}

/// Whether a regular file with a key is found and read at a place.
pub open spec fn value_at<K: SnapshotKey, V>(
    walk: Seq<WalkEntry<K>>,
    files: Seq<FileOutcome<V>>,
    i: int,
    key: K::V,
) -> bool {
    file_at::<K>(walk, i, key) && files[i] is Value
}

/// The value of the first file of a key is that of the first place where one is found and read.
proof fn first_files_are_the_first<K: SnapshotKey, V>(
    walk: Seq<WalkEntry<K>>,
    files: Seq<FileOutcome<V>>,
    key: K::V,
)
    ensures
        match first_file::<K, V>(walk, files, key) {
            Some(value) => exists|i: int|
                {
                    &&& #[trigger] value_at::<K, V>(walk, files, i, key)
                    &&& files[i] == FileOutcome::Value(value)
                    &&& forall|j: int| 0 <= j < i ==> !#[trigger] value_at::<K, V>(walk, files, j, key)
                },
            None => forall|j: int| !#[trigger] value_at::<K, V>(walk, files, j, key),
        },
    decreases walk.len(),
{
    if walk.len() > 0 {
        let front = walk.drop_last();
        let last = walk.len() - 1;
        first_files_are_the_first::<K, V>(front, files, key);
        assert(forall|i: int| 0 <= i < front.len() ==> front[i] == walk[i]);
        assert forall|j: int| j < last implies #[trigger] value_at::<K, V>(walk, files, j, key)
            == value_at::<K, V>(front, files, j, key) by {
            if 0 <= j {
                assert(front[j] == walk[j]);
            }
        }
        match first_file::<K, V>(front, files, key) {
            Some(value) => {
                let i = choose|i: int|
                    {
                        &&& #[trigger] value_at::<K, V>(front, files, i, key)
                        &&& files[i] == FileOutcome::Value(value)
                        &&& forall|j: int|
                            0 <= j < i ==> !#[trigger] value_at::<K, V>(front, files, j, key)
                    };
                assert(value_at::<K, V>(walk, files, i, key));
                assert forall|j: int| 0 <= j < i implies !#[trigger] value_at::<K, V>(
                    walk,
                    files,
                    j,
                    key,
                ) by {
                    assert(!value_at::<K, V>(front, files, j, key));
                }
            },
            None => {
                assert forall|j: int| j < last implies !#[trigger] value_at::<K, V>(
                    walk,
                    files,
                    j,
                    key,
                ) by {
                    assert(!value_at::<K, V>(front, files, j, key));
                }
                assert(walk[last] == walk.last());
                if value_at::<K, V>(walk, files, last, key) {
                    assert(first_file::<K, V>(walk, files, key) is Some);
                } else {
                    assert(first_file::<K, V>(walk, files, key) is None);
                }
            },
        }
    }
}

/// A snapshot holds, for each key, the value of the first regular file of the walk that has the
/// key and is there to be read, and nothing for a key that no such file has.
pub proof fn scans_keep_the_first_file_of_each_key<K: SnapshotKey, V>(
    walk: Seq<WalkEntry<K>>,
    files: Seq<FileOutcome<V>>,
    key: K::V,
)
    ensures
        scan_result::<K, V>(walk, files) matches Ok(contents) ==> match lookup(contents, key) {
            Some(value) => exists|i: int|
                {
                    &&& #[trigger] value_at::<K, V>(walk, files, i, key)
                    &&& files[i] == FileOutcome::Value(value)
                    &&& forall|j: int| 0 <= j < i ==> !#[trigger] value_at::<K, V>(walk, files, j, key)
                },
            None => forall|j: int| !#[trigger] value_at::<K, V>(walk, files, j, key),
        },
{
    first_path_wins::<K, V>(walk, files, key);
    first_files_are_the_first::<K, V>(walk, files, key);
}

/// Why the entry at a place fails a scan: it cannot be looked at though it is there, or it is a
/// regular file with a key that cannot be read though it is there, or whose content is refused.
pub open spec fn failure_at<K: SnapshotKey, V>(
    walk: Seq<WalkEntry<K>>,
    files: Seq<FileOutcome<V>>,
    i: int,
) -> Option<ScanError> {
    match walk[i] {
        WalkEntry::Failed { not_found: false } => Some(ScanError::Walk),
        WalkEntry::Found { is_file: true, key: Some(_) } => match files[i] {
            FileOutcome::Unreadable => Some(ScanError::Read),
            FileOutcome::Rejected => Some(ScanError::Transform),
            _ => None,
        },
        _ => None,
    }
}

/// A scan goes well exactly where no entry fails it, and else fails as the first such entry does.
pub proof fn scans_fail_as_their_first_failure<K: SnapshotKey, V>(
    walk: Seq<WalkEntry<K>>,
    files: Seq<FileOutcome<V>>,
)
    ensures
        match scan_result::<K, V>(walk, files) {
            Ok(_) => forall|i: int|
                0 <= i < walk.len() ==> #[trigger] failure_at::<K, V>(walk, files, i) is None,
            Err(e) => exists|i: int|
                {
                    &&& 0 <= i < walk.len()
                    &&& #[trigger] failure_at::<K, V>(walk, files, i) == Some(e)
                    &&& forall|j: int|
                        0 <= j < i ==> #[trigger] failure_at::<K, V>(walk, files, j) is None
                },
        },
    decreases walk.len(),
{
    if walk.len() > 0 {
        let front = walk.drop_last();
        let last = walk.len() - 1;
        scans_fail_as_their_first_failure::<K, V>(front, files);
        assert forall|i: int| 0 <= i < last implies #[trigger] failure_at::<K, V>(walk, files, i)
            == failure_at::<K, V>(front, files, i) by {
            assert(front[i] == walk[i]);
        }
        assert(walk[last] == walk.last());
        match scan_result::<K, V>(front, files) {
            Ok(_) => {
                assert forall|i: int| 0 <= i < last implies #[trigger] failure_at::<K, V>(
                    walk,
                    files,
                    i,
                ) is None by {
                    assert(failure_at::<K, V>(front, files, i) is None);
                }
                if let Err(e) = scan_result::<K, V>(walk, files) {
                    assert(failure_at::<K, V>(walk, files, last) == Some(e));
                } else {
                    assert(failure_at::<K, V>(walk, files, last) is None);
                }
            },
            Err(e) => {
                let i = choose|i: int|
                    {
                        &&& 0 <= i < front.len()
                        &&& #[trigger] failure_at::<K, V>(front, files, i) == Some(e)
                        &&& forall|j: int|
                            0 <= j < i ==> #[trigger] failure_at::<K, V>(front, files, j) is None
                    };
                assert(failure_at::<K, V>(walk, files, i) == Some(e));
                assert forall|j: int| 0 <= j < i implies #[trigger] failure_at::<K, V>(
                    walk,
                    files,
                    j,
                ) is None by {
                    assert(failure_at::<K, V>(front, files, j) is None);
                }
            },
        }
    }
}

/// A snapshot has no keys but those of files that are found and read.
pub proof fn scans_hold_no_other_keys<K: SnapshotKey, V>(
    walk: Seq<WalkEntry<K>>,
    files: Seq<FileOutcome<V>>,
    n: int,
)
    requires
        scan_result::<K, V>(walk, files) is Ok,
        0 <= n < scan_result::<K, V>(walk, files)->Ok_0.len(),
    ensures
        exists|i: int| #[trigger]
            value_at::<K, V>(walk, files, i, scan_result::<K, V>(walk, files)->Ok_0[n].0),
{
    let contents = scan_result::<K, V>(walk, files)->Ok_0;
    scans_are_in_key_order::<K, V>(walk, files);
    entry_is_found::<K, V>(contents, n);
    scans_keep_the_first_file_of_each_key::<K, V>(walk, files, contents[n].0);
}

/// In contents in key order, each entry is found under its key, an earlier one has the lesser key,
/// and a key that no entry has is not found.
pub proof fn entries_are_found_under_their_keys<K: SnapshotKey, V>(
    contents: Contents<K::V, V>,
    i: int,
    key: K::V,
)
    requires
        in_key_order::<K, V>(contents),
        0 <= i < contents.len(),
    ensures
        lookup(contents, contents[i].0) == Some(contents[i].1),
        forall|j: int| i < j < contents.len() ==> K::precedes(contents[i].0, (#[trigger] contents[j]).0),
        (forall|j: int| 0 <= j < contents.len() ==> (#[trigger] contents[j]).0 != key) <==> lookup(
            contents,
            key,
        ) is None,
{
    entry_is_found::<K, V>(contents, i);
}

/// Texts as keys are in the order of their UTF-8 bytes.
pub proof fn text_keys_are_in_byte_order(a: Seq<char>, b: Seq<char>)
    ensures
        String::precedes(a, b) <==> exists|n: int|
            {
                &&& 0 <= n <= encode_utf8(a).len()
                &&& n < encode_utf8(b).len()
                &&& encode_utf8(a).take(n) == #[trigger] encode_utf8(b).take(n)
                &&& n == encode_utf8(a).len() || encode_utf8(a)[n] < encode_utf8(b)[n]
            },
{
    crate::text::texts_are_ordered_by_their_bytes(a, b);
}

/// A file whose value is taken was read, and the value is what its very content was turned into.
pub proof fn values_come_from_contents<
    V,
    E,
    R: Fn(usize) -> ReadOutcome,
    T: Fn(String) -> Result<V, E>,
>(read: R, transform: T, i: usize, outcome: FileOutcome<V>)
    requires
        file_came_about::<V, E, R, T>(read, transform, i, outcome),
    ensures
        match outcome {
            FileOutcome::Value(value) => exists|text: String| #[trigger]
                call_ensures(read, (i,), ReadOutcome::Content(text)) && call_ensures(
                    transform,
                    (text,),
                    Ok(value),
                ),
            FileOutcome::NotFound => call_ensures(read, (i,), ReadOutcome::NotFound),
            FileOutcome::Unreadable => call_ensures(read, (i,), ReadOutcome::Unreadable),
            FileOutcome::Rejected => exists|text: String, e: E|
                #![trigger call_ensures(read, (i,), ReadOutcome::Content(text)), call_ensures(transform, (text,), Err(e))]
                call_ensures(read, (i,), ReadOutcome::Content(text)) && call_ensures(
                    transform,
                    (text,),
                    Err(e),
                ),
        },
{
}

/// Where a scan goes well, every regular file with a key came about by reading it.
pub proof fn every_file_of_a_scan_is_read<
    K: SnapshotKey,
    V,
    E,
    R: Fn(usize) -> ReadOutcome,
    T: Fn(String) -> Result<V, E>,
>(
    walk: Seq<WalkEntry<K>>,
    read: R,
    transform: T,
    files: Seq<FileOutcome<V>>,
    i: int,
    key: K::V,
)
    requires
        files_came_about::<K, V, E, R, T>(walk, read, transform, files),
        scan_result::<K, V>(walk, files) is Ok,
        file_at::<K>(walk, i, key),
    ensures
        file_came_about::<V, E, R, T>(read, transform, i as usize, files[i]),
{
    if scan_result::<K, V>(walk.take(i), files) is Err {
        failed_scan_stands::<K, V>(walk, files, i);
    }
    assert(entry_action(walk[i]) is Read);
}

/// What taking in a file does: the value of one that is read goes to its key where that is vacant,
/// and anything else leaves the snapshot as it is.
pub proof fn files_go_to_vacant_keys<K: SnapshotKey, V>(
    contents: Contents<K::V, V>,
    key: K::V,
    outcome: FileOutcome<V>,
)
    requires
        in_key_order::<K, V>(contents),
    ensures
        file_action(contents, key, outcome) == FileAction::Taken <==> outcome is Value && lookup(
            contents,
            key,
        ) is None,
        file_action(contents, key, outcome) == FileAction::Duplicate <==> outcome is Value
            && lookup(contents, key) is Some,
        file_action(contents, key, outcome) == FileAction::Skipped <==> outcome is NotFound,
        file_action(contents, key, outcome) == FileAction::Fail(ScanError::Read) <==> outcome
            is Unreadable,
        file_action(contents, key, outcome) == FileAction::Fail(ScanError::Transform) <==> outcome
            is Rejected,
        file_action(contents, key, outcome) != FileAction::Taken ==> after_file::<K, V>(
            contents,
            key,
            outcome,
        ) == contents,
        file_action(contents, key, outcome) == FileAction::Taken ==> lookup(
            after_file::<K, V>(contents, key, outcome),
            key,
        ) == Some(outcome->Value_0),
        forall|other: K::V|
            other != key ==> #[trigger] lookup(
                after_file::<K, V>(contents, key, outcome),
                other,
            ) == lookup(contents, other),
{
    if let FileOutcome::Value(value) = outcome {
        vacant_insertion::<K, V>(contents, key, value);
    }
}

/// What becomes of an entry of the walk, of each sort of entry.
pub proof fn only_files_with_keys_are_read<K>(key: K, is_file: bool, not_found: bool)
    ensures
        entry_action(WalkEntry::Found { is_file: true, key: Some(key) }) == EntryAction::Read(key),
        entry_action(WalkEntry::Found { is_file: false, key: Some(key) }) == EntryAction::<K>::Skip,
        entry_action(WalkEntry::<K>::Found { is_file, key: None }) == EntryAction::<K>::Skip,
        entry_action(WalkEntry::<K>::Failed { not_found }) == (if not_found {
            EntryAction::<K>::Skip
        } else {
            EntryAction::<K>::Fail(ScanError::Walk)
        }),
{
}

/// Shared values and scans are seen as what they hold.
pub proof fn shared_values_are_seen<K: SnapshotKey, V>(
    value: Arc<V>,
    scan: Scan<K, V>,
    error: ScanError,
)
    ensures
        shared_view(Some(value)) == Some(*value),
        shared_view(None::<Arc<V>>) is None,
        scan_view(Ok::<Scan<K, V>, ScanError>(scan)) == Ok::<Contents<K::V, V>, ScanError>(scan@),
        scan_view(Err::<Scan<K, V>, ScanError>(error)) == Err::<Contents<K::V, V>, ScanError>(
            error,
        ),
        first_value(Seq::<(K::V, V)>::empty()) is None,
{
}

/// Every notification asks for a scan but that of a mere access with nothing lost.
pub proof fn all_but_accesses_ask_for_a_scan(event: FileEvent)
    ensures
        !asks_for_scan(event) <==> event == (FileEvent::Happened {
            access: true,
            need_rescan: false,
        }),
{
}

/// A scan is begun by the timer while the loop waits, and by the end of the debounce time, and by
/// nothing else; the loop sleeps for its debounce time exactly when it is woken by a change; and
/// nothing changes that time.
pub proof fn scans_begin_in_two_ways(state: WatchLoop, event: LoopEvent, change: FileEvent)
    ensures
        state.action(event) == LoopAction::Refresh <==> state.phase == WatchPhase::Waiting && event
            == LoopEvent::Tick || state.phase == WatchPhase::Debouncing && event
            == LoopEvent::Elapsed,
        state.action(event) == LoopAction::Refresh ==> state.after(event).phase
            == WatchPhase::Refreshing,
        state.action(event) is Sleep <==> state.phase == WatchPhase::Waiting && event
            == LoopEvent::Wake && state.pending,
        state.action(event) is Sleep ==> state.action(event) == LoopAction::Sleep(
            state.debounce_ms,
        ) && state.after(event).phase == WatchPhase::Debouncing && !state.after(event).pending,
        state.action(event) == LoopAction::Continue ==> state.after(event) == state,
        state.action(event) == LoopAction::Wait ==> state.after(event).phase
            == WatchPhase::Waiting && state.after(event).pending == state.pending,
        state.after(event).debounce_ms == state.debounce_ms,
        state.after_change(change).debounce_ms == state.debounce_ms,
        state.after_change(change).pending <==> state.pending || asks_for_scan(change),
        state.action(LoopEvent::Tick) == LoopAction::Refresh ==> state.after(
            LoopEvent::Tick,
        ).pending == state.pending,
{
}

} // verus!
