//! Sandbox tokens and the lookups on them.

use crate::encoding::{
    base64_bytes, base64_encode, base64_len, base64_round_trip, base64_text,
    base64_text_is_header_safe, header_safe,
};
use crate::paths::{file_stem, path_text, stem_of, text_of_path};
use crate::watcher::{first_value, lookup, shared_view, FileStore, ScanError, StartError};
use std::path::Path;
use std::sync::Arc;
use vstd::prelude::*;
use vstd::string::*;
use vstd::utf8::encode_utf8;

verus! {

/// The header that carries a sandbox's token.
pub const SANDBOX_TOKEN_HEADER: &'static str = "x-agentio-sandbox-token";

/// The header that carries a sandbox's identifier.
pub const SANDBOX_ID_HEADER: &'static str = "x-agentio-sandbox-id";

/// The header that carries a sandbox's labels.
pub const SANDBOX_LABELS_HEADER: &'static str = "x-agentio-sandbox-labels";

/// Why a file's content is no token. No content is refused.
#[derive(Clone, Copy, Debug, PartialEq, Eq, Structural)]
pub struct TransformError;

/// The token for a file's content.
pub open spec fn token_of(content: Seq<char>) -> Seq<char> {
    base64_text(encode_utf8(content))
}

/// Whether the token for a file's content is no longer than a string can be.
pub open spec fn token_fits(content: Seq<char>) -> bool {
    base64_len(encode_utf8(content).len()) <= isize::MAX
}

/// Transform a raw token file content into the value stored in [`FileStore`].
/// Wraps the bytes in standard base64 so downstream consumers can ship them
/// in HTTP headers (`x-agentio-sandbox-token`) without worrying about binary or
/// CRLF content.
pub fn sandbox_token_transform(s: String) -> (r: Result<String, TransformError>)
    requires
        token_fits(s@),
    ensures
        r matches Ok(token) && token@ == token_of(s@),
{
    Ok(base64_encode(s.as_str().as_bytes()))
}

/// The key for the text of a token file's path.
pub fn token_key_of_text(path: &str) -> (r: Option<String>)
    ensures
        file_stem(path@) == (match r {
            Some(key) => Some(key@),
            None => None,
        }),
{
    stem_of(path)
}

/// Derive the [`FileStore`] key from a token file path.
/// Returns the file stem (filename without extension) as an opaque cache key.
/// The producer chooses the filename independently of the xDS Sandbox ID.
pub fn sandbox_token_key(path: &Path) -> (r: Option<String>)
    ensures
        file_stem(path_text(path)) == (match r {
            Some(key) => Some(key@),
            None => None,
        }),
{
    token_key_of_text(text_of_path(path).as_str())
}

/// A token can stand in an HTTP header, whatever the file held.
pub proof fn tokens_are_header_safe(content: Seq<char>)
    ensures
        forall|i: int| 0 <= i < token_of(content).len() ==> header_safe(#[trigger] token_of(content)[i]),
{
    base64_text_is_header_safe(encode_utf8(content));
}

/// A token decodes to the very bytes of the file, so different contents have different tokens.
pub proof fn tokens_preserve_content(content: Seq<char>, other: Seq<char>)
    ensures
        base64_bytes(token_of(content)) == encode_utf8(content),
        token_of(content) == token_of(other) ==> content == other,
{
    base64_round_trip(encode_utf8(content));
    base64_round_trip(encode_utf8(other));
    if token_of(content) == token_of(other) {
        crate::text::encoding_determines_text(content, other);
    }
}

/// Tokens by key, in the order of the keys.
pub type TokenStore = FileStore<String, String>;

/// A handle on a token store whose snapshot others may replace at any time.
pub trait TokenSource {
    /// The snapshot as it stands now.
    fn snapshot(&self) -> Arc<TokenStore>;
}

impl TokenSource for Arc<TokenStore> {
    /// A snapshot that nobody replaces is its own handle.
    fn snapshot(&self) -> (r: Arc<TokenStore>)
        ensures
            r == *self,
    {
        self.clone()
    }
}

/// What lookups read of a workload.
#[derive(Clone, Debug, PartialEq, Eq)]
pub struct Workload {
    pub uid: String,
}

/// The task of a watcher that started.
pub open spec fn task_of<S, T>(started: Result<(S, T), StartError>) -> Option<T> {
    match started {
        Ok((_, task)) => Some(task),
        Err(_) => None,
    }
}

/// The task that watches after the start of another, if it did start, and the task to abort.
pub open spec fn replaced<T>(current: Option<T>, started: Option<T>) -> (Option<T>, Option<T>) {
    match started {
        Some(task) => (Some(task), current),
        None => (current, None),
    }
}

/// An optional task as a list.
pub open spec fn task_list<T>(task: Option<T>) -> Seq<T> {
    match task {
        Some(task) => seq![task],
        None => Seq::empty(),
    }
}

/// The task that watches after a series of starts.
pub open spec fn watching<T>(starts: Seq<Option<T>>) -> Option<T>
    decreases starts.len(),
{
    if starts.len() == 0 {
        None
    } else {
        replaced(watching(starts.drop_last()), starts.last()).0
    }
}

/// The tasks that a series of starts hands out to abort.
pub open spec fn aborted<T>(starts: Seq<Option<T>>) -> Seq<T>
    decreases starts.len(),
{
    if starts.len() == 0 {
        Seq::empty()
    } else {
        aborted(starts.drop_last()) + task_list(
            replaced(watching(starts.drop_last()), starts.last()).1,
        )
    }
}

/// The tasks that a series of starts brought.
pub open spec fn tasks_started<T>(starts: Seq<Option<T>>) -> Seq<T>
    decreases starts.len(),
{
    if starts.len() == 0 {
        Seq::empty()
    } else {
        tasks_started(starts.drop_last()) + task_list(starts.last())
    }
}

/// No watcher is left running: whatever starts were tried, the tasks handed out to abort and the
/// one that watches now, which closing hands out, are all tasks that ever started, each once.
pub proof fn every_watcher_is_stopped<T>(starts: Seq<Option<T>>)
    ensures
        aborted(starts) + task_list(watching(starts)) == tasks_started(starts),
    decreases starts.len(),
{
    if starts.len() > 0 {
        every_watcher_is_stopped(starts.drop_last());
    }
    assert(aborted(starts) + task_list(watching(starts)) =~= tasks_started(starts));
}

/// Looks up Sandbox traffic metadata and watches the local token directory.
///
/// `S` is the handle on the token store, `T` the task that keeps it up to date, and `D` the
/// discovered state.
pub struct SandboxManager<S, T, D> {
    pub store: Option<S>,
    pub watcher_task: Option<T>,
    pub state: D,
}

impl<S: TokenSource, T, D> SandboxManager<S, T, D> {
    /// A manager that watches nothing yet.
    pub fn new(state: D) -> (r: SandboxManager<S, T, D>)
        ensures
            r.store is None,
            r.watcher_task is None,
            r.state == state,
    {
        SandboxManager { store: None, watcher_task: None, state }
    }

    /// Return the local Workload's first discovered Sandbox. `get_by_workload` lists the
    /// sandboxes of a workload, given its identifier.
    pub fn fetch_attested_sandbox<B, F: Fn(&D, &str) -> Vec<Arc<B>>>(
        &self,
        workload: &Workload,
        get_by_workload: F,
    ) -> (r: Option<Arc<B>>)
        requires
            forall|uid: &str| uid@ == workload.uid@ ==> #[trigger] call_requires(
                get_by_workload,
                (&self.state, uid),
            ),
        ensures
            exists|uid: &str, discovered: Vec<Arc<B>>|
                {
                    &&& uid@ == workload.uid@
                    &&& #[trigger] call_ensures(get_by_workload, (&self.state, uid), discovered)
                    &&& r == (if discovered@.len() > 0 {
                        Some(discovered@[0])
                    } else {
                        None
                    })
                },
    {
        let uid: &str = workload.uid.as_str();
        let discovered: Vec<Arc<B>> = get_by_workload(&self.state, uid);
        assert(call_ensures(get_by_workload, (&self.state, uid), discovered));
        if discovered.len() > 0 {
            Some(discovered[0].clone())
        } else {
            None
        }
    }

    /// Takes in how the start of a watcher went, and hands out the task to abort. A watcher that
    /// did not start keeps the previous one, if any.
    pub fn run(&mut self, started: Result<(S, T), StartError>) -> (r: Option<T>)
        ensures
            final(self).state == old(self).state,
            (final(self).watcher_task, r) == replaced(old(self).watcher_task, task_of(started)),
            final(self).store == (match started {
                Ok((store, _)) => Some(store),
                Err(_) => old(self).store,
            }),
    {
        match started {
            Ok((store, task)) => {
                let previous: Option<T> = self.watcher_task.take();
                self.watcher_task = Some(task);
                self.store = Some(store);
                previous
            },
            Err(_) => None,
        }
    }

    /// All tokens, in the order of their keys.
    pub fn list_sandbox_tokens(&self) -> (r: Vec<Arc<String>>)
        ensures
            match self.store {
                None => r@.len() == 0,
                Some(store) => exists|snapshot: Arc<TokenStore>| #[trigger]
                    call_ensures(S::snapshot, (&store,), snapshot) && r@.map_values(
                        |v: Arc<String>| *v,
                    ) == snapshot@.map_values(|e: (Seq<char>, String)| e.1),
            },
    {
        match &self.store {
            None => Vec::new(),
            Some(store) => {
                let snapshot: Arc<TokenStore> = store.snapshot();
                assert(call_ensures(S::snapshot, (store,), snapshot));
                snapshot.values()
            },
        }
    }

    /// Return a cached token, or what a read-through came to if the watcher has not loaded one
    /// yet. `loaded` is the outcome of the store's lookup that may load the directory. An absent
    /// token is not cached, so the next lookup can observe its creation.
    pub fn get_or_load_token(&self, loaded: Result<Option<Arc<String>>, ScanError>) -> (r: Option<
        Arc<String>,
    >)
        ensures
            match self.store {
                None => r is None,
                Some(store) => match loaded {
                    Ok(token) => r == token,
                    Err(_) => exists|snapshot: Arc<TokenStore>| #[trigger]
                        call_ensures(S::snapshot, (&store,), snapshot) && shared_view(r)
                            == first_value(snapshot@),
                },
            },
    {
        match &self.store {
            None => None,
            Some(store) => match loaded {
                Ok(token) => token,
                Err(_) => {
                    // The watcher may have populated the cache while the read failed.
                    let snapshot: Arc<TokenStore> = store.snapshot();
                    assert(call_ensures(S::snapshot, (store,), snapshot));
                    snapshot.first()
                },
            },
        }
    }

    /// The token of a key.
    pub fn get_sandbox_token(&self, token_key: String) -> (r: Option<Arc<String>>)
        ensures
            match self.store {
                None => r is None,
                Some(store) => exists|snapshot: Arc<TokenStore>| #[trigger]
                    call_ensures(S::snapshot, (&store,), snapshot) && shared_view(r) == lookup(
                        snapshot@,
                        token_key@,
                    ),
            },
    {
        match &self.store {
            None => None,
            Some(store) => {
                let snapshot: Arc<TokenStore> = store.snapshot();
                assert(call_ensures(S::snapshot, (store,), snapshot));
                snapshot.get(&token_key)
            },
        }
    }

    /// Ends the watching, and hands out the task to abort.
    pub fn close(&mut self) -> (r: Option<T>)
        ensures
            r == old(self).watcher_task,
            final(self).watcher_task is None,
            final(self).store == old(self).store,
            final(self).state == old(self).state,
    {
        self.watcher_task.take()
    }
}

/// The key of a token file in any directory is its name without the extension, of any length.
pub proof fn keys_are_names_without_extension(
    directory: Seq<char>,
    id: Seq<char>,
    extension: Seq<char>,
)
    requires
        directory.len() == 0 || directory.last() == '/',
        id.len() > 0,
        id != seq!['.'],
        crate::paths::lacks(id, '/'),
        crate::paths::lacks(extension, '/'),
        crate::paths::lacks(extension, '.'),
    ensures
        file_stem(directory + (id + seq!['.'] + extension)) == Some(id),
{
    crate::paths::file_stems_drop_the_extension(directory, id, extension);
}

/// A token has four characters for every three bytes of the content, begun or whole.
pub proof fn tokens_are_a_third_longer(content: Seq<char>)
    ensures
        token_of(content).len() % 4 == 0,
        4 * encode_utf8(content).len() <= 3 * token_of(content).len() < 4 * encode_utf8(
            content,
        ).len() + 12,
        token_fits(content) <==> token_of(content).len() <= isize::MAX,
{
}

/// The watcher that started last is the one that watches; one that did not start changes nothing.
pub proof fn the_newest_watcher_watches<T>(starts: Seq<Option<T>>, task: T)
    ensures
        watching(starts.push(Some(task))) == Some(task),
        watching(starts.push(None)) == watching(starts),
        watching(Seq::<Option<T>>::empty()) is None,
        aborted(starts.push(None)) == aborted(starts),
{
    assert(starts.push(Some(task)).drop_last() =~= starts);
    assert(starts.push(None).drop_last() =~= starts);
    assert(aborted(starts.push(None)) =~= aborted(starts));
}

/// A start that went well brings its task, and one that did not brings none.
pub proof fn started_watchers_bring_their_task<S, T>(store: S, task: T, error: StartError)
    ensures
        task_of(Ok::<(S, T), StartError>((store, task))) == Some(task),
        task_of(Err::<(S, T), StartError>(error)) is None,
        forall|current: Option<T>|
            #![trigger replaced(current, Some(task))]
            replaced(current, Some(task)) == (Some(task), current),
        forall|current: Option<T>|
            #![trigger replaced(current, None)]
            replaced(current, None) == (current, None::<T>),
{
}

} // verus!
