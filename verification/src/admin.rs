//! The admin API's Unix socket: how it is bound, served and cleaned up.

use crate::paths::{absolute, has_parent, is_absolute, last_component, path_text, text_of_path};
use std::path::{Path, PathBuf};
use vstd::prelude::*;

verus! {

/// Access rights of the directory that the socket is in.
pub const DIRECTORY_MODE: u32 = 0o700;

/// Access rights of the socket.
pub const SOCKET_MODE: u32 = 0o600;

/// How long to wait for an existing socket to answer, in seconds.
pub const PROBE_TIMEOUT_SECS: u64 = 1;

/// How long to wait for a request's header, in seconds.
pub const HEADER_READ_TIMEOUT_SECS: u64 = 2;

/// Whether a client may close its half of a connection before it has its reply.
pub const HALF_CLOSE: bool = true;

/// The most bytes to buffer of a connection.
pub const MAX_BUF_SIZE: usize = 8192;

/// The status of a request whose handler failed.
pub const INTERNAL_SERVER_ERROR: u16 = 500;

/// The file that a socket was bound to, by its path and its identity.
#[derive(Debug)]
pub struct SocketCleanup {
    pub path: PathBuf,
    pub dev: u64,
    pub ino: u64,
}

impl SocketCleanup {
    /// Whether the file that is found at the path is to be removed. Never unlink a replacement
    /// created by another process.
    pub fn should_remove(&self, found: Option<(u64, u64)>) -> (r: bool)
        ensures
            r == (found == Some((self.dev, self.ino))),
    {
        match found {
            Some((dev, ino)) => dev == self.dev && ino == self.ino,
            None => false,
        }
    }
}

/// What is found at the socket's path.
#[derive(Clone, Copy, Debug, PartialEq, Eq, Structural)]
pub enum Found {
    Nothing,
    Socket,
    /// A file, a directory, a symbolic link or anything else that is no socket.
    Other,
    /// The path cannot be looked at.
    Unknown,
}

/// How an existing socket answers a connection.
#[derive(Clone, Copy, Debug, PartialEq, Eq, Structural)]
pub enum Answer {
    /// Nobody listens.
    Refused,
    /// Somebody listens.
    Accepted,
    /// The connection fails in another way.
    Failed,
    /// There is no answer in time.
    TimedOut,
}

/// Why a socket is not bound.
#[derive(Clone, Copy, Debug, PartialEq, Eq, Structural)]
pub enum BindError {
    /// The path is not absolute.
    NotAbsolute,
    /// The path has no parent.
    NoParent,
    /// The parent directory cannot be made.
    Directory,
    /// The path cannot be looked at.
    Inspect,
    /// There is something at the path that is no socket.
    NotASocket,
    /// An existing socket is in use.
    InUse,
    /// An existing socket could not be probed.
    Probe,
    /// An existing socket did not answer in time.
    ProbeTimeout,
    /// A stale socket cannot be removed.
    Remove,
    /// The socket cannot be bound.
    Listen,
    /// The bound socket cannot be identified.
    Identify,
    /// The socket's access rights cannot be set.
    Permissions,
}

/// How far binding has come.
#[derive(Clone, Copy, Debug, PartialEq, Eq, Structural)]
pub enum BindStage {
    /// The parent directory is being made.
    Creating,
    /// The path is being looked at.
    Inspecting,
    /// An existing socket is being probed.
    Probing,
    /// A stale socket is being removed.
    Removing,
    /// The socket is being bound.
    Listening,
    /// The bound socket is being identified.
    Identifying,
    /// The access rights of the socket with this identity are being set.
    Restricting(u64, u64),
    /// The socket with this identity is bound.
    Bound(u64, u64),
    /// The access rights of the socket with this identity could not be set.
    Exposed(u64, u64),
    Failed(BindError),
}

/// What binding is told.
#[derive(Clone, Copy, Debug, PartialEq, Eq)]
pub enum BindEvent {
    /// The parent directory is there, or could not be made.
    Created(bool),
    /// The path has been looked at.
    Inspected(Found),
    /// An existing socket has been probed.
    Probed(Answer),
    /// The stale socket is gone, or could not be removed.
    Removed(bool),
    /// The socket is bound, or could not be.
    Listening(bool),
    /// The bound socket's device and inode, if it could be identified.
    Identified(Option<(u64, u64)>),
    /// The access rights are set, or could not be.
    Restricted(bool),
}

/// What binding does next.
#[derive(Clone, Copy, Debug, PartialEq, Eq, Structural)]
pub enum BindAction {
    /// Make the parent directory, and those above it, with these access rights.
    CreateParent(u32),
    /// Look at the path, without following a symbolic link.
    Inspect,
    /// Connect to the socket at the path, for so many seconds.
    Probe(u64),
    /// Remove the socket at the path.
    Remove,
    /// Bind a listener to the path.
    Listen,
    /// Look up the identity of the file at the path.
    Identify,
    /// Set these access rights on the socket.
    Restrict(u32),
    /// Nothing more: the socket is bound.
    Finish,
    /// Give up.
    Fail(BindError),
}

/// The next stage, from how a step went.
pub open spec fn ok_or(ok: bool, next: BindStage, error: BindError) -> BindStage {
    if ok {
        next
    } else {
        BindStage::Failed(error)
    }
}

impl BindStage {
    /// The stage after an event; what does not belong to the stage changes nothing.
    pub open spec fn after(self, event: BindEvent) -> BindStage {
        match (self, event) {
            (BindStage::Creating, BindEvent::Created(ok)) => ok_or(
                ok,
                BindStage::Inspecting,
                BindError::Directory,
            ),
            (BindStage::Inspecting, BindEvent::Inspected(found)) => match found {
                Found::Nothing => BindStage::Listening,
                Found::Socket => BindStage::Probing,
                Found::Other => BindStage::Failed(BindError::NotASocket),
                Found::Unknown => BindStage::Failed(BindError::Inspect),
            },
            (BindStage::Probing, BindEvent::Probed(answer)) => match answer {
                Answer::Refused => BindStage::Removing,
                Answer::Accepted => BindStage::Failed(BindError::InUse),
                Answer::Failed => BindStage::Failed(BindError::Probe),
                Answer::TimedOut => BindStage::Failed(BindError::ProbeTimeout),
            },
            (BindStage::Removing, BindEvent::Removed(ok)) => ok_or(
                ok,
                BindStage::Listening,
                BindError::Remove,
            ),
            (BindStage::Listening, BindEvent::Listening(ok)) => ok_or(
                ok,
                BindStage::Identifying,
                BindError::Listen,
            ),
            (BindStage::Identifying, BindEvent::Identified(identity)) => match identity {
                Some((dev, ino)) => BindStage::Restricting(dev, ino),
                None => BindStage::Failed(BindError::Identify),
            },
            (BindStage::Restricting(dev, ino), BindEvent::Restricted(ok)) => if ok {
                BindStage::Bound(dev, ino)
            } else {
                BindStage::Exposed(dev, ino)
            },
            _ => self,
        }
    }

    /// What is done at a stage.
    pub open spec fn action_spec(self) -> BindAction {
        match self {
            BindStage::Creating => BindAction::CreateParent(DIRECTORY_MODE),
            BindStage::Inspecting => BindAction::Inspect,
            BindStage::Probing => BindAction::Probe(PROBE_TIMEOUT_SECS),
            BindStage::Removing => BindAction::Remove,
            BindStage::Listening => BindAction::Listen,
            BindStage::Identifying => BindAction::Identify,
            BindStage::Restricting(_, _) => BindAction::Restrict(SOCKET_MODE),
            BindStage::Bound(_, _) => BindAction::Finish,
            BindStage::Exposed(_, _) => BindAction::Fail(BindError::Permissions),
            BindStage::Failed(e) => BindAction::Fail(e),
        }
    }

    /// The identity of the socket that is bound by now, once it is known.
    pub open spec fn identity(self) -> Option<(u64, u64)> {
        match self {
            BindStage::Restricting(dev, ino) => Some((dev, ino)),
            BindStage::Bound(dev, ino) => Some((dev, ino)),
            BindStage::Exposed(dev, ino) => Some((dev, ino)),
            _ => None,
        }
    }

    /// What there is to clean up at a stage, however binding goes on: the socket at `path`, once
    /// its identity is known.
    pub fn cleanup(self, path: PathBuf) -> (r: Option<SocketCleanup>)
        ensures
            r == (match self.identity() {
                Some((dev, ino)) => Some(SocketCleanup { path, dev, ino }),
                None => None,
            }),
    {
        match self {
            BindStage::Restricting(dev, ino) => Some(SocketCleanup { path, dev, ino }),
            BindStage::Bound(dev, ino) => Some(SocketCleanup { path, dev, ino }),
            BindStage::Exposed(dev, ino) => Some(SocketCleanup { path, dev, ino }),
            _ => None,
        }
    }

    /// What is done at a stage.
    pub fn action(self) -> (r: BindAction)
        ensures
            r == self.action_spec(),
    {
        match self {
            BindStage::Creating => BindAction::CreateParent(DIRECTORY_MODE),
            BindStage::Inspecting => BindAction::Inspect,
            BindStage::Probing => BindAction::Probe(PROBE_TIMEOUT_SECS),
            BindStage::Removing => BindAction::Remove,
            BindStage::Listening => BindAction::Listen,
            BindStage::Identifying => BindAction::Identify,
            BindStage::Restricting(_, _) => BindAction::Restrict(SOCKET_MODE),
            BindStage::Bound(_, _) => BindAction::Finish,
            BindStage::Exposed(_, _) => BindAction::Fail(BindError::Permissions),
            BindStage::Failed(e) => BindAction::Fail(e),
        }
    }

    /// The stage after an event.
    pub fn next(self, event: BindEvent) -> (r: BindStage)
        ensures
            r == self.after(event),
    {
        match (self, event) {
            (BindStage::Creating, BindEvent::Created(ok)) => stage_after(
                ok,
                BindStage::Inspecting,
                BindError::Directory,
            ),
            (BindStage::Inspecting, BindEvent::Inspected(found)) => match found {
                Found::Nothing => BindStage::Listening,
                Found::Socket => BindStage::Probing,
                Found::Other => BindStage::Failed(BindError::NotASocket),
                Found::Unknown => BindStage::Failed(BindError::Inspect),
            },
            (BindStage::Probing, BindEvent::Probed(answer)) => match answer {
                Answer::Refused => BindStage::Removing,
                Answer::Accepted => BindStage::Failed(BindError::InUse),
                Answer::Failed => BindStage::Failed(BindError::Probe),
                Answer::TimedOut => BindStage::Failed(BindError::ProbeTimeout),
            },
            (BindStage::Removing, BindEvent::Removed(ok)) => stage_after(
                ok,
                BindStage::Listening,
                BindError::Remove,
            ),
            (BindStage::Listening, BindEvent::Listening(ok)) => stage_after(
                ok,
                BindStage::Identifying,
                BindError::Listen,
            ),
            (BindStage::Identifying, BindEvent::Identified(identity)) => match identity {
                Some((dev, ino)) => BindStage::Restricting(dev, ino),
                None => BindStage::Failed(BindError::Identify),
            },
            (BindStage::Restricting(dev, ino), BindEvent::Restricted(ok)) => {
                if ok {
                    BindStage::Bound(dev, ino)
                } else {
                    BindStage::Exposed(dev, ino)
                }
            },
            _ => self,
        }
    }
}

/// The next stage, from how a step went.
fn stage_after(ok: bool, next: BindStage, error: BindError) -> (r: BindStage)
    ensures
        r == ok_or(ok, next, error),
{
    if ok {
        next
    } else {
        BindStage::Failed(error)
    }
}

/// Where binding a path begins: only an absolute path with a parent gets anywhere.
pub open spec fn first_stage(path: Seq<char>) -> BindStage {
    if !absolute(path) {
        BindStage::Failed(BindError::NotAbsolute)
    } else if last_component(path) is None {
        BindStage::Failed(BindError::NoParent)
    } else {
        BindStage::Creating
    }
}

/// A server on the admin socket: `L` listens, `W` tells when to drain, and `S` is what requests
/// are handled with.
pub struct UnixServer<L, W, S> {
    pub name: String,
    pub listener: L,
    pub cleanup: SocketCleanup,
    pub drain_rx: W,
    pub state: S,
}

/// Where binding a path begins, from the path's text.
pub fn begin(path: &str) -> (r: BindStage)
    ensures
        r == first_stage(path@),
{
    if !is_absolute(path) {
        BindStage::Failed(BindError::NotAbsolute)
    } else if !has_parent(path) {
        BindStage::Failed(BindError::NoParent)
    } else {
        BindStage::Creating
    }
}

impl<L, W, S> UnixServer<L, W, S> {
    /// Where binding a path begins. Bind only a filesystem socket. The parent directory must be
    /// private to the sidecar; do not share it with application containers.
    pub fn bind(path: &Path) -> (r: BindStage)
        ensures
            r == first_stage(path_text(path)),
    {
        begin(text_of_path(path).as_str())
    }

    /// The server for a bound socket; nothing but a bound socket has one.
    pub fn bound(
        name: String,
        path: PathBuf,
        stage: BindStage,
        listener: L,
        drain_rx: W,
        state: S,
    ) -> (r: Option<UnixServer<L, W, S>>)
        ensures
            match stage {
                BindStage::Bound(dev, ino) => r == Some(
                    UnixServer {
                        name,
                        listener,
                        cleanup: SocketCleanup { path, dev, ino },
                        drain_rx,
                        state,
                    },
                ),
                _ => r is None,
            },
    {
        match stage {
            BindStage::Bound(dev, ino) => Some(
                UnixServer {
                    name,
                    listener,
                    cleanup: SocketCleanup { path, dev, ino },
                    drain_rx,
                    state,
                },
            ),
            _ => None,
        }
    }

    /// What requests are handled with.
    pub fn state_mut(&mut self) -> (r: &mut S)
        ensures
            *r == old(self).state,
            *final(self) == (UnixServer { state: *final(r), ..*old(self) }),
    {
        &mut self.state
    }

    /// The next step of serving on the socket: where the listener stands then, and what is done.
    pub fn spawn(stage: ListenerStage, drained: bool, accepted: Option<bool>) -> (r: (
        ListenerStage,
        ListenerAction,
    ))
        ensures
            r == stage.after(drained, accepted),
    {
        match stage {
            ListenerStage::Listening => {
                if drained {
                    return (ListenerStage::Closing, ListenerAction::Close);
                }
                match accepted {
                    None => (ListenerStage::Listening, ListenerAction::Wait),
                    Some(ok) => {
                        if ok {
                            (ListenerStage::Listening, ListenerAction::Serve)
                        } else {
                            (ListenerStage::Closing, ListenerAction::Close)
                        }
                    },
                }
            },
            ListenerStage::Closing => (ListenerStage::CleaningUp, ListenerAction::CleanUp),
            ListenerStage::CleaningUp => (ListenerStage::Stopped, ListenerAction::Finish),
            ListenerStage::Stopped => (ListenerStage::Stopped, ListenerAction::Finish),
        }
    }
}

/// Where a listener stands.
#[derive(Clone, Copy, Debug, PartialEq, Eq, Structural)]
pub enum ListenerStage {
    /// Connections are being accepted.
    Listening,
    /// The listener is being closed.
    Closing,
    /// The socket's file is being cleaned up.
    CleaningUp,
    Stopped,
}

/// What a listener does next.
#[derive(Clone, Copy, Debug, PartialEq, Eq, Structural)]
pub enum ListenerAction {
    /// Wait for a connection or for the drain.
    Wait,
    /// Serve the connection that was accepted.
    Serve,
    /// Close the listener.
    Close,
    /// Clean up the socket's file.
    CleanUp,
    /// Nothing more.
    Finish,
}

impl ListenerStage {
    /// The stage that comes next, and what is done about it, given whether the drain has begun
    /// and how accepting went, if it is over. The drain goes before a connection that is accepted
    /// at the same time, and a listener that fails to accept stops.
    pub open spec fn after(self, drained: bool, accepted: Option<bool>) -> (
        ListenerStage,
        ListenerAction,
    ) {
        match self {
            ListenerStage::Listening => if drained || accepted == Some(false) {
                (ListenerStage::Closing, ListenerAction::Close)
            } else if accepted == Some(true) {
                (ListenerStage::Listening, ListenerAction::Serve)
            } else {
                (ListenerStage::Listening, ListenerAction::Wait)
            },
            ListenerStage::Closing => (ListenerStage::CleaningUp, ListenerAction::CleanUp),
            ListenerStage::CleaningUp => (ListenerStage::Stopped, ListenerAction::Finish),
            ListenerStage::Stopped => (ListenerStage::Stopped, ListenerAction::Finish),
        }
    }
}

/// Where a connection stands.
#[derive(Clone, Copy, Debug, PartialEq, Eq, Structural)]
pub enum ConnectionStage {
    /// Requests are being served.
    Serving,
    /// Pending requests are being completed.
    Draining,
    Finished,
}

/// What a connection does next.
#[derive(Clone, Copy, Debug, PartialEq, Eq, Structural)]
pub enum ConnectionAction {
    /// Serve on.
    Serve,
    /// Take no more requests, and complete those that are pending.
    ShutDownGracefully,
    /// Close.
    Finish,
}

impl ConnectionStage {
    /// The stage that comes next, and what is done about it, given whether the drain has begun
    /// and whether serving is over. The drain goes first.
    pub open spec fn after(self, drained: bool, served: bool) -> (
        ConnectionStage,
        ConnectionAction,
    ) {
        match self {
            ConnectionStage::Serving => if drained {
                (ConnectionStage::Draining, ConnectionAction::ShutDownGracefully)
            } else if served {
                (ConnectionStage::Finished, ConnectionAction::Finish)
            } else {
                (ConnectionStage::Serving, ConnectionAction::Serve)
            },
            ConnectionStage::Draining => if served {
                (ConnectionStage::Finished, ConnectionAction::Finish)
            } else {
                (ConnectionStage::Draining, ConnectionAction::Serve)
            },
            ConnectionStage::Finished => (ConnectionStage::Finished, ConnectionAction::Finish),
        }
    }

    /// The stage that comes next, and what is done about it.
    pub fn next(self, drained: bool, served: bool) -> (r: (ConnectionStage, ConnectionAction))
        ensures
            r == self.after(drained, served),
    {
        match self {
            ConnectionStage::Serving => {
                if drained {
                    (ConnectionStage::Draining, ConnectionAction::ShutDownGracefully)
                } else if served {
                    (ConnectionStage::Finished, ConnectionAction::Finish)
                } else {
                    (ConnectionStage::Serving, ConnectionAction::Serve)
                }
            },
            ConnectionStage::Draining => {
                if served {
                    (ConnectionStage::Finished, ConnectionAction::Finish)
                } else {
                    (ConnectionStage::Draining, ConnectionAction::Serve)
                }
            },
            ConnectionStage::Finished => (ConnectionStage::Finished, ConnectionAction::Finish),
        }
    }
}

/// What a request is answered.
#[derive(Debug)]
pub enum Reply<R> {
    /// What its handler says.
    Handled(R),
    /// An error, with its text for a body.
    Error { status: u16, body: String },
}

/// What a request is answered. Failures would abort the whole connection; we just want to return
/// an HTTP error.
pub fn reply<R>(handled: Result<R, String>) -> (r: Reply<R>)
    ensures
        match handled {
            Ok(response) => r == Reply::Handled(response),
            Err(text) => r == Reply::<R>::Error { status: 500, body: text },
        },
{
    match handled {
        Ok(response) => Reply::Handled(response),
        Err(text) => Reply::Error { status: INTERNAL_SERVER_ERROR, body: text },
    }
}

/// The stage that a series of events leads to.
pub open spec fn stage_reached(path: Seq<char>, events: Seq<BindEvent>) -> BindStage
    decreases events.len(),
{
    if events.len() == 0 {
        first_stage(path)
    } else {
        stage_reached(path, events.drop_last()).after(events.last())
    }
}

/// Whether an event is among others.
pub open spec fn seen(events: Seq<BindEvent>, event: BindEvent) -> bool {
    exists|i: int| 0 <= i < events.len() && #[trigger] events[i] == event
}

/// What has been seen stays seen.
proof fn seen_before(events: Seq<BindEvent>, event: BindEvent)
    requires
        events.len() > 0,
        seen(events.drop_last(), event),
    ensures
        seen(events, event),
{
    let i = choose|i: int|
        0 <= i < events.drop_last().len() && #[trigger] events.drop_last()[i] == event;
    assert(events[i] == event);
}

/// Each stage tells what has been seen on the way to it.
proof fn stages_remember(path: Seq<char>, events: Seq<BindEvent>)
    ensures
        ({
            let stage = stage_reached(path, events);
            &&& !(stage is Failed) ==> absolute(path) && last_component(path) is Some
            &&& stage is Inspecting ==> seen(events, BindEvent::Created(true))
            &&& stage is Probing ==> seen(events, BindEvent::Created(true)) && seen(
                events,
                BindEvent::Inspected(Found::Socket),
            )
            &&& stage is Removing ==> seen(events, BindEvent::Created(true)) && seen(
                events,
                BindEvent::Inspected(Found::Socket),
            ) && seen(events, BindEvent::Probed(Answer::Refused))
            &&& (stage is Listening || stage is Identifying || stage is Restricting
                || stage is Bound || stage is Exposed) ==> seen(events, BindEvent::Created(true))
                && path_is_free(events)
            &&& (stage is Identifying || stage is Restricting || stage is Bound
                || stage is Exposed) ==> seen(
                events,
                BindEvent::Listening(true),
            )
            &&& stage matches BindStage::Restricting(dev, ino) ==> seen(
                events,
                BindEvent::Identified(Some((dev, ino))),
            )
            &&& stage matches BindStage::Bound(dev, ino) ==> seen(
                events,
                BindEvent::Identified(Some((dev, ino))),
            ) && seen(events, BindEvent::Restricted(true))
        }),
    decreases events.len(),
{
    if events.len() > 0 {
        let front = events.drop_last();
        let last = events.last();
        stages_remember(path, front);
        assert(events[events.len() - 1] == last);
        assert(seen(events, last));
        assert forall|event: BindEvent| #[trigger] seen(front, event) implies seen(events, event) by {
            seen_before(events, event);
        }
    }
}

/// Whether the path has been found free: with nothing at it, or with a socket that nobody listens
/// on and that is gone now.
pub open spec fn path_is_free(events: Seq<BindEvent>) -> bool {
    seen(events, BindEvent::Inspected(Found::Nothing)) || (seen(
        events,
        BindEvent::Inspected(Found::Socket),
    ) && seen(events, BindEvent::Probed(Answer::Refused)) && seen(events, BindEvent::Removed(true)))
}

/// Only a stale socket is ever removed: binding removes the file at the path only after it was
/// found to be a socket and to refuse connections. Files, symbolic links and sockets in use stay.
pub proof fn only_stale_sockets_are_removed(path: Seq<char>, events: Seq<BindEvent>)
    requires
        stage_reached(path, events).action_spec() == BindAction::Remove,
    ensures
        seen(events, BindEvent::Inspected(Found::Socket)),
        seen(events, BindEvent::Probed(Answer::Refused)),
{
    stages_remember(path, events);
}

/// Nothing is bound over: a listener is bound only in a directory that has been made, at an
/// absolute path that has been found free.
pub proof fn listeners_bind_free_paths(path: Seq<char>, events: Seq<BindEvent>)
    requires
        stage_reached(path, events).action_spec() == BindAction::Listen,
    ensures
        absolute(path),
        last_component(path) is Some,
        seen(events, BindEvent::Created(true)),
        path_is_free(events),
{
    stages_remember(path, events);
}

/// A socket that is bound listens, has its access rights restricted, and is known by the identity
/// that was looked up.
pub proof fn bound_sockets_are_private(path: Seq<char>, events: Seq<BindEvent>)
    requires
        stage_reached(path, events) is Bound,
    ensures
        seen(events, BindEvent::Created(true)),
        seen(events, BindEvent::Listening(true)),
        seen(events, BindEvent::Restricted(true)),
        stage_reached(path, events) matches BindStage::Bound(dev, ino) && seen(
            events,
            BindEvent::Identified(Some((dev, ino))),
        ),
{
    stages_remember(path, events);
}

/// A failure is final, and so is success.
pub proof fn binding_ends(path: Seq<char>, events: Seq<BindEvent>, event: BindEvent)
    requires
        stage_reached(path, events).action_spec() is Fail || stage_reached(
            path,
            events,
        ).action_spec() is Finish,
    ensures
        stage_reached(path, events.push(event)) == stage_reached(path, events),
{
    assert(events.push(event).drop_last() =~= events);
}

/// What was bound is known until the end: once a socket's identity is known, no event takes it
/// away, so the socket is cleaned up also where binding fails later.
pub proof fn identities_stay_known(path: Seq<char>, events: Seq<BindEvent>, event: BindEvent)
    requires
        stage_reached(path, events).identity() is Some,
    ensures
        stage_reached(path, events.push(event)).identity() == stage_reached(
            path,
            events,
        ).identity(),
{
    assert(events.push(event).drop_last() =~= events);
}

/// A listener that stops serves nothing more: it is closed first, then its file is cleaned up,
/// and it never listens again.
pub proof fn stopped_listeners_serve_nothing(
    stage: ListenerStage,
    drained: bool,
    accepted: Option<bool>,
)
    ensures
        stage != ListenerStage::Listening ==> {
            &&& stage.after(drained, accepted).0 != ListenerStage::Listening
            &&& stage.after(drained, accepted).1 != ListenerAction::Serve
        },
        stage.after(drained, accepted).0 == ListenerStage::Closing ==> stage.after(
            drained,
            accepted,
        ).1 == ListenerAction::Close,
        stage.after(drained, accepted).1 == ListenerAction::CleanUp <==> stage
            == ListenerStage::Closing,
        stage.after(drained, accepted).1 == ListenerAction::Serve ==> !drained && accepted == Some(
            true,
        ),
{
}

/// Where a connection stands after a series of looks at whether the drain has begun and whether
/// serving is over.
pub open spec fn connection_reached(looks: Seq<(bool, bool)>) -> ConnectionStage
    decreases looks.len(),
{
    if looks.len() == 0 {
        ConnectionStage::Serving
    } else {
        connection_reached(looks.drop_last()).after(looks.last().0, looks.last().1).0
    }
}

/// Pending requests are completed: a connection finishes only when serving is over, whether or
/// not the drain has begun.
pub proof fn connections_complete(looks: Seq<(bool, bool)>)
    requires
        connection_reached(looks) is Finished,
    ensures
        exists|i: int| 0 <= i < looks.len() && (#[trigger] looks[i]).1,
    decreases looks.len(),
{
    let front = looks.drop_last();
    if connection_reached(front) is Finished {
        connections_complete(front);
        let i = choose|i: int| 0 <= i < front.len() && (#[trigger] front[i]).1;
        assert(looks[i].1);
    } else {
        assert(looks[looks.len() - 1].1);
    }
}

/// A connection is shut down once: from then on it drains or is finished, and is not told again.
pub proof fn connections_shut_down_once(stage: ConnectionStage, drained: bool, served: bool)
    requires
        !(stage is Serving),
    ensures
        stage.after(drained, served).1 != ConnectionAction::ShutDownGracefully,
        !(stage.after(drained, served).0 is Serving),
{
}

/// A path is bound exactly where it begins with a separator and has a component; a path that does
/// not begin with one is told so first.
pub proof fn absolute_paths_with_a_name_are_bound(path: Seq<char>)
    ensures
        match first_stage(path) {
            BindStage::Creating => path.len() > 0 && path[0] == '/' && last_component(path) is Some,
            BindStage::Failed(BindError::NotAbsolute) => path.len() == 0 || path[0] != '/',
            BindStage::Failed(BindError::NoParent) => path.len() > 0 && path[0] == '/'
                && last_component(path) is None,
            _ => false,
        },
{
}

/// Any name in any absolute directory can be bound, of any length.
pub proof fn any_name_can_be_bound(directory: Seq<char>, name: Seq<char>)
    requires
        directory.len() > 0,
        directory[0] == '/',
        directory.last() == '/',
        name.len() > 0,
        name != seq!['.'],
        crate::paths::lacks(name, '/'),
    ensures
        first_stage(directory + name) == BindStage::Creating,
{
    crate::paths::the_last_name_is_the_last_component(directory, name);
}

/// A path with nothing at it is bound when every step goes well, and the socket is known by the
/// very identity that was looked up.
pub proof fn free_paths_are_bound(path: Seq<char>, dev: u64, ino: u64)
    requires
        first_stage(path) == BindStage::Creating,
    ensures
        stage_reached(
            path,
            seq![
                BindEvent::Created(true),
                BindEvent::Inspected(Found::Nothing),
                BindEvent::Listening(true),
                BindEvent::Identified(Some((dev, ino))),
                BindEvent::Restricted(true),
            ],
        ) == BindStage::Bound(dev, ino),
{
    reveal_with_fuel(stage_reached, 6);
    let e = seq![
        BindEvent::Created(true),
        BindEvent::Inspected(Found::Nothing),
        BindEvent::Listening(true),
        BindEvent::Identified(Some((dev, ino))),
        BindEvent::Restricted(true),
    ];
    assert(e.drop_last() =~= e.take(4));
    assert(e.take(4).drop_last() =~= e.take(3));
    assert(e.take(3).drop_last() =~= e.take(2));
    assert(e.take(2).drop_last() =~= e.take(1));
    assert(e.take(1).drop_last() =~= e.take(0));
}

/// A stale socket makes way for a new one when every step goes well.
pub proof fn stale_sockets_make_way(path: Seq<char>, dev: u64, ino: u64)
    requires
        first_stage(path) == BindStage::Creating,
    ensures
        stage_reached(
            path,
            seq![
                BindEvent::Created(true),
                BindEvent::Inspected(Found::Socket),
                BindEvent::Probed(Answer::Refused),
                BindEvent::Removed(true),
                BindEvent::Listening(true),
                BindEvent::Identified(Some((dev, ino))),
                BindEvent::Restricted(true),
            ],
        ) == BindStage::Bound(dev, ino),
{
    reveal_with_fuel(stage_reached, 8);
    let e = seq![
        BindEvent::Created(true),
        BindEvent::Inspected(Found::Socket),
        BindEvent::Probed(Answer::Refused),
        BindEvent::Removed(true),
        BindEvent::Listening(true),
        BindEvent::Identified(Some((dev, ino))),
        BindEvent::Restricted(true),
    ];
    assert(e.drop_last() =~= e.take(6));
    assert(e.take(6).drop_last() =~= e.take(5));
    assert(e.take(5).drop_last() =~= e.take(4));
    assert(e.take(4).drop_last() =~= e.take(3));
    assert(e.take(3).drop_last() =~= e.take(2));
    assert(e.take(2).drop_last() =~= e.take(1));
    assert(e.take(1).drop_last() =~= e.take(0));
}

/// What is found at a path, and how a socket there answers, that binding does not go on from.
pub proof fn occupied_paths_are_not_bound(found: Found, answer: Answer)
    ensures
        found == Found::Other ==> BindStage::Inspecting.after(BindEvent::Inspected(found))
            == BindStage::Failed(BindError::NotASocket),
        found == Found::Unknown ==> BindStage::Inspecting.after(BindEvent::Inspected(found))
            == BindStage::Failed(BindError::Inspect),
        answer == Answer::Accepted ==> BindStage::Probing.after(BindEvent::Probed(answer))
            == BindStage::Failed(BindError::InUse),
        answer == Answer::Failed ==> BindStage::Probing.after(BindEvent::Probed(answer))
            == BindStage::Failed(BindError::Probe),
        answer == Answer::TimedOut ==> BindStage::Probing.after(BindEvent::Probed(answer))
            == BindStage::Failed(BindError::ProbeTimeout),
{
}

/// A step that does not go well ends binding, with the error of that step; a socket whose access
/// rights cannot be set is still known by its identity.
pub proof fn failed_steps_end_binding(dev: u64, ino: u64)
    ensures
        BindStage::Creating.after(BindEvent::Created(false)) == BindStage::Failed(
            BindError::Directory,
        ),
        BindStage::Removing.after(BindEvent::Removed(false)) == BindStage::Failed(
            BindError::Remove,
        ),
        BindStage::Listening.after(BindEvent::Listening(false)) == BindStage::Failed(
            BindError::Listen,
        ),
        BindStage::Identifying.after(BindEvent::Identified(None)) == BindStage::Failed(
            BindError::Identify,
        ),
        ({
            let exposed = BindStage::Restricting(dev, ino).after(BindEvent::Restricted(false));
            &&& exposed.action_spec() == BindAction::Fail(BindError::Permissions)
            &&& exposed.identity() == Some((dev, ino))
        }),
{
}

/// What is done at each stage, with a directory for the owner alone, a socket that the owner alone
/// reads and writes, and a second for an existing socket to answer.
pub proof fn each_stage_has_its_action(dev: u64, ino: u64, error: BindError)
    ensures
        BindStage::Creating.action_spec() == BindAction::CreateParent(0o700),
        BindStage::Inspecting.action_spec() == BindAction::Inspect,
        BindStage::Probing.action_spec() == BindAction::Probe(1),
        BindStage::Removing.action_spec() == BindAction::Remove,
        BindStage::Listening.action_spec() == BindAction::Listen,
        BindStage::Identifying.action_spec() == BindAction::Identify,
        BindStage::Restricting(dev, ino).action_spec() == BindAction::Restrict(0o600),
        BindStage::Bound(dev, ino).action_spec() == BindAction::Finish,
        BindStage::Failed(error).action_spec() == BindAction::Fail(error),
{
}

/// The identity of a socket is known from its lookup on, and is the one that was looked up.
pub proof fn identities_are_those_looked_up(stage: BindStage, dev: u64, ino: u64)
    ensures
        BindStage::Identifying.after(BindEvent::Identified(Some((dev, ino)))).identity() == Some(
            (dev, ino),
        ),
        stage.identity() == Some((dev, ino)) <==> stage == BindStage::Restricting(dev, ino) || stage
            == BindStage::Bound(dev, ino) || stage == BindStage::Exposed(dev, ino),
{
}

/// A listener serves each connection that it accepts until the drain begins or accepting fails,
/// and waits while there is none.
pub proof fn listeners_serve_until_the_drain(drained: bool, accepted: Option<bool>)
    ensures
        ListenerStage::Listening.after(drained, accepted).1 == ListenerAction::Serve <==> !drained
            && accepted == Some(true),
        ListenerStage::Listening.after(drained, accepted).1 == ListenerAction::Wait <==> !drained
            && accepted is None,
        ListenerStage::Listening.after(drained, accepted).1 == ListenerAction::Close <==> drained
            || accepted == Some(false),
        ListenerStage::Listening.after(drained, accepted).0 == ListenerStage::Listening
            <==> !drained && accepted != Some(false),
        ListenerStage::Closing.after(drained, accepted) == (
            ListenerStage::CleaningUp,
            ListenerAction::CleanUp,
        ),
        ListenerStage::CleaningUp.after(drained, accepted) == (
            ListenerStage::Stopped,
            ListenerAction::Finish,
        ),
        ListenerStage::Stopped.after(drained, accepted) == (
            ListenerStage::Stopped,
            ListenerAction::Finish,
        ),
{
    match accepted {
        Some(true) => {},
        Some(false) => {},
        None => {},
    }
}

/// A connection is served until it is over; a drain that begins before has it shut down gracefully
/// first.
pub proof fn connections_are_served_until_they_are_over(drained: bool, served: bool)
    ensures
        ConnectionStage::Serving.after(drained, served).1 == ConnectionAction::ShutDownGracefully
            <==> drained,
        ConnectionStage::Serving.after(drained, served).0 == ConnectionStage::Draining <==> drained,
        ConnectionStage::Serving.after(drained, served).1 == ConnectionAction::Finish <==> !drained
            && served,
        ConnectionStage::Serving.after(drained, served).0 == ConnectionStage::Finished <==> !drained
            && served,
        ConnectionStage::Draining.after(drained, served).1 == ConnectionAction::Finish <==> served,
        ConnectionStage::Draining.after(drained, served).0 == ConnectionStage::Finished <==> served,
        ConnectionStage::Draining.after(drained, served).0 == ConnectionStage::Draining
            <==> !served,
        ConnectionStage::Finished.after(drained, served) == (
            ConnectionStage::Finished,
            ConnectionAction::Finish,
        ),
{
}

/// What binding is told out of turn changes nothing: each stage listens to one sort of event.
pub proof fn events_out_of_turn_change_nothing(stage: BindStage, event: BindEvent)
    requires
        !(stage is Creating && event is Created),
        !(stage is Inspecting && event is Inspected),
        !(stage is Probing && event is Probed),
        !(stage is Removing && event is Removed),
        !(stage is Listening && event is Listening),
        !(stage is Identifying && event is Identified),
        !(stage is Restricting && event is Restricted),
    ensures
        stage.after(event) == stage,
{
}

/// Each step that goes well leads to the next.
pub proof fn good_steps_lead_on(dev: u64, ino: u64)
    ensures
        BindStage::Creating.after(BindEvent::Created(true)) == BindStage::Inspecting,
        BindStage::Inspecting.after(BindEvent::Inspected(Found::Nothing)) == BindStage::Listening,
        BindStage::Inspecting.after(BindEvent::Inspected(Found::Socket)) == BindStage::Probing,
        BindStage::Probing.after(BindEvent::Probed(Answer::Refused)) == BindStage::Removing,
        BindStage::Removing.after(BindEvent::Removed(true)) == BindStage::Listening,
        BindStage::Listening.after(BindEvent::Listening(true)) == BindStage::Identifying,
        BindStage::Identifying.after(BindEvent::Identified(Some((dev, ino))))
            == BindStage::Restricting(dev, ino),
        BindStage::Restricting(dev, ino).after(BindEvent::Restricted(true)) == BindStage::Bound(
            dev,
            ino,
        ),
{
}

} // verus!
