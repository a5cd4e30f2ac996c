use std::path::{Path, PathBuf};

use ztunnel::admin::{
    begin, reply, Answer, BindAction, BindError, BindEvent, BindStage, ConnectionAction,
    ConnectionStage, Found, ListenerAction, ListenerStage, Reply, SocketCleanup, UnixServer,
    HEADER_READ_TIMEOUT_SECS, MAX_BUF_SIZE,
};

type Server = UnixServer<(), (), u8>;

fn after(events: &[BindEvent]) -> BindStage {
    let mut stage = Server::bind(Path::new("/run/private/admin.sock"));
    for event in events {
        stage = stage.next(*event);
    }
    stage
}

const CREATED: BindEvent = BindEvent::Created(true);

#[test]
fn only_absolute_paths_with_a_parent_are_bound() {
    let failed = |e| BindStage::Failed(e);
    assert_eq!(Server::bind(Path::new("admin.sock")), failed(BindError::NotAbsolute));
    assert_eq!(Server::bind(Path::new("")), failed(BindError::NotAbsolute));
    assert_eq!(Server::bind(Path::new("/")), failed(BindError::NoParent));
    assert_eq!(begin("//"), failed(BindError::NoParent));
    assert_eq!(begin("/."), failed(BindError::NoParent));
    assert_eq!(begin("/.."), BindStage::Creating);
    assert_eq!(begin("/a"), BindStage::Creating);
    assert_eq!(failed(BindError::NoParent).action(), BindAction::Fail(BindError::NoParent));
    for path in ["/", "//", "/.", "/..", "/a", "/a/", "/a/.", "/./."] {
        let creating = begin(path) == BindStage::Creating;
        assert_eq!(creating, Path::new(path).parent().is_some(), "{path}");
        assert_eq!(begin(path), Server::bind(Path::new(path)));
    }
}

#[test]
fn socket_permissions_cleanup_and_restart() {
    // A path that is free is bound at once.
    assert_eq!(after(&[]).action(), BindAction::CreateParent(0o700));
    assert_eq!(after(&[CREATED]).action(), BindAction::Inspect);
    let mut events = vec![CREATED, BindEvent::Inspected(Found::Nothing)];
    assert_eq!(after(&events).action(), BindAction::Listen);
    events.push(BindEvent::Listening(true));
    assert_eq!(after(&events).action(), BindAction::Identify);
    assert!(after(&events).cleanup(PathBuf::from("/x")).is_none());
    events.push(BindEvent::Identified(Some((3, 77))));
    assert_eq!(after(&events).action(), BindAction::Restrict(0o600));
    events.push(BindEvent::Restricted(true));
    assert_eq!(after(&events), BindStage::Bound(3, 77));
    assert_eq!(after(&events).action(), BindAction::Finish);
    let cleanup = after(&events).cleanup(PathBuf::from("/x")).unwrap();
    assert_eq!((cleanup.path, cleanup.dev, cleanup.ino), (PathBuf::from("/x"), 3, 77));

    // A socket in use is left alone.
    let mut events = vec![CREATED, BindEvent::Inspected(Found::Socket)];
    assert_eq!(after(&events).action(), BindAction::Probe(1));
    events.push(BindEvent::Probed(Answer::Accepted));
    assert_eq!(after(&events).action(), BindAction::Fail(BindError::InUse));

    // The file left after a process exits without cleanup is replaced.
    let mut events = vec![CREATED, BindEvent::Inspected(Found::Socket)];
    events.push(BindEvent::Probed(Answer::Refused));
    assert_eq!(after(&events).action(), BindAction::Remove);
    events.push(BindEvent::Removed(true));
    assert_eq!(after(&events).action(), BindAction::Listen);
}

#[test]
fn preserves_files_symlinks_and_replacements() {
    let stage = after(&[CREATED, BindEvent::Inspected(Found::Other)]);
    assert_eq!(stage.action(), BindAction::Fail(BindError::NotASocket));
    assert_eq!(stage.next(BindEvent::Removed(true)), stage);

    let cleanup = SocketCleanup { path: PathBuf::from("/x"), dev: 3, ino: 77 };
    assert!(cleanup.should_remove(Some((3, 77))));
    assert!(!cleanup.should_remove(Some((3, 78))));
    assert!(!cleanup.should_remove(Some((4, 77))));
    assert!(!cleanup.should_remove(Some((77, 3))));
    assert!(!cleanup.should_remove(None));
}

#[test]
fn every_step_of_binding_can_fail() {
    let socket = BindEvent::Inspected(Found::Socket);
    let free = BindEvent::Inspected(Found::Nothing);
    let listening = BindEvent::Listening(true);
    for (events, error) in [
        (vec![BindEvent::Created(false)], BindError::Directory),
        (vec![CREATED, BindEvent::Inspected(Found::Unknown)], BindError::Inspect),
        (vec![CREATED, socket, BindEvent::Probed(Answer::Failed)], BindError::Probe),
        (vec![CREATED, socket, BindEvent::Probed(Answer::TimedOut)], BindError::ProbeTimeout),
        (
            vec![CREATED, socket, BindEvent::Probed(Answer::Refused), BindEvent::Removed(false)],
            BindError::Remove,
        ),
        (vec![CREATED, free, BindEvent::Listening(false)], BindError::Listen),
        (vec![CREATED, free, listening, BindEvent::Identified(None)], BindError::Identify),
    ] {
        assert_eq!(after(&events).action(), BindAction::Fail(error));
        assert!(after(&events).cleanup(PathBuf::from("/x")).is_none());
    }
    // A socket that cannot be restricted is cleaned up.
    let identified = BindEvent::Identified(Some((3, 77)));
    let stage = after(&[CREATED, free, listening, identified, BindEvent::Restricted(false)]);
    assert_eq!(stage.action(), BindAction::Fail(BindError::Permissions));
    assert_eq!(stage.cleanup(PathBuf::from("/x")).unwrap().ino, 77);
}

#[test]
fn events_out_of_turn_change_nothing() {
    let stage = after(&[BindEvent::Listening(true), BindEvent::Removed(true)]);
    assert_eq!(stage, BindStage::Creating);
    let bound = BindStage::Bound(1, 2);
    assert_eq!(bound.next(BindEvent::Restricted(false)), bound);
}

#[test]
fn servers_come_from_bound_sockets() {
    let make = |stage| Server::bound("admin".to_string(), PathBuf::from("/x"), stage, (), (), 5);
    assert!(make(BindStage::Creating).is_none());
    assert!(make(BindStage::Exposed(1, 2)).is_none());
    let mut server = make(BindStage::Bound(1, 2)).unwrap();
    assert_eq!(server.name, "admin");
    assert_eq!((server.cleanup.dev, server.cleanup.ino), (1, 2));
    assert_eq!(*server.state_mut(), 5);
    *server.state_mut() = 6;
    assert_eq!(server.state, 6);
}

#[test]
fn listeners_stop_at_the_drain_or_a_failure() {
    let listening = ListenerStage::Listening;
    let closing = ListenerStage::Closing;
    assert_eq!(Server::spawn(listening, false, None), (listening, ListenerAction::Wait));
    assert_eq!(Server::spawn(listening, false, Some(true)), (listening, ListenerAction::Serve));
    for (drained, accepted) in [(false, Some(false)), (true, None), (true, Some(true))] {
        assert_eq!(Server::spawn(listening, drained, accepted), (closing, ListenerAction::Close));
    }
    let (stage, action) = Server::spawn(closing, true, Some(true));
    assert_eq!(action, ListenerAction::CleanUp);
    let (stage, action) = Server::spawn(stage, false, Some(true));
    assert_eq!((stage, action), (ListenerStage::Stopped, ListenerAction::Finish));
    assert_eq!(Server::spawn(stage, false, Some(true)), (stage, ListenerAction::Finish));
}

#[test]
fn connections_complete_their_requests() {
    let serving = ConnectionStage::Serving;
    let draining = ConnectionStage::Draining;
    let finished = ConnectionStage::Finished;
    assert_eq!(serving.next(false, false), (serving, ConnectionAction::Serve));
    assert_eq!(serving.next(false, true), (finished, ConnectionAction::Finish));
    assert_eq!(serving.next(true, false), (draining, ConnectionAction::ShutDownGracefully));
    assert_eq!(serving.next(true, true), (draining, ConnectionAction::ShutDownGracefully));
    assert_eq!(draining.next(true, false), (draining, ConnectionAction::Serve));
    assert_eq!(draining.next(true, true), (finished, ConnectionAction::Finish));
    assert_eq!(finished.next(true, false), (finished, ConnectionAction::Finish));
}

#[test]
fn failed_handlers_are_answered_with_an_error() {
    assert!(matches!(reply::<u8>(Ok(7)), Reply::Handled(7)));
    match reply::<u8>(Err("broken".to_string())) {
        Reply::Error { status, body } => assert_eq!((status, body.as_str()), (500, "broken")),
        other => panic!("{other:?}"),
    }
    assert_eq!(HEADER_READ_TIMEOUT_SECS, 2);
    assert_eq!(MAX_BUF_SIZE, 8 * 1024);
}
