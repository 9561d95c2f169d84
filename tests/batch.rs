use hypr_workspace_manager::hypr::{Hypr, Workspace, BATCH};
use hypr_workspace_manager::path_builder::PathBuilder;
use hypr_workspace_manager::registry::{Registry, RegistryError};
use hypr_workspace_manager::request::Request;
use hypr_workspace_manager::server::Action;

/// Feeds one message to the registry, as a connection does.
fn feed(reg: &mut Registry, hypr: &mut Hypr, line: &str) -> Result<Action, RegistryError> {
    let q = Request::decode(line).unwrap();
    if q.changes_registry() {
        reg.apply(&q).map(|_| Action::Nothing)
    } else {
        reg.answer(hypr, &q)
    }
}

#[test]
fn create_bind_goto_flush_scenario() {
    let mut reg = Registry::new();
    let mut hypr = Hypr::new("/run/hypr/.socket.sock");
    feed(&mut reg, &mut hypr, "create web\n").unwrap();
    feed(&mut reg, &mut hypr, "bind web 3\n").unwrap();
    feed(&mut reg, &mut hypr, "goto 3\n").unwrap();
    assert!(matches!(
        feed(&mut reg, &mut hypr, "flush\n"),
        Ok(Action::Flush)
    ));
    assert_eq!(hypr.pending(), Some("[[BATCH]]/dispatch workspace web;"));
    hypr.clear();
    assert_eq!(hypr.pending(), None);
}

#[test]
fn bind_without_create_then_read_by_register() {
    let mut reg = Registry::new();
    let mut hypr = Hypr::new("/run/hypr/.socket.sock");
    feed(&mut reg, &mut hypr, "bind code 5\n").unwrap();
    let err = feed(&mut reg, &mut hypr, "read 5\n").unwrap_err();
    assert_eq!(err, RegistryError::UnknownWorkspace("code".to_string()));
    assert_eq!(err.message(), "code doesn't point to any valid workspace\n");
}

#[test]
fn two_gotos_one_flush() {
    let mut reg = Registry::new();
    let mut hypr = Hypr::new("/run/hypr/.socket.sock");
    feed(&mut reg, &mut hypr, "bind web 1\n").unwrap();
    feed(&mut reg, &mut hypr, "bind code 2\n").unwrap();
    feed(&mut reg, &mut hypr, "goto 2\n").unwrap();
    feed(&mut reg, &mut hypr, "goto 1\n").unwrap();
    assert!(matches!(
        feed(&mut reg, &mut hypr, "flush\n"),
        Ok(Action::Flush)
    ));
    assert_eq!(
        hypr.pending(),
        Some("[[BATCH]]/dispatch workspace code;/dispatch workspace web;")
    );
}

#[test]
fn goto_unbound_queues_nothing() {
    let mut reg = Registry::new();
    let mut hypr = Hypr::new("/run/hypr/.socket.sock");
    let err = feed(&mut reg, &mut hypr, "goto 4\n").unwrap_err();
    assert_eq!(err, RegistryError::UnboundRegister(4));
    assert_eq!(hypr.pending(), None);
    feed(&mut reg, &mut hypr, "bind web 4\n").unwrap();
    feed(&mut reg, &mut hypr, "goto 4\n").unwrap();
    assert_eq!(hypr.pending(), Some("[[BATCH]]/dispatch workspace web;"));
    feed(&mut reg, &mut hypr, "unbind 4\n").unwrap();
    assert!(feed(&mut reg, &mut hypr, "moveto 4\n").is_err());
    assert_eq!(hypr.pending(), Some("[[BATCH]]/dispatch workspace web;"));
}

#[test]
fn new_batch_is_empty() {
    let hypr = Hypr::new("/tmp/s");
    assert_eq!(hypr.pending(), None);
    assert_eq!(hypr.socket_path(), "/tmp/s");
    assert_eq!(BATCH, "[[BATCH]]");
}

#[test]
fn directives_in_call_order() {
    let mut hypr = Hypr::new("/tmp/s");
    hypr.go_to(Workspace::Id(2));
    hypr.move_to(Workspace::Name("mail"));
    hypr.go_to(Workspace::Previous);
    assert_eq!(
        hypr.pending(),
        Some("[[BATCH]]/dispatch workspace 2;/dispatch movetoworkspacesilent mail;/dispatch workspace previous;")
    );
    hypr.clear();
    assert_eq!(hypr.pending(), None);
    assert_eq!(hypr.socket_path(), "/tmp/s");
}

#[test]
fn workspace_texts() {
    assert_eq!(Workspace::Id(-3).text(), "-3");
    assert_eq!(Workspace::Id(12).text(), "12");
    assert_eq!(Workspace::RelativeId(2).text(), "+2");
    assert_eq!(Workspace::RelativeId(0).text(), "+0");
    assert_eq!(Workspace::RelativeId(-2).text(), "-2");
    assert_eq!(Workspace::RelativeMonitor(-1).text(), "m-1");
    assert_eq!(Workspace::RelativeMonitorEmpty(1).text(), "r+1");
    assert_eq!(Workspace::RelativeOpen(3).text(), "e+3");
    assert_eq!(Workspace::Previous.text(), "previous");
    assert_eq!(Workspace::Empty.text(), "empty");
    assert_eq!(Workspace::Name("web").text(), "web");
    assert_eq!(Workspace::Special(None).text(), "special");
    assert_eq!(Workspace::Special(Some("scratch")).text(), "special:scratch");
}

#[test]
fn socket_paths() {
    let mut dir = PathBuilder::from_basepath("/run/user/1000/hypr/abc");
    assert_eq!(
        dir.with_filename("ws-mgr.sock"),
        "/run/user/1000/hypr/abc/ws-mgr.sock"
    );
    assert_eq!(
        dir.with_filename(".socket.sock"),
        "/run/user/1000/hypr/abc/.socket.sock"
    );
    let mut slash = PathBuilder::from_basepath("/run/");
    assert_eq!(slash.with_filename("x"), "/run/x");
    assert_eq!(slash.with_filename("/abs/y"), "/abs/y");
    let mut empty = PathBuilder::from_basepath("");
    assert_eq!(empty.with_filename("z"), "z");
}
