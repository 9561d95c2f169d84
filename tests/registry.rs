use hypr_workspace_manager::hypr::Hypr;
use hypr_workspace_manager::registry::{Registry, RegistryError};
use hypr_workspace_manager::request::{Request, Workspace};
use hypr_workspace_manager::server::Action;

fn names(reg: &Registry) -> (Vec<String>, Vec<(u8, String)>) {
    let resp = reg.read(None).unwrap();
    (
        resp.workspaces.into_iter().map(|(n, _)| n).collect(),
        resp.registers,
    )
}

#[test]
fn create_succeeds_once() {
    let mut reg = Registry::new();
    assert_eq!(reg.create("web"), Ok(()));
    assert_eq!(reg.create("web"), Err(RegistryError::NameInUse));
    assert_eq!(reg.create("code"), Ok(()));
    assert_eq!(reg.create("web"), Err(RegistryError::NameInUse));
    assert_eq!(names(&reg).0, vec!["web".to_string(), "code".to_string()]);
}

#[test]
fn create_is_case_sensitive() {
    let mut reg = Registry::new();
    assert_eq!(reg.create("Web"), Ok(()));
    assert_eq!(reg.create("web"), Ok(()));
}

#[test]
fn create_after_bind_of_same_name() {
    let mut reg = Registry::new();
    reg.bind("chat", 1);
    assert_eq!(reg.create("chat"), Ok(()));
    assert_eq!(reg.create("chat"), Err(RegistryError::NameInUse));
    assert_eq!(reg.resolve(1), Ok("chat"));
}

#[test]
fn bind_then_resolve_until_rebound() {
    let mut reg = Registry::new();
    reg.bind("web", 7);
    assert_eq!(reg.resolve(7), Ok("web"));
    reg.create("code").unwrap();
    reg.bind("code", 8);
    reg.unbind(9);
    assert_eq!(reg.resolve(7), Ok("web"));
    reg.bind("code", 7);
    assert_eq!(reg.resolve(7), Ok("code"));
}

#[test]
fn bind_edge_registers() {
    let mut reg = Registry::new();
    reg.bind("low", 0);
    reg.bind("high", 255);
    assert_eq!(reg.resolve(0), Ok("low"));
    assert_eq!(reg.resolve(255), Ok("high"));
    assert_eq!(reg.resolve(128), Err(RegistryError::UnboundRegister(128)));
}

#[test]
fn unbind_then_resolve_fails() {
    let mut reg = Registry::new();
    reg.bind("web", 3);
    reg.unbind(3);
    assert_eq!(reg.resolve(3), Err(RegistryError::UnboundRegister(3)));
}

#[test]
fn unbind_unbound_is_noop() {
    let mut reg = Registry::new();
    reg.create("web").unwrap();
    reg.bind("web", 1);
    let before = names(&reg);
    reg.unbind(2);
    assert_eq!(names(&reg), before);
    reg.unbind(1);
    let once = names(&reg);
    reg.unbind(1);
    assert_eq!(names(&reg), once);
}

#[test]
fn read_all_lists_registers_ascending() {
    let mut reg = Registry::new();
    reg.create("web").unwrap();
    reg.create("code").unwrap();
    reg.bind("code", 200);
    reg.bind("web", 3);
    reg.bind("ghost", 17);
    let (ws, regs) = names(&reg);
    assert_eq!(ws, vec!["web".to_string(), "code".to_string()]);
    assert_eq!(
        regs,
        vec![
            (3, "web".to_string()),
            (17, "ghost".to_string()),
            (200, "code".to_string())
        ]
    );
}

#[test]
fn read_empty_registry() {
    let reg = Registry::new();
    let resp = reg.read(None).unwrap();
    assert!(resp.workspaces.is_empty());
    assert!(resp.registers.is_empty());
    assert_eq!(resp.encode(), "");
}

#[test]
fn read_by_name_lists_its_registers() {
    let mut reg = Registry::new();
    reg.create("web").unwrap();
    reg.create("code").unwrap();
    reg.bind("web", 9);
    reg.bind("code", 4);
    reg.bind("web", 2);
    let resp = reg.read(Some(Workspace::Workspace("web"))).unwrap();
    assert_eq!(resp.workspaces.len(), 1);
    assert_eq!(resp.workspaces[0].0, "web");
    assert_eq!(resp.registers, vec![(2, "web".to_string()), (9, "web".to_string())]);
    let resp = reg.read(Some(Workspace::Workspace("code"))).unwrap();
    assert_eq!(resp.registers, vec![(4, "code".to_string())]);
}

#[test]
fn read_by_name_without_registers() {
    let mut reg = Registry::new();
    reg.create("web").unwrap();
    let resp = reg.read(Some(Workspace::Workspace("web"))).unwrap();
    assert_eq!(resp.workspaces.len(), 1);
    assert!(resp.registers.is_empty());
}

#[test]
fn read_by_unknown_name_fails() {
    let reg = Registry::new();
    assert_eq!(
        reg.read(Some(Workspace::Workspace("nope"))).unwrap_err(),
        RegistryError::UnknownWorkspace("nope".to_string())
    );
}

#[test]
fn read_by_register() {
    let mut reg = Registry::new();
    reg.create("web").unwrap();
    reg.bind("web", 3);
    reg.bind("web", 4);
    let resp = reg.read(Some(Workspace::Register(3))).unwrap();
    assert_eq!(resp.workspaces.len(), 1);
    assert_eq!(resp.workspaces[0].0, "web");
    assert_eq!(resp.registers, vec![(3, "web".to_string())]);
}

#[test]
fn read_by_unbound_register_fails() {
    let reg = Registry::new();
    assert_eq!(
        reg.read(Some(Workspace::Register(12))).unwrap_err(),
        RegistryError::UnknownRegister(12)
    );
}

#[test]
fn bind_before_create_then_read_by_register() {
    let mut reg = Registry::new();
    reg.bind("code", 5);
    assert_eq!(
        reg.read(Some(Workspace::Register(5))).unwrap_err(),
        RegistryError::UnknownWorkspace("code".to_string())
    );
    let (ws, regs) = names(&reg);
    assert!(ws.is_empty());
    assert_eq!(regs, vec![(5, "code".to_string())]);
}

#[test]
fn snapshot_text() {
    let mut reg = Registry::new();
    reg.create("web").unwrap();
    reg.bind("web", 3);
    reg.bind("code", 12);
    let resp = reg.read(None).unwrap();
    assert_eq!(resp.encode(), "workspace web\nregister 3 web\nregister 12 code\n");
}

#[test]
fn registry_error_messages() {
    assert_eq!(RegistryError::NameInUse.message(), "name already in use\n");
    assert_eq!(
        RegistryError::UnboundRegister(42).message(),
        "register 42 does not point to any workspace\n"
    );
    assert_eq!(
        RegistryError::UnknownWorkspace("web".to_string()).message(),
        "web doesn't point to any valid workspace\n"
    );
    assert_eq!(
        RegistryError::UnknownRegister(7).message(),
        "7 does not point to any workspace\n"
    );
}

#[test]
fn apply_and_answer() {
    let mut reg = Registry::new();
    let mut hypr = Hypr::new("/tmp/hypr/.socket.sock");
    assert_eq!(reg.apply(&Request::Create { name: "web" }), Ok(()));
    assert_eq!(
        reg.apply(&Request::Create { name: "web" }),
        Err(RegistryError::NameInUse)
    );
    assert_eq!(reg.apply(&Request::Bind { name: "web", register: 1 }), Ok(()));
    match reg.answer(&mut hypr, &Request::Read { workspace: None }) {
        Ok(Action::Reply(text)) => assert_eq!(text, "workspace web\nregister 1 web\n"),
        other => panic!("unexpected {:?}", other),
    }
    assert!(matches!(
        reg.answer(&mut hypr, &Request::Moveto { register: 1 }),
        Ok(Action::Nothing)
    ));
    assert_eq!(
        hypr.pending(),
        Some("[[BATCH]]/dispatch movetoworkspacesilent web;")
    );
    assert_eq!(reg.apply(&Request::Unbind { register: 1 }), Ok(()));
    assert_eq!(
        reg.answer(&mut hypr, &Request::Goto { register: 1 }).unwrap_err(),
        RegistryError::UnboundRegister(1)
    );
}

#[test]
fn read_text_matches_snapshot() {
    let mut reg = Registry::new();
    reg.create("web").unwrap();
    reg.create("code").unwrap();
    reg.bind("web", 3);
    reg.bind("code", 12);
    reg.bind("web", 1);
    assert_eq!(
        reg.read_text(None).unwrap(),
        "workspace web\nworkspace code\nregister 1 web\nregister 3 web\nregister 12 code\n"
    );
    assert_eq!(reg.read_text(None).unwrap(), reg.read(None).unwrap().encode());
    assert_eq!(
        reg.read_text(Some(Workspace::Workspace("web"))).unwrap(),
        "workspace web\nregister 1 web\nregister 3 web\n"
    );
    assert_eq!(
        reg.read_text(Some(Workspace::Register(12))).unwrap(),
        "workspace code\nregister 12 code\n"
    );
}

#[test]
fn read_text_errors() {
    let mut reg = Registry::new();
    reg.bind("code", 5);
    assert_eq!(
        reg.read_text(Some(Workspace::Register(5))).unwrap_err(),
        RegistryError::UnknownWorkspace("code".to_string())
    );
    assert_eq!(
        reg.read_text(Some(Workspace::Register(6))).unwrap_err(),
        RegistryError::UnknownRegister(6)
    );
    assert_eq!(
        reg.read_text(Some(Workspace::Workspace("code"))).unwrap_err(),
        RegistryError::UnknownWorkspace("code".to_string())
    );
    assert_eq!(reg.read_text(None).unwrap(), "register 5 code\n");
}
