use hypr_workspace_manager::request::{
    bind_signature, create_signature, flush_signature, read_signature, ProtocolError, Request,
    Workspace,
};
use hypr_workspace_manager::signature::{Signature, Type};
use hypr_workspace_manager::hypr::Workspace as Target;
use hypr_workspace_manager::request::target;
use hypr_workspace_manager::text::split_token;

fn decode(line: &str) -> Request<'_> {
    Request::decode(line).unwrap()
}

fn error_text(line: &str) -> String {
    Request::decode(line).unwrap_err().message()
}

#[test]
fn decode_each_command() {
    assert!(matches!(decode("create web\n"), Request::Create { name: "web" }));
    assert!(matches!(
        decode("bind web 3\n"),
        Request::Bind { name: "web", register: 3 }
    ));
    assert!(matches!(decode("unbind 255"), Request::Unbind { register: 255 }));
    assert!(matches!(decode("goto 0\n"), Request::Goto { register: 0 }));
    assert!(matches!(decode("moveto 12\n"), Request::Moveto { register: 12 }));
    assert!(matches!(decode("read\n"), Request::Read { workspace: None }));
    assert!(matches!(
        decode("read web\n"),
        Request::Read { workspace: Some(Workspace::Workspace("web")) }
    ));
    assert!(matches!(
        decode("read 7\n"),
        Request::Read { workspace: Some(Workspace::Register(7)) }
    ));
    assert!(matches!(decode("flush\n"), Request::Flush));
}

#[test]
fn decode_register_forms() {
    assert!(matches!(decode("goto +5"), Request::Goto { register: 5 }));
    assert!(matches!(decode("goto 007"), Request::Goto { register: 7 }));
    assert!(Request::decode("goto 256").is_err());
    assert!(Request::decode("goto -1").is_err());
    assert!(Request::decode("goto +").is_err());
    assert!(matches!(
        decode("read 256"),
        Request::Read { workspace: Some(Workspace::Workspace("256")) }
    ));
}

#[test]
fn decode_splits_at_any_white_space() {
    assert!(matches!(decode("create\tweb\n"), Request::Create { name: "web" }));
    assert!(matches!(
        decode("bind web\u{3000}3"),
        Request::Bind { name: "web", register: 3 }
    ));
    assert!(matches!(decode("goto 4\r\n"), Request::Goto { register: 4 }));
    assert!(matches!(decode("create web\r\n"), Request::Create { name: "web" }));
    assert!(matches!(decode("flush\r\n"), Request::Flush));
    assert!(Request::decode("create a\tb").is_err());
    assert!(Request::decode("create web \r\n").is_err());
}

#[test]
fn decode_non_ascii_name() {
    assert!(matches!(decode("create über\n"), Request::Create { name: "über" }));
}

#[test]
fn decode_empty_message() {
    assert!(matches!(Request::decode(""), Err(ProtocolError::Empty)));
    assert!(matches!(Request::decode("\n"), Err(ProtocolError::Empty)));
    assert_eq!(error_text("\n"), "empty request\n");
}

#[test]
fn decode_unknown_command() {
    assert!(matches!(Request::decode("jump 3\n"), Err(ProtocolError::UnknownCommand(c)) if c == "jump"));
    assert_eq!(error_text("Create web"), "unknown command `Create`\n");
    assert_eq!(error_text(" create web"), "unknown command ``\n");
}

#[test]
fn decode_missing_parameter() {
    assert_eq!(
        error_text("bind web\n"),
        "bind <name: &str> <register: u8>:\nregister: missing input for required argument of type `u8`\n"
    );
    assert_eq!(
        error_text("create\n"),
        "create <name: &str>:\nname: missing input for required argument of type `&str`\n"
    );
}

#[test]
fn decode_bad_register() {
    assert_eq!(
        error_text("bind web x\n"),
        "bind <name: &str> <register: u8>:\nregister: failed parsing type `u8` with \"invalid digit found in string\"\n"
    );
    assert_eq!(
        error_text("goto 300"),
        "goto <register: u8>:\nregister: failed parsing type `u8` with \"number too large to fit in target type\"\n"
    );
}

#[test]
fn decode_trailing_input() {
    assert_eq!(
        error_text("create a b\n"),
        "create <name: &str>:\nexpected to be done with parsing, but still has remaining input\n"
    );
    assert_eq!(
        error_text("flush now"),
        "flush:\nexpected to be done with parsing, but still has remaining input\n"
    );
    assert!(Request::decode("read a b").is_err());
    assert!(Request::decode("bind web  3").is_err());
}

#[test]
fn encode_each_command() {
    assert_eq!(Request::Create { name: "web" }.encode(), "create web\n");
    assert_eq!(Request::Bind { name: "web", register: 3 }.encode(), "bind web 3\n");
    assert_eq!(Request::Unbind { register: 200 }.encode(), "unbind 200\n");
    assert_eq!(Request::Goto { register: 0 }.encode(), "goto 0\n");
    assert_eq!(Request::Moveto { register: 9 }.encode(), "moveto 9\n");
    assert_eq!(Request::Read { workspace: None }.encode(), "read\n");
    assert_eq!(
        Request::Read { workspace: Some(Workspace::Register(5)) }.encode(),
        "read 5\n"
    );
    assert_eq!(
        Request::Read { workspace: Some(Workspace::Workspace("web")) }.encode(),
        "read web\n"
    );
    assert_eq!(Request::Flush.encode(), "flush\n");
}

#[test]
fn encode_then_decode() {
    let line = Request::Bind { name: "code", register: 42 }.encode();
    assert!(matches!(decode(&line), Request::Bind { name: "code", register: 42 }));
    let line = Request::Read { workspace: Some(Workspace::Register(255)) }.encode();
    assert!(matches!(
        decode(&line),
        Request::Read { workspace: Some(Workspace::Register(255)) }
    ));
}

#[test]
fn usage_lines() {
    assert_eq!(create_signature().usage().unwrap(), "create <name: &str>");
    assert_eq!(
        bind_signature().usage().unwrap(),
        "bind <name: &str> <register: u8>"
    );
    assert_eq!(read_signature().usage().unwrap(), "read [workspace: &str]");
    assert_eq!(flush_signature().usage().unwrap(), "flush");
    let broken = Signature {
        cmd: "x",
        params: &[("", Type::Opt), ("a", Type::U8), ("", Type::Opt)],
    };
    assert_eq!(broken.usage(), None);
    let optional = Signature {
        cmd: "x",
        params: &[("a", Type::Str), ("", Type::Opt), ("b", Type::U8)],
    };
    assert_eq!(optional.usage().unwrap(), "x <a: &str> [b: u8]");
}

#[test]
fn parse_cmd_splits_at_first_space() {
    assert_eq!(Signature::parse_cmd(""), None);
    assert_eq!(Signature::parse_cmd("flush"), Some(("flush", "")));
    assert_eq!(Signature::parse_cmd("bind web 3"), Some(("bind", "web 3")));
    assert_eq!(Signature::parse_cmd("bind\tweb 3"), Some(("bind", "web 3")));
}

#[test]
fn parser_reads_optional_parameters() {
    let sig = Signature {
        cmd: "t",
        params: &[("a", Type::Str), ("", Type::Opt), ("b", Type::U8), ("c", Type::Str)],
    };
    let mut p = sig.parser("x 4");
    assert_eq!(p.parse_param::<&str>().unwrap(), "x");
    assert_eq!(p.parse_param::<Option<u8>>().unwrap(), Some(4));
    assert_eq!(p.parse_param::<Option<&str>>().unwrap(), None);
    assert!(p.finish().is_ok());
}

#[test]
fn parser_type_mismatch() {
    let sig = Signature { cmd: "t", params: &[("n", Type::Str)] };
    let mut p = sig.parser("x");
    let e = p.parse_param::<u8>().unwrap_err();
    assert_eq!(e.message(), "t <n: &str>:\nn: failed to access type `u8`, expected `&str`\n");
    let mut p = sig.parser("x");
    let e = p.parse_param::<Option<&str>>().unwrap_err();
    assert_eq!(e.index, 0);
    assert_eq!(e.accessed, Some((Type::Str, false)));
}

#[test]
fn parser_out_of_fields() {
    let sig = Signature { cmd: "t", params: &[] };
    let mut p = sig.parser("x");
    let e = p.parse_param::<&str>().unwrap_err();
    assert_eq!(
        e.message(),
        "t:\ntried to access required field of type `&str`, expected to be done with parsing input\n"
    );
}

#[test]
fn parser_finish_too_early() {
    let sig = Signature { cmd: "t", params: &[("n", Type::Str)] };
    let e = sig.parser("").finish().unwrap_err();
    assert_eq!(
        e.message(),
        "t <n: &str>:\ntries to stop parsing, but signature is expecting required field `n` of type `&str`\n"
    );
}

#[test]
fn text_helpers() {
    assert_eq!(split_token("a b c"), ("a", "b c"));
    assert_eq!(split_token("abc"), ("abc", ""));
    assert_eq!(split_token(" x"), ("", "x"));
    assert_eq!(split_token("a\tb c"), ("a", "b c"));
    assert_eq!(split_token("a\u{a0}b"), ("a", "b"));
    assert_eq!(split_token("\u{e9}t\u{e9} x"), ("\u{e9}t\u{e9}", "x"));
    assert!(matches!(target("+9"), Workspace::Register(9)));
    assert!(matches!(target("255"), Workspace::Register(255)));
    assert!(matches!(target(""), Workspace::Workspace("")));
    assert!(matches!(target(" 1"), Workspace::Workspace(" 1")));
    assert_eq!(Target::Id(-42).text(), "-42");
    assert_eq!(Target::Id(0).text(), "0");
    assert_eq!(Target::Id(i32::MIN).text(), "-2147483648");
}
