//! The requests that clients send, one per line, and their text form.
use vstd::prelude::*;
use crate::signature::{marker_between, next_field, Signature, SignatureError, Type};
use crate::text::{
    decimal, has_space, head, is_space, lemma_no_space_is_head, lemma_split_is_head_tail, lemma_tokens_step, lemma_u8_text,
    nat_text, parse_u8, tail, tokens, u8_of,
};

verus! {

/// Which workspace a `read` asks about: the one a register points at, or one by name.
#[derive(Debug, Clone, Copy)]
pub enum Workspace<'a> {
    Register(u8),
    Workspace(&'a str),
}

/// The value of a [`Workspace`], with the name as text.
pub enum WorkspaceView {
    Register(u8),
    Workspace(Seq<char>),
}

impl<'a> View for Workspace<'a> {
    type V = WorkspaceView;

    open spec fn view(&self) -> WorkspaceView {
        match self {
            Workspace::Register(r) => WorkspaceView::Register(*r),
            Workspace::Workspace(n) => WorkspaceView::Workspace(n@),
        }
    }
}

/// One request of a client.
#[derive(Debug, Clone, Copy)]
pub enum Request<'a> {
    Create { name: &'a str },
    Bind { name: &'a str, register: u8 },
    Unbind { register: u8 },
    Goto { register: u8 },
    Moveto { register: u8 },
    Read { workspace: Option<Workspace<'a>> },
    Flush,
}

/// The value of a [`Request`], with names as text.
pub enum RequestView {
    Create { name: Seq<char> },
    Bind { name: Seq<char>, register: u8 },
    Unbind { register: u8 },
    Goto { register: u8 },
    Moveto { register: u8 },
    Read { workspace: Option<WorkspaceView> },
    Flush,
}

impl<'a> View for Request<'a> {
    type V = RequestView;

    open spec fn view(&self) -> RequestView {
        match self {
            Request::Create { name } => RequestView::Create { name: name@ },
            Request::Bind { name, register } => RequestView::Bind { name: name@, register: *register },
            Request::Unbind { register } => RequestView::Unbind { register: *register },
            Request::Goto { register } => RequestView::Goto { register: *register },
            Request::Moveto { register } => RequestView::Moveto { register: *register },
            Request::Read { workspace } => RequestView::Read {
                workspace: match workspace {
                    Some(w) => Some(w@),
                    None => None,
                },
            },
            Request::Flush => RequestView::Flush,
        }
    }
}

/// The workspace that the argument of a `read` names: a register when the token spells a byte,
/// else the workspace of that name.
pub open spec fn target_of(token: Seq<char>) -> WorkspaceView {
    match u8_of(token) {
        Some(b) => WorkspaceView::Register(b),
        None => WorkspaceView::Workspace(token),
    }
}

/// Whether `cmd` names one of the commands.
pub open spec fn is_command(cmd: Seq<char>) -> bool {
    cmd == "create"@ || cmd == "bind"@ || cmd == "unbind"@ || cmd == "goto"@ || cmd == "moveto"@
        || cmd == "read"@ || cmd == "flush"@
}

/// The request that a command line (without its line break) spells, if any: the command name,
/// then its parameters, each after one white space character.
pub open spec fn request_of(line: Seq<char>) -> Option<RequestView> {
    let cmd = head(line);
    let p = tokens(tail(line));
    if line.len() == 0 {
        None
    } else if cmd == "create"@ && p.len() == 1 {
        Some(RequestView::Create { name: p[0] })
    } else if cmd == "bind"@ && p.len() == 2 && u8_of(p[1]) is Some {
        Some(RequestView::Bind { name: p[0], register: u8_of(p[1])->0 })
    } else if cmd == "unbind"@ && p.len() == 1 && u8_of(p[0]) is Some {
        Some(RequestView::Unbind { register: u8_of(p[0])->0 })
    } else if cmd == "goto"@ && p.len() == 1 && u8_of(p[0]) is Some {
        Some(RequestView::Goto { register: u8_of(p[0])->0 })
    } else if cmd == "moveto"@ && p.len() == 1 && u8_of(p[0]) is Some {
        Some(RequestView::Moveto { register: u8_of(p[0])->0 })
    } else if cmd == "read"@ && p.len() == 0 {
        Some(RequestView::Read { workspace: None })
    } else if cmd == "read"@ && p.len() == 1 {
        Some(RequestView::Read { workspace: Some(target_of(p[0])) })
    } else if cmd == "flush"@ && p.len() == 0 {
        Some(RequestView::Flush)
    } else {
        None
    }
}

/// A message without the line break that ends it, if it ends with one.
pub open spec fn frame(msg: Seq<char>) -> Seq<char> {
    if msg.len() > 0 && msg.last() == '\n' {
        msg.drop_last()
    } else {
        msg
    }
}

/// Why a message is not a request.
#[derive(Debug)]
pub enum ProtocolError {
    /// The message holds no command.
    Empty,
    /// The command name is none of the commands.
    UnknownCommand(String),
    /// The parameters do not fit the command's schema.
    Signature(SignatureError),
}

impl ProtocolError {
    /// The text sent back to the client.
    pub fn message(&self) -> (r: String)
        ensures
            self matches ProtocolError::Signature(e) ==> r@ == e.text(),
            self matches ProtocolError::UnknownCommand(c) ==> r@ == "unknown command `"@ + c@ + "`\n"@,
            self is Empty ==> r@ == "empty request\n"@,
    {
        match self {
            ProtocolError::Empty => String::from_str("empty request\n"),
            ProtocolError::UnknownCommand(c) => {
                let mut out = String::from_str("unknown command `");
                out.append(c.as_str());
                out.append("`\n");
                out
            },
            ProtocolError::Signature(e) => e.message(),
        }
    }
}

/// The schema of `create`.
pub fn create_signature() -> (r: Signature)
    ensures
        r.cmd@ == "create"@,
        r.params@ == seq![("name", Type::Str)],
{
    Signature { cmd: "create", params: &[("name", Type::Str)] }
}

/// The schema of `bind`.
pub fn bind_signature() -> (r: Signature)
    ensures
        r.cmd@ == "bind"@,
        r.params@ == seq![("name", Type::Str), ("register", Type::U8)],
{
    Signature { cmd: "bind", params: &[("name", Type::Str), ("register", Type::U8)] }
}

/// The schema of `unbind`.
pub fn unbind_signature() -> (r: Signature)
    ensures
        r.cmd@ == "unbind"@,
        r.params@ == seq![("register", Type::U8)],
{
    Signature { cmd: "unbind", params: &[("register", Type::U8)] }
}

/// The schema of `goto`.
pub fn goto_signature() -> (r: Signature)
    ensures
        r.cmd@ == "goto"@,
        r.params@ == seq![("register", Type::U8)],
{
    Signature { cmd: "goto", params: &[("register", Type::U8)] }
}

/// The schema of `moveto`.
pub fn moveto_signature() -> (r: Signature)
    ensures
        r.cmd@ == "moveto"@,
        r.params@ == seq![("register", Type::U8)],
{
    Signature { cmd: "moveto", params: &[("register", Type::U8)] }
}

/// The schema of `read`: one optional parameter, a workspace name or a register.
pub fn read_signature() -> (r: Signature)
    ensures
        r.cmd@ == "read"@,
        r.params@ == seq![("", Type::Opt), ("workspace", Type::Str)],
{
    Signature { cmd: "read", params: &[("", Type::Opt), ("workspace", Type::Str)] }
}

/// The schema of `flush`.
pub fn flush_signature() -> (r: Signature)
    ensures
        r.cmd@ == "flush"@,
        r.params@ == Seq::<(&'static str, Type)>::empty(),
{
    Signature { cmd: "flush", params: &[] }
}

/// Whether `s` and `w` hold the same text.
fn same_text(s: &str, w: &str) -> (r: bool)
    ensures
        r == (s@ == w@),
{
    String::from_str(s) == String::from_str(w)
}

/// `msg` without the line break that ends it, if it ends with one.
fn frame_of(msg: &str) -> (r: &str)
    ensures
        r@ == frame(msg@),
{
    let n = msg.unicode_len();
    if n > 0 && msg.get_char(n - 1) == '\n' {
        let r = msg.substring_char(0, n - 1);
        assert(r@ =~= msg@.drop_last());
        r
    } else {
        msg
    }
}

/// Reads the single register parameter of `unbind`, `goto` or `moveto`.
fn decode_register(sig: Signature, rest: &str) -> (r: Result<u8, SignatureError>)
    requires
        sig.params@ == seq![("register", Type::U8)],
    ensures
        r is Ok <==> tokens(rest@).len() == 1 && u8_of(tokens(rest@)[0]) is Some,
        r matches Ok(b) ==> u8_of(tokens(rest@)[0]) == Some(b),
{
    let mut p = sig.parser(rest);
    proof {
        lemma_tokens_step(rest@);
        lemma_tokens_step(tail(rest@));
        assert(next_field(sig.params@, 0) == 0);
    }
    let register = match p.parse_param::<u8>() {
        Ok(b) => b,
        Err(e) => return Err(e),
    };
    match p.finish() {
        Ok(()) => Ok(register),
        Err(e) => Err(e),
    }
}

fn decode_create<'a>(rest: &'a str) -> (r: Result<Request<'a>, SignatureError>)
    ensures
        r is Ok <==> tokens(rest@).len() == 1,
        r matches Ok(q) ==> q@ == (RequestView::Create { name: tokens(rest@)[0] }),
{
    let mut p = create_signature().parser(rest);
    proof {
        lemma_tokens_step(rest@);
        lemma_tokens_step(tail(rest@));
        assert(next_field(p.schema().params@, 0) == 0);
    }
    let name = match p.parse_param::<&str>() {
        Ok(n) => n,
        Err(e) => return Err(e),
    };
    match p.finish() {
        Ok(()) => Ok(Request::Create { name }),
        Err(e) => Err(e),
    }
}

fn decode_bind<'a>(rest: &'a str) -> (r: Result<Request<'a>, SignatureError>)
    ensures
        r is Ok <==> tokens(rest@).len() == 2 && u8_of(tokens(rest@)[1]) is Some,
        r matches Ok(q) ==> q@ == (RequestView::Bind {
            name: tokens(rest@)[0],
            register: u8_of(tokens(rest@)[1])->0,
        }),
{
    let mut p = bind_signature().parser(rest);
    proof {
        let params = p.schema().params@;
        lemma_tokens_step(rest@);
        lemma_tokens_step(tail(rest@));
        lemma_tokens_step(tail(tail(rest@)));
        assert(next_field(params, 0) == 0);
        assert(next_field(params, 1) == 1);
    }
    let name = match p.parse_param::<&str>() {
        Ok(n) => n,
        Err(e) => return Err(e),
    };
    let register = match p.parse_param::<u8>() {
        Ok(b) => b,
        Err(e) => return Err(e),
    };
    match p.finish() {
        Ok(()) => Ok(Request::Bind { name, register }),
        Err(e) => Err(e),
    }
}

/// The workspace that the argument of a `read` names: a register when the token spells a byte,
/// else the workspace of that name.
pub fn target(token: &str) -> (r: Workspace)
    ensures
        r@ == target_of(token@),
{
    match parse_u8(token) {
        Ok(b) => Workspace::Register(b),
        Err(_) => Workspace::Workspace(token),
    }
}

fn decode_read<'a>(rest: &'a str) -> (r: Result<Request<'a>, SignatureError>)
    ensures
        r is Ok <==> tokens(rest@).len() <= 1,
        r matches Ok(q) ==> q@ == (RequestView::Read {
            workspace: if tokens(rest@).len() == 0 {
                None
            } else {
                Some(target_of(tokens(rest@)[0]))
            },
        }),
{
    let mut p = read_signature().parser(rest);
    proof {
        let params = p.schema().params@;
        assert(params[0].1 == Type::Opt);
        assert(marker_between(params, 0, 1));
        assert(next_field(params, 2) == 2);
        assert(next_field(params, 1) == 1);
        assert(next_field(params, 0) == 1);
        lemma_tokens_step(rest@);
        lemma_tokens_step(tail(rest@));
    }
    let arg = match p.parse_param::<Option<&str>>() {
        Ok(a) => a,
        Err(e) => return Err(e),
    };
    match p.finish() {
        Ok(()) => match arg {
            Some(token) => Ok(Request::Read { workspace: Some(target(token)) }),
            None => Ok(Request::Read { workspace: None }),
        },
        Err(e) => Err(e),
    }
}

fn decode_flush<'a>(rest: &'a str) -> (r: Result<Request<'a>, SignatureError>)
    ensures
        r is Ok <==> tokens(rest@).len() == 0,
        r matches Ok(q) ==> q@ == RequestView::Flush,
{
    let p = flush_signature().parser(rest);
    proof {
        lemma_tokens_step(rest@);
    }
    match p.finish() {
        Ok(()) => Ok(Request::Flush),
        Err(e) => Err(e),
    }
}

/// The command names differ from one another.
proof fn lemma_commands_distinct()
    ensures
        "create"@ != "bind"@,
        "create"@ != "unbind"@,
        "create"@ != "goto"@,
        "create"@ != "moveto"@,
        "create"@ != "read"@,
        "create"@ != "flush"@,
        "bind"@ != "unbind"@,
        "bind"@ != "goto"@,
        "bind"@ != "moveto"@,
        "bind"@ != "read"@,
        "bind"@ != "flush"@,
        "unbind"@ != "goto"@,
        "unbind"@ != "moveto"@,
        "unbind"@ != "read"@,
        "unbind"@ != "flush"@,
        "goto"@ != "moveto"@,
        "goto"@ != "read"@,
        "goto"@ != "flush"@,
        "moveto"@ != "read"@,
        "moveto"@ != "flush"@,
        "read"@ != "flush"@,
{
    reveal_strlit("create");
    reveal_strlit("bind");
    reveal_strlit("unbind");
    reveal_strlit("goto");
    reveal_strlit("moveto");
    reveal_strlit("read");
    reveal_strlit("flush");
    assert("create"@[0] != "unbind"@[0]);
    assert("create"@[0] != "moveto"@[0]);
    assert("unbind"@[0] != "moveto"@[0]);
    assert("bind"@[0] != "goto"@[0]);
    assert("bind"@[0] != "read"@[0]);
    assert("goto"@[0] != "read"@[0]);
}

/// How the argument of a `read` is written.
pub open spec fn target_text(w: WorkspaceView) -> Seq<char> {
    match w {
        WorkspaceView::Register(b) => nat_text(b as nat),
        WorkspaceView::Workspace(n) => n,
    }
}

/// The command line of a request, without its line break.
pub open spec fn line_of(q: RequestView) -> Seq<char> {
    match q {
        RequestView::Create { name } => "create"@ + seq![' '] + name,
        RequestView::Bind { name, register } => "bind"@ + seq![' '] + name + seq![' '] + nat_text(
            register as nat,
        ),
        RequestView::Unbind { register } => "unbind"@ + seq![' '] + nat_text(register as nat),
        RequestView::Goto { register } => "goto"@ + seq![' '] + nat_text(register as nat),
        RequestView::Moveto { register } => "moveto"@ + seq![' '] + nat_text(register as nat),
        RequestView::Read { workspace: None } => "read"@,
        RequestView::Read { workspace: Some(w) } => "read"@ + seq![' '] + target_text(w),
        RequestView::Flush => "flush"@,
    }
}

fn register_text(register: u8) -> (r: String)
    ensures
        r@ == nat_text(register as nat),
{
    decimal(register as i32)
}

impl<'a> Request<'a> {
    /// The message that sends this request: its command line and a line break.
    pub fn encode(&self) -> (r: String)
        ensures
            r@ == line_of(self@) + seq!['\n'],
    {
        let mut out = String::new();
        proof {
            reveal_strlit(" ");
            reveal_strlit("\n");
        }
        match self {
            Request::Create { name } => {
                out.append("create");
                out.append(" ");
                out.append(name);
            },
            Request::Bind { name, register } => {
                out.append("bind");
                out.append(" ");
                out.append(name);
                out.append(" ");
                out.append(register_text(*register).as_str());
            },
            Request::Unbind { register } => {
                out.append("unbind");
                out.append(" ");
                out.append(register_text(*register).as_str());
            },
            Request::Goto { register } => {
                out.append("goto");
                out.append(" ");
                out.append(register_text(*register).as_str());
            },
            Request::Moveto { register } => {
                out.append("moveto");
                out.append(" ");
                out.append(register_text(*register).as_str());
            },
            Request::Read { workspace: None } => {
                out.append("read");
            },
            Request::Read { workspace: Some(w) } => {
                out.append("read");
                out.append(" ");
                match w {
                    Workspace::Register(b) => out.append(register_text(*b).as_str()),
                    Workspace::Workspace(n) => out.append(n),
                }
            },
            Request::Flush => {
                out.append("flush");
            },
        }
        out.append("\n");
        assert(out@ =~= line_of(self@) + seq!['\n']);
        out
    }

    /// Reads one message of a client: a command line, with or without the line break that ends
    /// it.
    pub fn decode(msg: &'a str) -> (r: Result<Request<'a>, ProtocolError>)
        ensures
            ({
                let line = frame(msg@);
                &&& r is Ok <==> request_of(line) is Some
                &&& r matches Ok(q) ==> request_of(line) == Some(q@)
                &&& r matches Err(e) ==> {
                    &&& e is Empty <==> line.len() == 0
                    &&& e matches ProtocolError::UnknownCommand(c) ==> c@ == head(line) && !is_command(c@)
                    &&& e is Signature ==> line.len() > 0 && is_command(head(line))
                }
            }),
    {
        let line = frame_of(msg);
        let (cmd, rest) = match Signature::parse_cmd(line) {
            None => return Err(ProtocolError::Empty),
            Some(split) => split,
        };
        proof {
            lemma_commands_distinct();
        }
        let decoded = if same_text(cmd, "create") {
            decode_create(rest)
        } else if same_text(cmd, "bind") {
            decode_bind(rest)
        } else if same_text(cmd, "unbind") {
            match decode_register(unbind_signature(), rest) {
                Ok(register) => Ok(Request::Unbind { register }),
                Err(e) => Err(e),
            }
        } else if same_text(cmd, "goto") {
            match decode_register(goto_signature(), rest) {
                Ok(register) => Ok(Request::Goto { register }),
                Err(e) => Err(e),
            }
        } else if same_text(cmd, "moveto") {
            match decode_register(moveto_signature(), rest) {
                Ok(register) => Ok(Request::Moveto { register }),
                Err(e) => Err(e),
            }
        } else if same_text(cmd, "read") {
            decode_read(rest)
        } else if same_text(cmd, "flush") {
            decode_flush(rest)
        } else {
            return Err(ProtocolError::UnknownCommand(String::from_str(cmd)));
        };
        match decoded {
            Ok(q) => Ok(q),
            Err(e) => Err(ProtocolError::Signature(e)),
        }
    }
}

/// Whether `n` reads back as one name: it is not empty and holds no white space.
pub open spec fn plain_name(n: Seq<char>) -> bool {
    n.len() > 0 && !has_space(n)
}

/// Whether the names of `q` read back from its command line: each is a plain name, and the
/// name of a `read` does not spell a register.
pub open spec fn encodable(q: RequestView) -> bool {
    match q {
        RequestView::Create { name } => plain_name(name),
        RequestView::Bind { name, .. } => plain_name(name),
        RequestView::Read { workspace: Some(WorkspaceView::Workspace(n)) } => plain_name(n) && u8_of(n) is None,
        _ => true,
    }
}

/// The command names hold no white space.
proof fn lemma_commands_have_no_space()
    ensures
        !has_space("create"@),
        !has_space("bind"@),
        !has_space("unbind"@),
        !has_space("goto"@),
        !has_space("moveto"@),
        !has_space("read"@),
        !has_space("flush"@),
{
    reveal_strlit("create");
    reveal_strlit("bind");
    reveal_strlit("unbind");
    reveal_strlit("goto");
    reveal_strlit("moveto");
    reveal_strlit("read");
    reveal_strlit("flush");
    assert forall|i: int| 0 <= i < 6 implies !is_space("create"@[i]) && !is_space("unbind"@[i])
        && !is_space("moveto"@[i]) by {
        assert(i == 0 || i == 1 || i == 2 || i == 3 || i == 4 || i == 5);
    }
    assert forall|i: int| 0 <= i < 4 implies !is_space("bind"@[i]) && !is_space("goto"@[i])
        && !is_space("read"@[i]) by {
        assert(i == 0 || i == 1 || i == 2 || i == 3);
    }
    assert forall|i: int| 0 <= i < 5 implies !is_space("flush"@[i]) by {
        assert(i == 0 || i == 1 || i == 2 || i == 3 || i == 4);
    }
}

/// A plain name is the one token of its text.
proof fn lemma_single_token(n: Seq<char>)
    requires
        plain_name(n),
    ensures
        tokens(n) == seq![n],
{
    lemma_no_space_is_head(n);
    lemma_tokens_step(n);
    lemma_tokens_step(tail(n));
    assert(tokens(n) =~= seq![n]);
}

/// The command line `w + ' ' + rest` splits into the command `w` and the parameters `rest`.
proof fn lemma_command_split(w: Seq<char>, rest: Seq<char>)
    requires
        !has_space(w),
    ensures
        head(w + seq![' '] + rest) == w,
        tail(w + seq![' '] + rest) == rest,
{
    lemma_split_is_head_tail(w + seq![' '] + rest, w, rest);
}

proof fn lemma_round_trip_create(name: Seq<char>)
    requires
        plain_name(name),
    ensures
        request_of(line_of(RequestView::Create { name })) == Some(RequestView::Create { name }),
{
    lemma_commands_have_no_space();
    lemma_command_split("create"@, name);
    lemma_single_token(name);
}

proof fn lemma_round_trip_bind(name: Seq<char>, register: u8)
    requires
        plain_name(name),
    ensures
        request_of(line_of(RequestView::Bind { name, register })) == Some(
            RequestView::Bind { name, register },
        ),
{
    lemma_commands_have_no_space();
    lemma_commands_distinct();
    let digits = nat_text(register as nat);
    let rest = name + seq![' '] + digits;
    lemma_u8_text(register);
    assert(line_of(RequestView::Bind { name, register }) =~= "bind"@ + seq![' '] + rest);
    lemma_command_split("bind"@, rest);
    lemma_split_is_head_tail(rest, name, digits);
    lemma_tokens_step(rest);
    lemma_single_token(digits);
    assert(tokens(rest) =~= seq![name, digits]);
}

proof fn lemma_round_trip_register(cmd: Seq<char>, register: u8)
    requires
        cmd == "unbind"@ || cmd == "goto"@ || cmd == "moveto"@,
    ensures
        ({
            let line = cmd + seq![' '] + nat_text(register as nat);
            &&& head(line) == cmd
            &&& tokens(tail(line)) == seq![nat_text(register as nat)]
            &&& u8_of(nat_text(register as nat)) == Some(register)
        }),
{
    lemma_commands_have_no_space();
    lemma_u8_text(register);
    lemma_command_split(cmd, nat_text(register as nat));
    lemma_single_token(nat_text(register as nat));
}

proof fn lemma_round_trip_read(w: Option<WorkspaceView>)
    requires
        encodable(RequestView::Read { workspace: w }),
    ensures
        request_of(line_of(RequestView::Read { workspace: w })) == Some(
            RequestView::Read { workspace: w },
        ),
{
    lemma_commands_have_no_space();
    lemma_commands_distinct();
    match w {
        None => {
            lemma_no_space_is_head("read"@);
            lemma_tokens_step(Seq::<char>::empty());
            reveal_strlit("read");
        },
        Some(t) => {
            let text = target_text(t);
            match t {
                WorkspaceView::Register(b) => {
                    lemma_u8_text(b);
                },
                WorkspaceView::Workspace(n) => {},
            }
            lemma_command_split("read"@, text);
            lemma_single_token(text);
        },
    }
}

/// A request whose names read back reads back as itself from the message that encodes it.
pub proof fn lemma_decode_encode(q: RequestView)
    requires
        encodable(q),
    ensures
        request_of(frame(line_of(q) + seq!['\n'])) == Some(q),
{
    assert(frame(line_of(q) + seq!['\n']) =~= line_of(q));
    match q {
        RequestView::Create { name } => lemma_round_trip_create(name),
        RequestView::Bind { name, register } => lemma_round_trip_bind(name, register),
        RequestView::Unbind { register } => {
            lemma_commands_distinct();
            lemma_round_trip_register("unbind"@, register);
        },
        RequestView::Goto { register } => {
            lemma_commands_distinct();
            lemma_round_trip_register("goto"@, register);
        },
        RequestView::Moveto { register } => {
            lemma_commands_distinct();
            lemma_round_trip_register("moveto"@, register);
        },
        RequestView::Read { workspace } => lemma_round_trip_read(workspace),
        RequestView::Flush => {
            lemma_commands_have_no_space();
            lemma_commands_distinct();
            lemma_no_space_is_head("flush"@);
            lemma_tokens_step(Seq::<char>::empty());
            reveal_strlit("flush");
        },
    }
}

} // verus!
