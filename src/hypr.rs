//! The batch of dispatch directives for the compositor: directives are gathered in one buffer,
//! behind a batch marker, and sent as one message.
use vstd::prelude::*;
use crate::text::{int_text, nat_text, decimal};

verus! {

/// The token that opens every batch message.
pub const BATCH: &'static str = "[[BATCH]]";

/// A workspace as the compositor's dispatch directives select it.
#[derive(Debug, Clone, Copy)]
pub enum Workspace<'a> {
    Id(i32),
    RelativeId(i32),
    RelativeMonitor(i32),
    RelativeMonitorEmpty(i32),
    RelativeOpen(i32),
    Previous,
    Empty,
    Name(&'a str),
    Special(Option<&'a str>),
}

/// Decimal text of `n` with its sign always written.
pub open spec fn signed_text(n: int) -> Seq<char> {
    if n >= 0 {
        seq!['+'] + nat_text(n as nat)
    } else {
        int_text(n)
    }
}

/// How a directive names the workspace `w`.
pub open spec fn workspace_text(w: Workspace) -> Seq<char> {
    match w {
        Workspace::Id(id) => int_text(id as int),
        Workspace::RelativeId(rel) => signed_text(rel as int),
        Workspace::RelativeMonitor(rel) => "m"@ + signed_text(rel as int),
        Workspace::RelativeMonitorEmpty(rel) => "r"@ + signed_text(rel as int),
        Workspace::RelativeOpen(open) => "e"@ + signed_text(open as int),
        Workspace::Previous => "previous"@,
        Workspace::Empty => "empty"@,
        Workspace::Name(name) => name@,
        Workspace::Special(None) => "special"@,
        Workspace::Special(Some(name)) => "special:"@ + name@,
    }
}

fn signed(n: i32) -> (r: String)
    ensures
        r@ == signed_text(n as int),
{
    let mut out = String::new();
    if n >= 0 {
        out.append("+");
        proof {
            reveal_strlit("+");
        }
    }
    let digits = decimal(n);
    out.append(digits.as_str());
    proof {
        reveal_strlit("");
        assert(out@ =~= signed_text(n as int));
    }
    out
}

impl<'a> Workspace<'a> {
    /// How a directive names this workspace.
    pub fn text(&self) -> (r: String)
        ensures
            r@ == workspace_text(*self),
    {
        match self {
            Workspace::Id(id) => decimal(*id),
            Workspace::RelativeId(rel) => signed(*rel),
            Workspace::RelativeMonitor(rel) => String::from_str("m").concat(signed(*rel).as_str()),
            Workspace::RelativeMonitorEmpty(rel) => String::from_str("r").concat(signed(*rel).as_str()),
            Workspace::RelativeOpen(open) => String::from_str("e").concat(signed(*open).as_str()),
            Workspace::Previous => String::from_str("previous"),
            Workspace::Empty => String::from_str("empty"),
            Workspace::Name(name) => String::from_str(name),
            Workspace::Special(None) => String::from_str("special"),
            Workspace::Special(Some(name)) => String::from_str("special:").concat(name),
        }
    }
}

/// The directive that switches to the workspace named `ws`.
pub open spec fn goto_directive(ws: Seq<char>) -> Seq<char> {
    "/dispatch workspace "@ + ws + ";"@
}

/// The directive that moves the focused window to the workspace named `ws`, staying where it is.
pub open spec fn moveto_directive(ws: Seq<char>) -> Seq<char> {
    "/dispatch movetoworkspacesilent "@ + ws + ";"@
}

/// The message that sends `directives`: the batch marker, then the directives.
pub open spec fn batch_message(directives: Seq<char>) -> Seq<char> {
    BATCH@ + directives
}

/// The pending directives for the compositor, and where its control socket is.
#[derive(Debug)]
pub struct Hypr {
    buffer: String,
    socket_path: String,
}

impl Hypr {
    /// The buffer opens with the batch marker.
    pub closed spec fn wf(&self) -> bool {
        &&& self.buffer@.len() >= BATCH@.len()
        &&& self.buffer@.take(BATCH@.len() as int) == BATCH@
    }

    /// The directives gathered since the last flush, in order.
    pub closed spec fn directives(&self) -> Seq<char> {
        self.buffer@.skip(BATCH@.len() as int)
    }

    /// Where the compositor's control socket is.
    pub closed spec fn path(&self) -> Seq<char> {
        self.socket_path@
    }

    /// A batch with no directives, for the compositor socket at `socket_path`.
    pub fn new(socket_path: &str) -> (r: Self)
        ensures
            r.wf(),
            r.directives() == Seq::<char>::empty(),
            r.path() == socket_path@,
    {
        let r = Self { buffer: String::from_str(BATCH), socket_path: String::from_str(socket_path) };
        assert(r.buffer@.take(BATCH@.len() as int) =~= BATCH@);
        assert(r.directives() =~= Seq::<char>::empty());
        r
    }

    /// Drops the pending directives.
    pub fn clear(&mut self)
        ensures
            final(self).wf(),
            final(self).directives() == Seq::<char>::empty(),
            final(self).path() == old(self).path(),
    {
        self.buffer = String::from_str(BATCH);
        assert(self.buffer@.take(BATCH@.len() as int) =~= BATCH@);
        assert(self.directives() =~= Seq::<char>::empty());
    }

    fn push_directive(&mut self, verb: &str, workspace: Workspace)
        requires
            old(self).wf(),
        ensures
            final(self).wf(),
            final(self).directives() == old(self).directives() + verb@ + workspace_text(workspace) + ";"@,
            final(self).path() == old(self).path(),
    {
        let ghost before = self.buffer@;
        self.buffer.append(verb);
        let text = workspace.text();
        self.buffer.append(text.as_str());
        self.buffer.append(";");
        proof {
            let tail = verb@ + workspace_text(workspace) + ";"@;
            assert(self.buffer@ =~= before + tail);
            assert(self.buffer@.take(BATCH@.len() as int) =~= before.take(BATCH@.len() as int));
            assert(self.directives() =~= before.skip(BATCH@.len() as int) + tail);
        }
    }

    /// Queues a switch to `workspace`.
    pub fn go_to(&mut self, workspace: Workspace)
        requires
            old(self).wf(),
        ensures
            final(self).wf(),
            final(self).directives() == old(self).directives() + goto_directive(workspace_text(workspace)),
            final(self).path() == old(self).path(),
    {
        self.push_directive("/dispatch workspace ", workspace);
        assert(self.directives() =~= old(self).directives() + goto_directive(workspace_text(workspace)));
    }

    /// Queues a move of the focused window to `workspace`, without switching to it.
    pub fn move_to(&mut self, workspace: Workspace)
        requires
            old(self).wf(),
        ensures
            final(self).wf(),
            final(self).directives() == old(self).directives() + moveto_directive(workspace_text(workspace)),
            final(self).path() == old(self).path(),
    {
        self.push_directive("/dispatch movetoworkspacesilent ", workspace);
        assert(self.directives() =~= old(self).directives() + moveto_directive(workspace_text(workspace)));
    }

    /// The message to send to the compositor, if any directive is pending.
    pub fn pending(&self) -> (r: Option<&str>)
        requires
            self.wf(),
        ensures
            r is None <==> self.directives().len() == 0,
            r matches Some(m) ==> m@ == batch_message(self.directives()),
    {
        let m = self.buffer.as_str();
        proof {
            assert(m@ =~= batch_message(self.directives()));
        }
        if m.unicode_len() > BATCH.unicode_len() {
            Some(m)
        } else {
            None
        }
    }

    /// Where the compositor's control socket is.
    pub fn socket_path(&self) -> (r: &str)
        ensures
            r@ == self.path(),
    {
        self.socket_path.as_str()
    }
}

} // verus!
