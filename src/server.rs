//! Handling one request of a client against the registry and the connection's batch of
//! compositor directives.
use vstd::prelude::*;
use crate::hypr::{goto_directive, moveto_directive, Hypr, Workspace as HyprWorkspace};
use crate::registry::{
    listing, read_fails_with, read_succeeds, snapshot_text, Registry, RegistryError, RegistryView,
};
use crate::request::{Request, RequestView};

verus! {

/// What the connection does once a request has been handled.
#[derive(Debug)]
pub enum Action {
    /// Nothing is sent back.
    Nothing,
    /// This text is sent back.
    Reply(String),
    /// The pending directives are sent to the compositor now, and its reply is sent back.
    Flush,
}

/// Whether the request changes the registry: `create`, `bind` and `unbind` do.
pub open spec fn changes_registry(q: RequestView) -> bool {
    q is Create || q is Bind || q is Unbind
}

/// The registry after request `q`: `create` adds its workspace when the name is free, `bind`
/// and `unbind` change one register, and the other requests leave it as it is.
pub open spec fn step(m: RegistryView, q: RequestView) -> RegistryView {
    match q {
        RequestView::Create { name } => if m.can_create(name) {
            m.create(name)
        } else {
            m
        },
        RequestView::Bind { name, register } => m.bind(name, register),
        RequestView::Unbind { register } => m.unbind(register),
        _ => m,
    }
}

/// The registry after the requests `qs`, in order.
pub open spec fn run(m: RegistryView, qs: Seq<RequestView>) -> RegistryView
    decreases qs.len(),
{
    if qs.len() == 0 {
        m
    } else {
        step(run(m, qs.drop_last()), qs.last())
    }
}

/// Whether request `q` binds or unbinds register `r`.
pub open spec fn touches(q: RequestView, r: u8) -> bool {
    match q {
        RequestView::Bind { register, .. } => register == r,
        RequestView::Unbind { register } => register == r,
        _ => false,
    }
}

impl<'a> Request<'a> {
    /// Whether handling this request changes the registry, and so needs it alone.
    pub fn changes_registry(&self) -> (r: bool)
        ensures
            r == changes_registry(self@),
    {
        match self {
            Request::Create { .. } | Request::Bind { .. } | Request::Unbind { .. } => true,
            _ => false,
        }
    }
}

impl Registry {
    /// Handles a request that changes the registry: `create`, `bind` or `unbind`. Only `create`
    /// can fail, when its name is in use.
    pub fn apply(&mut self, request: &Request) -> (r: Result<(), RegistryError>)
        requires
            old(self).wf(),
            changes_registry(request@),
        ensures
            final(self).wf(),
            final(self)@ == step(old(self)@, request@),
            match request@ {
                RequestView::Create { name } => (r is Ok <==> old(self)@.can_create(name)) && (r is Err
                    ==> r matches Err(RegistryError::NameInUse)),
                _ => r is Ok,
            },
    {
        match request {
            Request::Create { name } => self.create(name),
            Request::Bind { name, register } => {
                self.bind(name, *register);
                Ok(())
            },
            Request::Unbind { register } => {
                self.unbind(*register);
                Ok(())
            },
            _ => Ok(()),
        }
    }

    /// Handles a request that only reads the registry. `goto` and `moveto` queue one directive
    /// for the workspace name that their register points at, and fail, queueing nothing, when it
    /// points at none; `read` answers with the text of a snapshot, written straight from the
    /// registry; `flush` asks the connection to
    /// send the pending directives.
    pub fn answer(&self, hypr: &mut Hypr, request: &Request) -> (r: Result<Action, RegistryError>)
        requires
            self.wf(),
            old(hypr).wf(),
            !changes_registry(request@),
        ensures
            final(hypr).wf(),
            final(hypr).path() == old(hypr).path(),
            match request@ {
                RequestView::Goto { register } => match self@.resolve(register) {
                    Some(n) => (r matches Ok(Action::Nothing)) && final(hypr).directives()
                        == old(hypr).directives() + goto_directive(n),
                    None => (r matches Err(RegistryError::UnboundRegister(b)) && b == register)
                        && final(hypr).directives() == old(hypr).directives(),
                },
                RequestView::Moveto { register } => match self@.resolve(register) {
                    Some(n) => (r matches Ok(Action::Nothing)) && final(hypr).directives()
                        == old(hypr).directives() + moveto_directive(n),
                    None => (r matches Err(RegistryError::UnboundRegister(b)) && b == register)
                        && final(hypr).directives() == old(hypr).directives(),
                },
                RequestView::Read { workspace } => {
                    &&& final(hypr).directives() == old(hypr).directives()
                    &&& r is Ok <==> read_succeeds(self@, workspace)
                    &&& r matches Ok(a) ==> (a matches Action::Reply(t) && exists|
                        names: Seq<Seq<char>>,
                        regs: Seq<(u8, Seq<char>)>,
                    | listing(self@, workspace, names, regs) && t@ == snapshot_text(names, regs))
                    &&& r matches Err(e) ==> read_fails_with(self@, workspace, e)
                },
                RequestView::Flush => (r matches Ok(Action::Flush)) && final(hypr).directives()
                    == old(hypr).directives(),
                _ => false,
            },
    {
        match request {
            Request::Goto { register } => match self.resolve(*register) {
                Ok(name) => {
                    hypr.go_to(HyprWorkspace::Name(name));
                    Ok(Action::Nothing)
                },
                Err(e) => Err(e),
            },
            Request::Moveto { register } => match self.resolve(*register) {
                Ok(name) => {
                    hypr.move_to(HyprWorkspace::Name(name));
                    Ok(Action::Nothing)
                },
                Err(e) => Err(e),
            },
            Request::Read { workspace } => match self.read_text(*workspace) {
                Ok(text) => Ok(Action::Reply(text)),
                Err(e) => Err(e),
            },
            _ => Ok(Action::Flush),
        }
    }
}

/// Workspaces are never removed: a created workspace stays, whatever requests follow.
pub proof fn lemma_workspaces_stay(m: RegistryView, qs: Seq<RequestView>, n: Seq<char>)
    requires
        m.workspaces.contains(n),
    ensures
        run(m, qs).workspaces.contains(n),
    decreases qs.len(),
{
    if qs.len() > 0 {
        lemma_workspaces_stay(m, qs.drop_last(), n);
    }
}

/// A name is created once: `create` of a name not in use succeeds and adds its workspace, and
/// after it, whatever requests follow, `create` of that name fails.
pub proof fn lemma_create_once(m: RegistryView, n: Seq<char>, later: Seq<RequestView>)
    requires
        m.can_create(n),
    ensures
        step(m, RequestView::Create { name: n }) == m.create(n),
        m.create(n).workspaces.contains(n),
        !run(m.create(n), later).can_create(n),
{
    lemma_workspaces_stay(m.create(n), later, n);
}

/// After `bind` of name `n` to register `r`, `r` resolves to `n` as long as no later request
/// binds or unbinds `r`.
pub proof fn lemma_bind_resolves(m: RegistryView, n: Seq<char>, r: u8, later: Seq<RequestView>)
    requires
        forall|i: int| 0 <= i < later.len() ==> !touches(#[trigger] later[i], r),
    ensures
        run(m.bind(n, r), later).resolve(r) == Some(n),
    decreases later.len(),
{
    if later.len() > 0 {
        let prefix = later.drop_last();
        assert forall|i: int| 0 <= i < prefix.len() implies !touches(#[trigger] prefix[i], r) by {
            assert(prefix[i] == later[i]);
        }
        lemma_bind_resolves(m, n, r, prefix);
        assert(!touches(later[later.len() - 1], r));
    }
}

/// After `unbind` of register `r`, `r` resolves to nothing.
pub proof fn lemma_unbind_unresolves(m: RegistryView, r: u8)
    ensures
        m.unbind(r).resolve(r) is None,
{
}

/// `unbind` of a register that is not bound changes nothing; so `unbind` twice is `unbind` once.
pub proof fn lemma_unbind_idempotent(m: RegistryView, r: u8)
    ensures
        !m.registers.contains_key(r) ==> m.unbind(r) == m,
        m.unbind(r).unbind(r) == m.unbind(r),
{
    if !m.registers.contains_key(r) {
        assert(m.registers.remove(r) =~= m.registers);
    }
    assert(m.registers.remove(r).remove(r) =~= m.registers.remove(r));
}

} // verus!
