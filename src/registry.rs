//! The registry: the workspaces that were created, and the registers that point at workspace
//! names. Names are interned: each distinct name is stored once, and registers refer to it by
//! its index.
use vstd::prelude::*;
use crate::request::{Workspace, WorkspaceView};
use crate::text::{decimal, nat_text};

verus! {

/// The options of one workspace.
#[derive(Debug, Clone, Copy, PartialEq, Eq, Structural)]
pub struct WorkspaceSettings {}

/// The number of registers; registers are numbered from 0.
pub const REGISTERS: usize = 256;

/// The content of a registry: the names of the created workspaces, and the name that each bound
/// register points at.
pub struct RegistryView {
    pub workspaces: Set<Seq<char>>,
    pub registers: Map<u8, Seq<char>>,
}

impl RegistryView {
    /// Whether `create` of the name `n` succeeds.
    pub open spec fn can_create(self, n: Seq<char>) -> bool {
        !self.workspaces.contains(n)
    }

    pub open spec fn create(self, n: Seq<char>) -> RegistryView {
        RegistryView { workspaces: self.workspaces.insert(n), registers: self.registers }
    }

    pub open spec fn bind(self, n: Seq<char>, r: u8) -> RegistryView {
        RegistryView { workspaces: self.workspaces, registers: self.registers.insert(r, n) }
    }

    pub open spec fn unbind(self, r: u8) -> RegistryView {
        RegistryView { workspaces: self.workspaces, registers: self.registers.remove(r) }
    }

    /// The name that register `r` points at, if it is bound.
    pub open spec fn resolve(self, r: u8) -> Option<Seq<char>> {
        if self.registers.contains_key(r) {
            Some(self.registers[r])
        } else {
            None
        }
    }
}

/// The bindings of `m` whose name is `n`.
pub open spec fn pointing_at(m: Map<u8, Seq<char>>, n: Seq<char>) -> Map<u8, Seq<char>> {
    Map::new(|r: u8| m.contains_key(r) && m[r] == n, |r: u8| m[r])
}

/// Whether `names` lists the elements of `s`, each once.
pub open spec fn lists_names(names: Seq<Seq<char>>, s: Set<Seq<char>>) -> bool {
    &&& names.no_duplicates()
    &&& forall|n: Seq<char>| names.contains(n) <==> s.contains(n)
}

/// Whether `regs` lists the bindings of `m`, in ascending order of register.
pub open spec fn lists_registers(regs: Seq<(u8, Seq<char>)>, m: Map<u8, Seq<char>>) -> bool {
    &&& forall|i: int, j: int| 0 <= i < j < regs.len() ==> (#[trigger] regs[i]).0 < (#[trigger] regs[j]).0
    &&& forall|i: int| 0 <= i < regs.len() ==> m.contains_key((#[trigger] regs[i]).0) && m[regs[i].0] == regs[i].1
    &&& forall|r: u8| #[trigger] m.contains_key(r) ==> exists|i: int| 0 <= i < regs.len() && (#[trigger] regs[i]).0 == r
}

/// A snapshot of the registry: workspace entries, and register bindings by ascending register.
#[derive(Debug)]
pub struct ReadResponse {
    pub workspaces: Vec<(String, WorkspaceSettings)>,
    pub registers: Vec<(u8, String)>,
}

/// The names of workspace entries.
pub open spec fn entry_names(ws: Seq<(String, WorkspaceSettings)>) -> Seq<Seq<char>> {
    ws.map_values(|e: (String, WorkspaceSettings)| e.0@)
}

/// Register bindings, with names as text.
pub open spec fn register_entries(regs: Seq<(u8, String)>) -> Seq<(u8, Seq<char>)> {
    regs.map_values(|e: (u8, String)| (e.0, e.1@))
}

/// Why a registry operation failed.
#[derive(Debug, PartialEq, Eq)]
pub enum RegistryError {
    /// A workspace of that name exists already.
    NameInUse,
    /// The register points at no workspace name.
    UnboundRegister(u8),
    /// No workspace of that name was created.
    UnknownWorkspace(String),
    /// The register asked about points at no workspace name.
    UnknownRegister(u8),
}

/// The registry of workspaces and registers.
pub struct Registry {
    /// Every name that a workspace or a register has, each once.
    names: Vec<String>,
    /// For the name of the same index: the settings of its workspace, when one was created.
    settings: Vec<Option<WorkspaceSettings>>,
    /// For each register, the index of the name it points at.
    registers: Vec<Option<usize>>,
}

impl View for Registry {
    type V = RegistryView;

    closed spec fn view(&self) -> RegistryView {
        RegistryView {
            workspaces: Set::new(
                |n: Seq<char>|
                    exists|i: int|
                        0 <= i < self.names@.len() && (#[trigger] self.names@[i])@ == n
                            && self.settings@[i] is Some,
            ),
            registers: Map::new(
                |r: u8| self.registers@[r as int] is Some,
                |r: u8| self.names@[self.registers@[r as int]->0 as int]@,
            ),
        }
    }
}

impl Registry {
    /// The registry's own consistency: names are distinct, and registers refer to stored names.
    pub closed spec fn wf(&self) -> bool {
        &&& self.names@.len() == self.settings@.len()
        &&& self.registers@.len() == REGISTERS
        &&& forall|i: int, j: int|
            0 <= i < j < self.names@.len() ==> (#[trigger] self.names@[i])@ != (#[trigger] self.names@[j])@
        &&& forall|r: int|
            0 <= r < REGISTERS ==> (#[trigger] self.registers@[r] matches Some(i) ==> i < self.names@.len())
    }

    /// An empty registry.
    pub fn new() -> (r: Self)
        ensures
            r.wf(),
            r@.workspaces == Set::<Seq<char>>::empty(),
            r@.registers == Map::<u8, Seq<char>>::empty(),
    {
        let mut registers: Vec<Option<usize>> = Vec::new();
        while registers.len() < REGISTERS
            invariant
                registers@.len() <= REGISTERS,
                forall|r: int| 0 <= r < registers@.len() ==> registers@[r] is None,
            decreases REGISTERS - registers@.len(),
        {
            registers.push(None);
        }
        let r = Registry { names: Vec::new(), settings: Vec::new(), registers };
        assert(r@.workspaces =~= Set::<Seq<char>>::empty());
        assert(r@.registers =~= Map::<u8, Seq<char>>::empty());
        r
    }

    /// The index of the stored name `name`, if it is stored.
    fn find(&self, name: &String) -> (r: Option<usize>)
        requires
            self.wf(),
        ensures
            r matches Some(i) ==> i < self.names@.len() && self.names@[i as int]@ == name@,
            r is None ==> forall|i: int| 0 <= i < self.names@.len() ==> (#[trigger] self.names@[i])@ != name@,
    {
        let mut i: usize = 0;
        while i < self.names.len()
            invariant
                i <= self.names@.len(),
                forall|k: int| 0 <= k < i ==> (#[trigger] self.names@[k])@ != name@,
            decreases self.names@.len() - i,
        {
            if self.names[i] == *name {
                return Some(i);
            }
            i = i + 1;
        }
        None
    }

    /// The index of `name`, stored first when it is new.
    fn intern(&mut self, name: String) -> (r: usize)
        requires
            old(self).wf(),
        ensures
            final(self).wf(),
            r < final(self).names@.len(),
            final(self).names@[r as int]@ == name@,
            final(self)@ == old(self)@,
            final(self).registers == old(self).registers,
            final(self).names@.len() >= old(self).names@.len(),
            forall|i: int| 0 <= i < old(self).names@.len() ==> final(self).names@[i] == old(self).names@[i]
                && final(self).settings@[i] == old(self).settings@[i],
            r >= old(self).names@.len() ==> final(self).settings@[r as int] is None,
    {
        match self.find(&name) {
            Some(i) => i,
            None => {
                let ghost before = *self;
                let i = self.names.len();
                self.names.push(name);
                self.settings.push(None);
                proof {
                    assert(self@.workspaces =~= before@.workspaces) by {
                        assert forall|n: Seq<char>| self@.workspaces.contains(n) implies before@.workspaces.contains(n) by {
                            let k = choose|k: int|
                                0 <= k < self.names@.len() && (#[trigger] self.names@[k])@ == n
                                    && self.settings@[k] is Some;
                            assert(k < before.names@.len());
                            assert(before.names@[k] == self.names@[k]);
                        }
                        assert forall|n: Seq<char>| before@.workspaces.contains(n) implies self@.workspaces.contains(n) by {
                            let k = choose|k: int|
                                0 <= k < before.names@.len() && (#[trigger] before.names@[k])@ == n
                                    && before.settings@[k] is Some;
                            assert(self.names@[k] == before.names@[k]);
                        }
                    }
                    assert(self@.registers =~= before@.registers) by {
                        assert forall|r: u8| #[trigger] self@.registers.contains_key(r) implies self@.registers[r] == before@.registers[r] by {
                            assert(0 <= r < REGISTERS);
                        }
                    }
                }
                i
            },
        }
    }
}

impl Registry {
    /// Creates the workspace `name`; fails when it exists already.
    pub fn create(&mut self, name: &str) -> (r: Result<(), RegistryError>)
        requires
            old(self).wf(),
        ensures
            final(self).wf(),
            r is Ok <==> old(self)@.can_create(name@),
            r is Ok ==> final(self)@ == old(self)@.create(name@),
            r is Err ==> (r matches Err(RegistryError::NameInUse) && final(self)@ == old(self)@),
    {
        let ghost before = *self;
        let i = self.intern(String::from_str(name));
        let ghost interned = *self;
        if self.settings[i].is_some() {
            proof {
                assert(self.names@[i as int]@ == name@);
                assert(old(self)@.workspaces.contains(name@));
            }
            return Err(RegistryError::NameInUse);
        }
        self.settings.set(i, Some(WorkspaceSettings {}));
        proof {
            assert(!before@.workspaces.contains(name@)) by {
                if before@.workspaces.contains(name@) {
                    let k = choose|k: int|
                        0 <= k < interned.names@.len() && (#[trigger] interned.names@[k])@ == name@
                            && interned.settings@[k] is Some;
                    assert(k == i);
                }
            }
            assert(self@.workspaces =~= before@.workspaces.insert(name@)) by {
                assert forall|n: Seq<char>| self@.workspaces.contains(n) implies before@.workspaces.insert(name@).contains(n) by {
                    let k = choose|k: int|
                        0 <= k < self.names@.len() && (#[trigger] self.names@[k])@ == n
                            && self.settings@[k] is Some;
                    if k != i {
                        assert(interned.names@[k] == self.names@[k]);
                        assert(interned@.workspaces.contains(n));
                    }
                }
                assert forall|n: Seq<char>| before@.workspaces.insert(name@).contains(n) implies self@.workspaces.contains(n) by {
                    if n == name@ {
                        assert(self.names@[i as int]@ == n);
                    } else {
                        assert(interned@.workspaces.contains(n));
                        let k = choose|k: int|
                            0 <= k < interned.names@.len() && (#[trigger] interned.names@[k])@ == n
                                && interned.settings@[k] is Some;
                        assert(self.names@[k] == interned.names@[k]);
                    }
                }
            }
            assert(self@.registers =~= before@.registers) by {
                assert forall|r: u8| #[trigger] self@.registers.contains_key(r) implies self@.registers[r] == interned@.registers[r] by {
                    assert(0 <= r < REGISTERS);
                }
            }
        }
        Ok(())
    }

    /// Points register `register` at the name `name`, whether or not a workspace of that name
    /// exists; a previous binding of the register is replaced.
    pub fn bind(&mut self, name: &str, register: u8)
        requires
            old(self).wf(),
        ensures
            final(self).wf(),
            final(self)@ == old(self)@.bind(name@, register),
    {
        let ghost before = *self;
        let i = self.intern(String::from_str(name));
        let ghost interned = *self;
        self.registers.set(register as usize, Some(i));
        proof {
            assert(self@.workspaces =~= before@.workspaces) by {
                assert forall|n: Seq<char>| self@.workspaces.contains(n) implies interned@.workspaces.contains(n) by {
                    let k = choose|k: int|
                        0 <= k < self.names@.len() && (#[trigger] self.names@[k])@ == n
                            && self.settings@[k] is Some;
                    assert(interned.names@[k] == self.names@[k]);
                }
                assert forall|n: Seq<char>| interned@.workspaces.contains(n) implies self@.workspaces.contains(n) by {
                    let k = choose|k: int|
                        0 <= k < interned.names@.len() && (#[trigger] interned.names@[k])@ == n
                            && interned.settings@[k] is Some;
                    assert(self.names@[k] == interned.names@[k]);
                }
            }
            assert(self@.registers =~= before@.registers.insert(register, name@)) by {
                assert forall|r: u8| #[trigger] self@.registers.contains_key(r) implies self@.registers[r] == before@.registers.insert(register, name@)[r] by {
                    assert(0 <= r < REGISTERS);
                }
                assert forall|r: u8| #[trigger] before@.registers.insert(register, name@).contains_key(r) implies self@.registers.contains_key(r) by {
                    assert(0 <= r < REGISTERS);
                }
            }
        }
    }

    /// Removes the binding of register `register`, if it has one.
    pub fn unbind(&mut self, register: u8)
        requires
            old(self).wf(),
        ensures
            final(self).wf(),
            final(self)@ == old(self)@.unbind(register),
    {
        let ghost before = *self;
        self.registers.set(register as usize, None);
        proof {
            assert(self@.workspaces =~= before@.workspaces);
            assert(self@.registers =~= before@.registers.remove(register)) by {
                assert forall|r: u8| #[trigger] self@.registers.contains_key(r) implies self@.registers[r] == before@.registers[r] by {
                    assert(0 <= r < REGISTERS);
                }
            }
        }
    }

    /// The name that register `register` points at.
    pub fn resolve(&self, register: u8) -> (r: Result<&str, RegistryError>)
        requires
            self.wf(),
        ensures
            r is Ok <==> self@.resolve(register) is Some,
            r matches Ok(n) ==> self@.resolve(register) == Some(n@),
            r is Err ==> (r matches Err(RegistryError::UnboundRegister(b)) && b == register),
    {
        match self.registers[register as usize] {
            Some(i) => Ok(self.names[i].as_str()),
            None => Err(RegistryError::UnboundRegister(register)),
        }
    }
}

impl Registry {
    /// The bindings of all registers, or of those that point at the name of index `only`.
    fn registers_of(&self, only: Option<usize>) -> (r: Vec<(u8, String)>)
        requires
            self.wf(),
            only matches Some(i) ==> i < self.names@.len(),
        ensures
            lists_registers(
                register_entries(r@),
                match only {
                    Some(i) => pointing_at(self@.registers, self.names@[i as int]@),
                    None => self@.registers,
                },
            ),
    {
        let ghost m = match only {
            Some(i) => pointing_at(self@.registers, self.names@[i as int]@),
            None => self@.registers,
        };
        let mut out: Vec<(u8, String)> = Vec::new();
        let mut k: usize = 0;
        while k < REGISTERS
            invariant
                self.wf(),
                k <= REGISTERS,
                m == match only {
                    Some(i) => pointing_at(self@.registers, self.names@[i as int]@),
                    None => self@.registers,
                },
                only matches Some(i) ==> i < self.names@.len(),
                forall|a: int| 0 <= a < out@.len() ==> (#[trigger] out@[a]).0 < k,
                lists_registers(
                    register_entries(out@),
                    Map::new(|r: u8| m.contains_key(r) && r < k, |r: u8| m[r]),
                ),
            decreases REGISTERS - k,
        {
            let ghost before = register_entries(out@);
            let ghost mk = Map::new(|r: u8| m.contains_key(r) && r < k, |r: u8| m[r]);
            let ghost mk1 = Map::new(|r: u8| m.contains_key(r) && r < k + 1, |r: u8| m[r]);
            let register = k as u8;
            let wanted = match self.registers[k] {
                Some(i) => match only {
                    Some(o) => i == o,
                    None => true,
                },
                None => false,
            };
            proof {
                if let Some(i) = self.registers@[k as int] {
                    if let Some(o) = only {
                        if i != o {
                            assert(self.names@[i as int]@ != self.names@[o as int]@);
                        }
                    }
                }
                assert(wanted == m.contains_key(register));
            }
            if wanted {
                let i = self.registers[k].unwrap();
                out.push((register, self.names[i].clone()));
                proof {
                    let after = register_entries(out@);
                    assert(after =~= before.push((register, m[register])));
                    assert forall|r: u8| #[trigger] mk1.contains_key(r) implies exists|a: int|
                        0 <= a < after.len() && (#[trigger] after[a]).0 == r by {
                        if r < k {
                            assert(mk.contains_key(r));
                            let a = choose|a: int| 0 <= a < before.len() && (#[trigger] before[a]).0 == r;
                            assert(after[a] == before[a]);
                        } else {
                            assert(after[after.len() - 1].0 == r);
                        }
                    }
                }
            } else {
                proof {
                    assert(mk1 =~= mk);
                }
            }
            k = k + 1;
        }
        proof {
            let final_map = Map::new(|r: u8| m.contains_key(r) && r < k, |r: u8| m[r]);
            assert(final_map =~= m);
        }
        out
    }

    /// The names of the created workspaces among the first `i` stored names, in order.
    closed spec fn created_prefix(&self, i: int) -> Seq<Seq<char>>
        decreases i,
    {
        if i <= 0 {
            Seq::empty()
        } else if self.settings@[i - 1] is Some {
            self.created_prefix(i - 1).push(self.names@[i - 1]@)
        } else {
            self.created_prefix(i - 1)
        }
    }

    proof fn lemma_created_prefix(&self, i: int)
        requires
            self.wf(),
            0 <= i <= self.names@.len(),
        ensures
            self.created_prefix(i).no_duplicates(),
            forall|n: Seq<char>| #[trigger] self.created_prefix(i).contains(n) <==> exists|k: int|
                0 <= k < i && (#[trigger] self.names@[k])@ == n && self.settings@[k] is Some,
        decreases i,
    {
        if i > 0 {
            self.lemma_created_prefix(i - 1);
            let p = self.created_prefix(i - 1);
            let last = self.names@[i - 1]@;
            if self.settings@[i - 1] is Some {
                assert(!p.contains(last)) by {
                    if p.contains(last) {
                        let k = choose|k: int|
                            0 <= k < i - 1 && (#[trigger] self.names@[k])@ == last && self.settings@[k] is Some;
                        assert(self.names@[k]@ != self.names@[i - 1]@);
                    }
                }
                assert forall|n: Seq<char>| #[trigger] p.push(last).contains(n) <==> exists|k: int|
                    0 <= k < i && (#[trigger] self.names@[k])@ == n && self.settings@[k] is Some by {
                    if p.push(last).contains(n) {
                        let a = choose|a: int| 0 <= a < p.push(last).len() && p.push(last)[a] == n;
                        if a < p.len() {
                            assert(p.contains(n));
                        } else {
                            assert(self.names@[i - 1]@ == n);
                        }
                    }
                    if exists|k: int| 0 <= k < i && (#[trigger] self.names@[k])@ == n && self.settings@[k] is Some {
                        let k = choose|k: int|
                            0 <= k < i && (#[trigger] self.names@[k])@ == n && self.settings@[k] is Some;
                        if k < i - 1 {
                            assert(p.contains(n));
                            let a = choose|a: int| 0 <= a < p.len() && p[a] == n;
                            assert(p.push(last)[a] == n);
                        } else {
                            assert(p.push(last)[p.len() as int] == n);
                        }
                    }
                }
            } else {
                assert forall|n: Seq<char>| #[trigger] p.contains(n) <==> exists|k: int|
                    0 <= k < i && (#[trigger] self.names@[k])@ == n && self.settings@[k] is Some by {
                    if exists|k: int| 0 <= k < i && (#[trigger] self.names@[k])@ == n && self.settings@[k] is Some {
                        let k = choose|k: int|
                            0 <= k < i && (#[trigger] self.names@[k])@ == n && self.settings@[k] is Some;
                        assert(k < i - 1);
                    }
                }
            }
        }
    }

    /// The entries of all created workspaces.
    fn all_workspaces(&self) -> (r: Vec<(String, WorkspaceSettings)>)
        requires
            self.wf(),
        ensures
            lists_names(entry_names(r@), self@.workspaces),
    {
        let mut out: Vec<(String, WorkspaceSettings)> = Vec::new();
        let mut i: usize = 0;
        while i < self.names.len()
            invariant
                self.wf(),
                i <= self.names@.len(),
                entry_names(out@) == self.created_prefix(i as int),
            decreases self.names@.len() - i,
        {
            let ghost before = out@;
            match self.settings[i] {
                Some(settings) => {
                    out.push((self.names[i].clone(), settings));
                    assert(entry_names(out@) =~= entry_names(before).push(self.names@[i as int]@));
                },
                None => {},
            }
            i = i + 1;
        }
        proof {
            self.lemma_created_prefix(i as int);
            let names = entry_names(out@);
            assert forall|n: Seq<char>| names.contains(n) <==> self@.workspaces.contains(n) by {
                if names.contains(n) {
                    assert(self.created_prefix(i as int).contains(n));
                }
                if self@.workspaces.contains(n) {
                    let k = choose|k: int|
                        0 <= k < self.names@.len() && (#[trigger] self.names@[k])@ == n && self.settings@[k] is Some;
                    assert(self.created_prefix(i as int).contains(n));
                }
            }
        }
        out
    }
}

/// The registers that a successful `read` lists, and the workspaces: every workspace and every
/// binding without a filter; for a workspace name, that workspace and the bindings that point at
/// it; for a register, that register's binding and the workspace it points at.
pub open spec fn read_lists(m: RegistryView, filter: Option<WorkspaceView>, resp: ReadResponse) -> bool {
    listing(m, filter, entry_names(resp.workspaces@), register_entries(resp.registers@))
}

/// Whether `names` and `regs` are the workspace names and the bindings that a successful `read`
/// with this filter lists.
pub open spec fn listing(
    m: RegistryView,
    filter: Option<WorkspaceView>,
    names: Seq<Seq<char>>,
    regs: Seq<(u8, Seq<char>)>,
) -> bool {
    match filter {
        None => lists_names(names, m.workspaces) && lists_registers(regs, m.registers),
        Some(WorkspaceView::Workspace(n)) => names == seq![n] && lists_registers(
            regs,
            pointing_at(m.registers, n),
        ),
        Some(WorkspaceView::Register(b)) => names == seq![m.registers[b]] && regs == seq![
            (b, m.registers[b]),
        ],
    }
}

/// Whether a `read` with this filter fails, and with which error.
pub open spec fn read_fails_with(m: RegistryView, filter: Option<WorkspaceView>, e: RegistryError) -> bool {
    match filter {
        None => false,
        Some(WorkspaceView::Workspace(n)) => !m.workspaces.contains(n) && (e matches RegistryError::UnknownWorkspace(w) && w@ == n),
        Some(WorkspaceView::Register(b)) => if !m.registers.contains_key(b) {
            e == RegistryError::UnknownRegister(b)
        } else {
            !m.workspaces.contains(m.registers[b]) && (e matches RegistryError::UnknownWorkspace(w)
                && w@ == m.registers[b])
        },
    }
}

/// Whether a `read` with this filter succeeds: always without one, when the workspace exists for
/// a name, and when the register is bound to the name of an existing workspace for a register.
pub open spec fn read_succeeds(m: RegistryView, filter: Option<WorkspaceView>) -> bool {
    match filter {
        None => true,
        Some(WorkspaceView::Workspace(n)) => m.workspaces.contains(n),
        Some(WorkspaceView::Register(b)) => m.registers.contains_key(b) && m.workspaces.contains(m.registers[b]),
    }
}

impl Registry {
    /// A snapshot of the workspaces and registers, all of them or those that `filter` selects.
    pub fn read(&self, filter: Option<Workspace>) -> (r: Result<ReadResponse, RegistryError>)
        requires
            self.wf(),
        ensures
            ({
                let f = match filter {
                    Some(w) => Some(w@),
                    None => None,
                };
                &&& r is Ok <==> read_succeeds(self@, f)
                &&& r matches Ok(resp) ==> read_lists(self@, f, resp)
                &&& r matches Err(e) ==> read_fails_with(self@, f, e)
            }),
    {
        match filter {
            None => Ok(ReadResponse { workspaces: self.all_workspaces(), registers: self.registers_of(None) }),
            Some(Workspace::Workspace(n)) => {
                let key = String::from_str(n);
                match self.find(&key) {
                    Some(i) => match self.settings[i] {
                        Some(settings) => {
                            let mut workspaces = Vec::new();
                            workspaces.push((self.names[i].clone(), settings));
                            let registers = self.registers_of(Some(i));
                            proof {
                                assert(self@.workspaces.contains(n@));
                                assert(entry_names(workspaces@) =~= seq![n@]);
                            }
                            Ok(ReadResponse { workspaces, registers })
                        },
                        None => {
                            proof {
                                assert(!self@.workspaces.contains(n@)) by {
                                    if self@.workspaces.contains(n@) {
                                        let k = choose|k: int|
                                            0 <= k < self.names@.len() && (#[trigger] self.names@[k])@ == n@
                                                && self.settings@[k] is Some;
                                        assert(k == i);
                                    }
                                }
                            }
                            Err(RegistryError::UnknownWorkspace(key))
                        },
                    },
                    None => Err(RegistryError::UnknownWorkspace(key)),
                }
            },
            Some(Workspace::Register(b)) => match self.registers[b as usize] {
                None => Err(RegistryError::UnknownRegister(b)),
                Some(i) => match self.settings[i] {
                    Some(settings) => {
                        let mut workspaces = Vec::new();
                        workspaces.push((self.names[i].clone(), settings));
                        let mut registers = Vec::new();
                        registers.push((b, self.names[i].clone()));
                        proof {
                            assert(self@.workspaces.contains(self.names@[i as int]@));
                            assert(entry_names(workspaces@) =~= seq![self@.registers[b]]);
                            assert(register_entries(registers@) =~= seq![(b, self@.registers[b])]);
                        }
                        Ok(ReadResponse { workspaces, registers })
                    },
                    None => {
                        proof {
                            assert(!self@.workspaces.contains(self.names@[i as int]@)) by {
                                if self@.workspaces.contains(self.names@[i as int]@) {
                                    let k = choose|k: int|
                                        0 <= k < self.names@.len() && (#[trigger] self.names@[k])@ == self.names@[i as int]@
                                            && self.settings@[k] is Some;
                                    assert(k == i);
                                }
                            }
                        }
                        Err(RegistryError::UnknownWorkspace(self.names[i].clone()))
                    },
                },
            },
        }
    }
}

/// One line per workspace entry: `workspace <name>`.
pub open spec fn workspace_lines(names: Seq<Seq<char>>) -> Seq<char>
    decreases names.len(),
{
    if names.len() == 0 {
        Seq::empty()
    } else {
        workspace_lines(names.drop_last()) + "workspace "@ + names.last() + "\n"@
    }
}

/// One line per binding: `register <number> <name>`.
pub open spec fn register_lines(regs: Seq<(u8, Seq<char>)>) -> Seq<char>
    decreases regs.len(),
{
    if regs.len() == 0 {
        Seq::empty()
    } else {
        register_lines(regs.drop_last()) + "register "@ + nat_text(regs.last().0 as nat) + " "@
            + regs.last().1 + "\n"@
    }
}

/// The text of a snapshot: the workspace lines, then the register lines.
pub open spec fn snapshot_text(names: Seq<Seq<char>>, regs: Seq<(u8, Seq<char>)>) -> Seq<char> {
    workspace_lines(names) + register_lines(regs)
}

impl ReadResponse {
    /// The text of this snapshot: the workspace lines, then the register lines.
    pub open spec fn text(&self) -> Seq<char> {
        snapshot_text(entry_names(self.workspaces@), register_entries(self.registers@))
    }

    /// The text of this snapshot, as [`ReadResponse::text`] gives it.
    pub fn encode(&self) -> (r: String)
        ensures
            r@ == self.text(),
    {
        let mut out = String::new();
        let mut i: usize = 0;
        while i < self.workspaces.len()
            invariant
                i <= self.workspaces@.len(),
                out@ == workspace_lines(entry_names(self.workspaces@).take(i as int)),
            decreases self.workspaces@.len() - i,
        {
            let ghost before = out@;
            out.append("workspace ");
            out.append(self.workspaces[i].0.as_str());
            out.append("\n");
            proof {
                let names = entry_names(self.workspaces@);
                assert(names.take(i + 1).drop_last() =~= names.take(i as int));
                assert(names.take(i + 1).last() == self.workspaces@[i as int].0@);
                assert(out@ =~= workspace_lines(names.take(i + 1)));
            }
            i = i + 1;
        }
        proof {
            assert(entry_names(self.workspaces@).take(i as int) =~= entry_names(self.workspaces@));
        }
        let ghost head = out@;
        let mut j: usize = 0;
        while j < self.registers.len()
            invariant
                j <= self.registers@.len(),
                head == workspace_lines(entry_names(self.workspaces@)),
                out@ == head + register_lines(register_entries(self.registers@).take(j as int)),
            decreases self.registers@.len() - j,
        {
            let ghost before = out@;
            let (register, name) = (self.registers[j].0, self.registers[j].1.as_str());
            out.append("register ");
            let digits = decimal(register as i32);
            out.append(digits.as_str());
            out.append(" ");
            out.append(name);
            out.append("\n");
            proof {
                let regs = register_entries(self.registers@);
                assert(regs.take(j + 1).drop_last() =~= regs.take(j as int));
                assert(regs.take(j + 1).last() == (register, name@));
                assert(out@ =~= head + register_lines(regs.take(j + 1)));
            }
            j = j + 1;
        }
        proof {
            assert(register_entries(self.registers@).take(j as int) =~= register_entries(self.registers@));
        }
        out
    }
}

impl RegistryError {
    /// The text sent back to the client.
    pub open spec fn text(&self) -> Seq<char> {
        match self {
            RegistryError::NameInUse => "name already in use\n"@,
            RegistryError::UnboundRegister(r) => "register "@ + nat_text(*r as nat)
                + " does not point to any workspace\n"@,
            RegistryError::UnknownWorkspace(n) => n@ + " doesn't point to any valid workspace\n"@,
            RegistryError::UnknownRegister(r) => nat_text(*r as nat) + " does not point to any workspace\n"@,
        }
    }

    /// The text sent back to the client, as [`RegistryError::text`] gives it.
    pub fn message(&self) -> (r: String)
        ensures
            r@ == self.text(),
    {
        match self {
            RegistryError::NameInUse => String::from_str("name already in use\n"),
            RegistryError::UnboundRegister(r) => {
                let mut out = String::from_str("register ");
                let digits = decimal(*r as i32);
                out.append(digits.as_str());
                out.append(" does not point to any workspace\n");
                out
            },
            RegistryError::UnknownWorkspace(n) => {
                let mut out = n.clone();
                out.append(" doesn't point to any valid workspace\n");
                out
            },
            RegistryError::UnknownRegister(r) => {
                let mut out = decimal(*r as i32);
                out.append(" does not point to any workspace\n");
                out
            },
        }
    }
}

impl Registry {
    /// Appends the lines of all created workspaces to `out`.
    fn write_workspaces(&self, out: &mut String)
        requires
            self.wf(),
        ensures
            final(out)@ == old(out)@ + workspace_lines(self.created_prefix(self.names@.len() as int)),
    {
        let mut i: usize = 0;
        while i < self.names.len()
            invariant
                self.wf(),
                i <= self.names@.len(),
                out@ == old(out)@ + workspace_lines(self.created_prefix(i as int)),
            decreases self.names@.len() - i,
        {
            if self.settings[i].is_some() {
                let ghost before = out@;
                out.append("workspace ");
                out.append(self.names[i].as_str());
                out.append("\n");
                proof {
                    let p = self.created_prefix(i as int);
                    let q = self.created_prefix(i + 1);
                    assert(q == p.push(self.names@[i as int]@));
                    assert(q.drop_last() =~= p);
                    assert(out@ =~= old(out)@ + workspace_lines(q));
                }
            }
            i = i + 1;
        }
    }

    /// Appends the lines of the bindings of all registers, or of those that point at the name
    /// of index `only`, in ascending order of register.
    fn write_registers(&self, only: Option<usize>, out: &mut String)
        requires
            self.wf(),
            only matches Some(i) ==> i < self.names@.len(),
        ensures
            exists|regs: Seq<(u8, Seq<char>)>|
                lists_registers(
                    regs,
                    match only {
                        Some(i) => pointing_at(self@.registers, self.names@[i as int]@),
                        None => self@.registers,
                    },
                ) && final(out)@ == old(out)@ + register_lines(regs),
    {
        let ghost m = match only {
            Some(i) => pointing_at(self@.registers, self.names@[i as int]@),
            None => self@.registers,
        };
        let ghost mut regs: Seq<(u8, Seq<char>)> = Seq::empty();
        let mut k: usize = 0;
        while k < REGISTERS
            invariant
                self.wf(),
                k <= REGISTERS,
                m == match only {
                    Some(i) => pointing_at(self@.registers, self.names@[i as int]@),
                    None => self@.registers,
                },
                only matches Some(i) ==> i < self.names@.len(),
                forall|a: int| 0 <= a < regs.len() ==> (#[trigger] regs[a]).0 < k,
                lists_registers(regs, Map::new(|r: u8| m.contains_key(r) && r < k, |r: u8| m[r])),
                out@ == old(out)@ + register_lines(regs),
            decreases REGISTERS - k,
        {
            let ghost before = regs;
            let ghost mk = Map::new(|r: u8| m.contains_key(r) && r < k, |r: u8| m[r]);
            let ghost mk1 = Map::new(|r: u8| m.contains_key(r) && r < k + 1, |r: u8| m[r]);
            let register = k as u8;
            let wanted = match self.registers[k] {
                Some(i) => match only {
                    Some(o) => i == o,
                    None => true,
                },
                None => false,
            };
            proof {
                if let Some(i) = self.registers@[k as int] {
                    if let Some(o) = only {
                        if i != o {
                            assert(self.names@[i as int]@ != self.names@[o as int]@);
                        }
                    }
                }
                assert(wanted == m.contains_key(register));
            }
            if wanted {
                let i = self.registers[k].unwrap();
                let ghost line_start = out@;
                out.append("register ");
                let digits = decimal(register as i32);
                out.append(digits.as_str());
                out.append(" ");
                out.append(self.names[i].as_str());
                out.append("\n");
                proof {
                    regs = regs.push((register, m[register]));
                    assert(regs.drop_last() =~= before);
                    assert(out@ =~= old(out)@ + register_lines(regs));
                    assert forall|r: u8| #[trigger] mk1.contains_key(r) implies exists|a: int|
                        0 <= a < regs.len() && (#[trigger] regs[a]).0 == r by {
                        if r < k {
                            assert(mk.contains_key(r));
                            let a = choose|a: int| 0 <= a < before.len() && (#[trigger] before[a]).0 == r;
                            assert(regs[a] == before[a]);
                        } else {
                            assert(regs[regs.len() - 1].0 == r);
                        }
                    }
                }
            } else {
                proof {
                    assert(mk1 =~= mk);
                }
            }
            k = k + 1;
        }
        proof {
            let final_map = Map::new(|r: u8| m.contains_key(r) && r < k, |r: u8| m[r]);
            assert(final_map =~= m);
        }
    }

    /// The text of a snapshot of the workspaces and registers that `filter` selects, written in
    /// one pass over the registry, without an intermediate copy of the entries.
    pub fn read_text(&self, filter: Option<Workspace>) -> (r: Result<String, RegistryError>)
        requires
            self.wf(),
        ensures
            ({
                let f = match filter {
                    Some(w) => Some(w@),
                    None => None,
                };
                &&& r is Ok <==> read_succeeds(self@, f)
                &&& r matches Ok(t) ==> exists|names: Seq<Seq<char>>, regs: Seq<(u8, Seq<char>)>|
                    listing(self@, f, names, regs) && t@ == snapshot_text(names, regs)
                &&& r matches Err(e) ==> read_fails_with(self@, f, e)
            }),
    {
        let mut out = String::new();
        match filter {
            None => {
                self.write_workspaces(&mut out);
                let ghost names = self.created_prefix(self.names@.len() as int);
                let ghost mid = out@;
                self.write_registers(None, &mut out);
                proof {
                    self.lemma_created_prefix(self.names@.len() as int);
                    assert(lists_names(names, self@.workspaces)) by {
                        assert forall|n: Seq<char>| names.contains(n) <==> self@.workspaces.contains(n) by {
                            if self@.workspaces.contains(n) {
                                let k = choose|k: int|
                                    0 <= k < self.names@.len() && (#[trigger] self.names@[k])@ == n
                                        && self.settings@[k] is Some;
                                assert(names.contains(n));
                            }
                        }
                    }
                    let regs = choose|regs: Seq<(u8, Seq<char>)>|
                        lists_registers(regs, self@.registers) && out@ == mid + register_lines(regs);
                    assert(out@ =~= snapshot_text(names, regs));
                }
                Ok(out)
            },
            Some(Workspace::Workspace(n)) => {
                let key = String::from_str(n);
                match self.find(&key) {
                    Some(i) => match self.settings[i] {
                        Some(_) => {
                            out.append("workspace ");
                            out.append(self.names[i].as_str());
                            out.append("\n");
                            let ghost mid = out@;
                            self.write_registers(Some(i), &mut out);
                            proof {
                                assert(self@.workspaces.contains(n@));
                                let names = seq![n@];
                                assert(names.drop_last() =~= Seq::<Seq<char>>::empty());
                                assert(workspace_lines(Seq::<Seq<char>>::empty()) == Seq::<char>::empty());
                                assert(names.last() == n@);
                                assert(mid =~= workspace_lines(names));
                                let regs = choose|regs: Seq<(u8, Seq<char>)>|
                                    lists_registers(regs, pointing_at(self@.registers, n@))
                                        && out@ == mid + register_lines(regs);
                                assert(out@ =~= snapshot_text(names, regs));
                                assert(listing(self@, Some(WorkspaceView::Workspace(n@)), names, regs));
                            }
                            Ok(out)
                        },
                        None => {
                            proof {
                                assert(!self@.workspaces.contains(n@)) by {
                                    if self@.workspaces.contains(n@) {
                                        let k = choose|k: int|
                                            0 <= k < self.names@.len() && (#[trigger] self.names@[k])@ == n@
                                                && self.settings@[k] is Some;
                                        assert(k == i);
                                    }
                                }
                            }
                            Err(RegistryError::UnknownWorkspace(key))
                        },
                    },
                    None => Err(RegistryError::UnknownWorkspace(key)),
                }
            },
            Some(Workspace::Register(b)) => match self.registers[b as usize] {
                None => Err(RegistryError::UnknownRegister(b)),
                Some(i) => match self.settings[i] {
                    Some(_) => {
                        let name = self.names[i].as_str();
                        out.append("workspace ");
                        out.append(name);
                        out.append("\n");
                        out.append("register ");
                        let digits = decimal(b as i32);
                        out.append(digits.as_str());
                        out.append(" ");
                        out.append(name);
                        out.append("\n");
                        proof {
                            assert(self@.workspaces.contains(self.names@[i as int]@));
                            let names = seq![self@.registers[b]];
                            let regs = seq![(b, self@.registers[b])];
                            assert(names.drop_last() =~= Seq::<Seq<char>>::empty());
                            assert(regs.drop_last() =~= Seq::<(u8, Seq<char>)>::empty());
                            assert(workspace_lines(Seq::<Seq<char>>::empty()) == Seq::<char>::empty());
                            assert(register_lines(Seq::<(u8, Seq<char>)>::empty()) == Seq::<char>::empty());
                            assert(out@ =~= snapshot_text(names, regs));
                            assert(listing(self@, Some(WorkspaceView::Register(b)), names, regs));
                        }
                        Ok(out)
                    },
                    None => {
                        proof {
                            assert(!self@.workspaces.contains(self.names@[i as int]@)) by {
                                if self@.workspaces.contains(self.names@[i as int]@) {
                                    let k = choose|k: int|
                                        0 <= k < self.names@.len() && (#[trigger] self.names@[k])@
                                            == self.names@[i as int]@ && self.settings@[k] is Some;
                                    assert(k == i);
                                }
                            }
                        }
                        Err(RegistryError::UnknownWorkspace(self.names[i].clone()))
                    },
                },
            },
        }
    }
}

} // verus!
