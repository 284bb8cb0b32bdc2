//! Merging the variables of a unit: which of them the program already holds,
//! and how those a body repeats are told from those it adds.

use crate::idmap;
use crate::idmap::{IdMap, IdSet};
use crate::ir::{FileId, FnId, Span, StorageClass, TypeId, VarId};
use crate::merge::{FileInfo, FileMap, MergeMode};
use crate::program;
use crate::program::{function_index, is_internal_function, variable_index, FnView, Function, Variable};
use crate::remap;
use crate::remap::remap_type;
use crate::text;
use crate::text::{begins, chars_of, str_eq};
use vstd::prelude::*;

verus! {

/// The kind of a variable that stands for the value of an expression.
#[derive(Debug, Clone, Copy, PartialEq, Eq, Structural)]
pub enum TempKind {
    Gep,
    Load,
    Ret,
    Recv,
}

pub open spec fn all_digits(s: Seq<char>) -> bool {
    s.len() > 0 && forall|i: int| 0 <= i < s.len() ==> '0' <= #[trigger] s[i] <= '9'
}

pub open spec fn numbered(name: Seq<char>, prefix: Seq<char>) -> bool {
    text::starts_with(name, prefix) && all_digits(name.skip(prefix.len() as int))
}

/// The kind of a temporary, by its name: a prefix and a number. The number is
/// that of the unit's variable and tells nothing of the expression.
pub open spec fn temp_kind(name: Seq<char>) -> Option<TempKind> {
    if numbered(name, "_gep"@) {
        Some(TempKind::Gep)
    } else if numbered(name, "_load"@) {
        Some(TempKind::Load)
    } else if numbered(name, "_ret"@) {
        Some(TempKind::Ret)
    } else if numbered(name, "_recv"@) {
        Some(TempKind::Recv)
    } else {
        None
    }
}

fn is_numbered(name: &Vec<char>, prefix: &str) -> (r: bool)
    ensures
        r == numbered(name@, prefix@),
{
    let head = chars_of(prefix);
    if !begins(name, &head) {
        return false;
    }
    let at = head.len();
    let ghost rest = name@.skip(at as int);
    if name.len() <= at {
        assert(rest.len() == 0);
        return false;
    }
    let mut k: usize = at;
    while k < name.len()
        invariant
            at <= k <= name@.len(),
            at == prefix@.len(),
            rest == name@.skip(at as int),
            rest.len() > 0,
            text::starts_with(name@, prefix@),
            forall|i: int| 0 <= i < k - at ==> '0' <= #[trigger] rest[i] <= '9',
        decreases name@.len() - k,
    {
        assert(rest[k - at] == name@[k as int]);
        if name[k] < '0' || name[k] > '9' {
            return false;
        }
        k += 1;
    }
    true
}

/// The kind of a synthesized temporary, or nothing for a declared variable.
pub fn temp_prefix(name: &str) -> (r: Option<TempKind>)
    ensures
        r == temp_kind(name@),
{
    let own = chars_of(name);
    if is_numbered(&own, "_gep") {
        Some(TempKind::Gep)
    } else if is_numbered(&own, "_load") {
        Some(TempKind::Load)
    } else if is_numbered(&own, "_ret") {
        Some(TempKind::Ret)
    } else if is_numbered(&own, "_recv") {
        Some(TempKind::Recv)
    } else {
        None
    }
}

/// A declared local of a body that is merged into another, by where it stands.
pub struct LocalAt {
    pub owner: FnId,
    pub span: Span,
    pub name: String,
    pub id: VarId,
}

/// Where a temporary of a body stands.
#[derive(Debug, Clone, Copy, PartialEq, Eq, Structural)]
pub struct TempPlace {
    pub owner: FnId,
    pub span: Span,
    pub kind: TempKind,
}

/// A variable outside functions, by where it stands in the configurations of
/// one source.
pub struct FileVar {
    pub scope: u32,
    pub span: Span,
    pub name: String,
    pub id: VarId,
}

/// The first local at that place with that name, from position `k`.
pub open spec fn local_at(
    v: Seq<LocalAt>,
    owner: FnId,
    span: Span,
    name: Seq<char>,
    k: int,
) -> Option<VarId>
    decreases v.len() - k,
{
    if k < 0 || k >= v.len() {
        None
    } else if v[k].owner == owner && v[k].span == span && v[k].name@ == name {
        Some(v[k].id)
    } else {
        local_at(v, owner, span, name, k + 1)
    }
}

fn find_local(v: &Vec<LocalAt>, owner: FnId, span: Span, name: &str) -> (r: Option<VarId>)
    ensures
        r == local_at(v@, owner, span, name@, 0),
{
    let mut k: usize = 0;
    while k < v.len()
        invariant
            k <= v@.len(),
            local_at(v@, owner, span, name@, 0) == local_at(v@, owner, span, name@, k as int),
        decreases v@.len() - k,
    {
        if v[k].owner == owner && v[k].span == span && str_eq(v[k].name.as_str(), name) {
            return Some(v[k].id);
        }
        k += 1;
    }
    None
}

/// The first variable outside functions at that place, from position `k`.
pub open spec fn file_var_at(
    v: Seq<FileVar>,
    scope: u32,
    span: Span,
    name: Seq<char>,
    k: int,
) -> Option<VarId>
    decreases v.len() - k,
{
    if k < 0 || k >= v.len() {
        None
    } else if v[k].scope == scope && v[k].span == span && v[k].name@ == name {
        Some(v[k].id)
    } else {
        file_var_at(v, scope, span, name, k + 1)
    }
}

fn find_file_var(v: &Vec<FileVar>, scope: u32, span: Span, name: &str) -> (r: Option<VarId>)
    ensures
        r == file_var_at(v@, scope, span, name@, 0),
{
    let mut k: usize = 0;
    while k < v.len()
        invariant
            k <= v@.len(),
            file_var_at(v@, scope, span, name@, 0) == file_var_at(
                v@,
                scope,
                span,
                name@,
                k as int,
            ),
        decreases v@.len() - k,
    {
        if v[k].scope == scope && v[k].span == span && str_eq(v[k].name.as_str(), name) {
            return Some(v[k].id);
        }
        k += 1;
    }
    None
}

/// The temporaries at a place, in order, of the first `k`.
pub open spec fn temps_at(v: Seq<(TempPlace, VarId)>, place: TempPlace, k: int) -> Seq<VarId>
    decreases k,
{
    if k <= 0 {
        seq![]
    } else {
        let before = temps_at(v, place, k - 1);
        if v[k - 1].0 == place {
            before.push(v[k - 1].1)
        } else {
            before
        }
    }
}

/// How many temporaries of a place one body of the unit has been given, by the
/// first `k` entries.
pub open spec fn given(v: Seq<(Option<FnId>, TempPlace)>, body: Option<FnId>, place: TempPlace, k: int) -> nat
    decreases k,
{
    if k <= 0 {
        0
    } else {
        let before = given(v, body, place, k - 1);
        if v[k - 1].0 == body && v[k - 1].1 == place {
            before + 1
        } else {
            before
        }
    }
}

fn list_temps(v: &Vec<(TempPlace, VarId)>, place: TempPlace) -> (r: Vec<VarId>)
    ensures
        r@ == temps_at(v@, place, v@.len() as int),
{
    let mut out: Vec<VarId> = Vec::new();
    let mut k: usize = 0;
    while k < v.len()
        invariant
            k <= v@.len(),
            out@ == temps_at(v@, place, k as int),
        decreases v@.len() - k,
    {
        if v[k].0 == place {
            out.push(v[k].1);
        }
        k += 1;
    }
    out
}

fn same_body(a: Option<FnId>, b: Option<FnId>) -> (r: bool)
    ensures
        r == (a == b),
{
    match (a, b) {
        (Some(x), Some(y)) => x == y,
        (None, None) => true,
        _ => false,
    }
}

fn count_given(v: &Vec<(Option<FnId>, TempPlace)>, body: Option<FnId>, place: TempPlace) -> (r:
    usize)
    ensures
        r == given(v@, body, place, v@.len() as int),
{
    let mut n: usize = 0;
    let mut k: usize = 0;
    while k < v.len()
        invariant
            k <= v@.len(),
            n <= k,
            n == given(v@, body, place, k as int),
        decreases v@.len() - k,
    {
        if same_body(v[k].0, body) && v[k].1 == place {
            n += 1;
        }
        k += 1;
    }
    n
}

/// The first variable that is that symbol of that link image, from `k`.
pub open spec fn image_global(vars: Seq<Variable>, like: Variable, k: int) -> Option<int>
    decreases vars.len() - k,
{
    if k < 0 || k >= vars.len() {
        None
    } else if same_global(vars[k], like) {
        Some(k)
    } else {
        image_global(vars, like, k + 1)
    }
}

/// Two variables are one in a link image: they are of one image and reached
/// under one name.
pub open spec fn same_global(a: Variable, b: Variable) -> bool {
    match (a.target, b.target, a.symbol, b.symbol) {
        (Some(s), Some(t), Some(m), Some(n)) => s == t && m@ == n@,
        _ => false,
    }
}

fn is_same_global(a: &Variable, b: &Variable) -> (r: bool)
    ensures
        r == same_global(*a, *b),
{
    match (a.target, b.target, &a.symbol, &b.symbol) {
        (Some(s), Some(t), Some(m), Some(n)) => s == t && str_eq(m.as_str(), n.as_str()),
        _ => false,
    }
}

fn find_global(vars: &Vec<Variable>, like: &Variable) -> (r: Option<usize>)
    ensures
        match r {
            Some(k) => image_global(vars@, *like, 0) == Some(k as int) && k < vars@.len(),
            None => image_global(vars@, *like, 0) is None,
        },
{
    let mut k: usize = 0;
    while k < vars.len()
        invariant
            k <= vars@.len(),
            image_global(vars@, *like, 0) == image_global(vars@, *like, k as int),
        decreases vars@.len() - k,
    {
        if is_same_global(&vars[k], like) {
            return Some(k);
        }
        k += 1;
    }
    None
}

/// A definition takes the place of a declaration, and a strong one that of a
/// weak one.
pub open spec fn supersedes(defined: bool, weak: bool, incoming_weak: bool) -> bool {
    !defined || weak && !incoming_weak
}

pub fn definition_supersedes(defined: bool, weak: bool, incoming_weak: bool) -> (r: bool)
    ensures
        r == supersedes(defined, weak, incoming_weak),
{
    !defined || (weak && !incoming_weak)
}

/// What the variables of a unit are merged along with.
pub struct VarContext<'a> {
    pub mode: MergeMode,
    pub map: &'a FileMap,
    pub files: &'a Vec<FileInfo>,
    pub type_map: &'a Vec<TypeId>,
    pub fn_map: &'a IdMap,
    pub dropped: &'a IdSet,
    pub remerged: &'a IdSet,
    /// The source whose configurations share variables outside functions.
    pub scope: u32,
}

pub open spec fn is_dep(files: Seq<FileInfo>, id: FileId) -> bool {
    id.0 < files.len() && files[id.0 as int].is_dep
}

/// Whether the file lies under a dependency root.
pub fn is_dep_file(files: &Vec<FileInfo>, id: FileId) -> (r: bool)
    ensures
        r == is_dep(files@, id),
{
    let at = id.0 as usize;
    at < files.len() && files[at].is_dep
}

/// The functions and variables of the program, and the places by which those
/// of extended bodies are found again.
pub struct VarTables {
    pub functions: Vec<Function>,
    pub variables: Vec<Variable>,
    /// The number the next variable gets.
    pub next_var: u32,
    pub file_vars: Vec<FileVar>,
    /// The numbers of the unit's variables in the program.
    pub var_map: IdMap,
    pub locals: Vec<LocalAt>,
    pub temps: Vec<(TempPlace, VarId)>,
    pub given: Vec<(Option<FnId>, TempPlace)>,
}

pub struct VarTablesView {
    pub functions: Seq<FnView>,
    pub variables: Seq<Variable>,
    pub next_var: u32,
    pub file_vars: Seq<FileVar>,
    pub var_map: Map<u32, u32>,
    pub locals: Seq<LocalAt>,
    pub temps: Seq<(TempPlace, VarId)>,
    pub given: Seq<(Option<FnId>, TempPlace)>,
}

impl VarTables {
    pub open spec fn view(&self) -> VarTablesView {
        VarTablesView {
            functions: program::fn_views(self.functions@),
            variables: self.variables@,
            next_var: self.next_var,
            file_vars: self.file_vars@,
            var_map: self.var_map@,
            locals: self.locals@,
            temps: self.temps@,
            given: self.given@,
        }
    }
}

/// The function of the program that a variable of the unit belongs to.
pub open spec fn owner_in(c: VarContext<'_>, var: Variable) -> Option<FnId> {
    match var.fn_id {
        Some(f) => match idmap::found(c.fn_map@, f.0) {
            Some(id) => Some(FnId(id)),
            None => None,
        },
        None => None,
    }
}

/// The body a variable's own body extends.
pub open spec fn extended(c: VarContext<'_>, var: Variable) -> Option<FnId> {
    match owner_in(c, var) {
        Some(id) => if c.remerged@.contains(id.0) {
            Some(id)
        } else {
            None
        },
        None => None,
    }
}

/// The place of a temporary of a body that extends another.
pub open spec fn temp_place(c: VarContext<'_>, var: Variable) -> Option<TempPlace> {
    match (extended(c, var), temp_kind(var.name@)) {
        (Some(owner), Some(kind)) => Some(
            TempPlace { owner, span: c.map.spec_span(var.span), kind },
        ),
        _ => None,
    }
}

/// What becomes of a variable.
pub enum VarRoute {
    /// Its function or its file contributes none, or it has its number.
    Skipped,
    /// It is the program's variable with that number.
    Is { id: VarId },
    /// It is the temporary with that number, which counts as given.
    IsTemp { id: VarId },
    /// It is the program's variable at that position, and its definition
    /// takes over where it supersedes.
    IsGlobal { at: int },
    /// The program takes it in.
    New,
}

pub open spec fn var_route(s: VarTablesView, c: VarContext<'_>, var: Variable) -> VarRoute {
    let span = c.map.spec_span(var.span);
    let by_file = if var.fn_id is None && c.mode == MergeMode::Variant {
        file_var_at(s.file_vars, c.scope, span, var.name@, 0)
    } else {
        None
    };
    let by_local = match extended(c, var) {
        Some(owner) => if temp_kind(var.name@) is None {
            local_at(s.locals, owner, span, var.name@, 0)
        } else {
            None
        },
        None => None,
    };
    let by_temp = match temp_place(c, var) {
        Some(place) => {
            let all = temps_at(s.temps, place, s.temps.len() as int);
            let next = given(s.given, var.fn_id, place, s.given.len() as int);
            if next < all.len() {
                Some(all[next as int])
            } else {
                None
            }
        },
        None => None,
    };
    if (var.fn_id matches Some(f) && c.dropped@.contains(f.0)) || s.var_map.dom().contains(
        var.id.0,
    ) || (var.storage == StorageClass::Local && is_dep(c.files@, span.file)) {
        VarRoute::Skipped
    } else if by_file is Some {
        VarRoute::Is { id: by_file->0 }
    } else if by_local is Some {
        VarRoute::Is { id: by_local->0 }
    } else if by_temp is Some {
        VarRoute::IsTemp { id: by_temp->0 }
    } else if image_global(s.variables, var, 0) is Some {
        VarRoute::IsGlobal { at: image_global(s.variables, var, 0)->0 }
    } else if c.mode == MergeMode::SymbolsOnly && var.storage == StorageClass::Local && var.fn_id
        is Some && !(owner_in(c, var) matches Some(id) && program::is_internal_fn(
        s.functions,
        id,
    )) {
        VarRoute::Skipped
    } else {
        VarRoute::New
    }
}

/// The functions with one more local of the function `owner`.
pub open spec fn with_local(fns: Seq<FnView>, owner: FnId, id: VarId) -> Seq<FnView> {
    match program::fn_at(fns, owner, 0) {
        Some(k) => fns.update(k, FnView { locals: fns[k].locals.push(id), ..fns[k] }),
        None => fns,
    }
}

/// A variable in the program's numbers.
pub open spec fn placed_var(c: VarContext<'_>, var: Variable, id: VarId) -> Variable {
    Variable {
        id,
        type_id: remap::type_in(c.type_map@, var.type_id),
        fn_id: owner_in(c, var),
        span: c.map.spec_span(var.span),
        ..var
    }
}

/// The definition of a variable the program holds, under that number.
pub open spec fn replacement(c: VarContext<'_>, var: Variable, id: VarId) -> Variable {
    Variable {
        id,
        type_id: remap::type_in(c.type_map@, var.type_id),
        span: c.map.spec_span(var.span),
        ..var
    }
}

/// A variable that a function lists as a parameter of its own. One that a body
/// adds to the body it extends is a local there: how many parameters the
/// function takes is for its first configuration to say.
pub open spec fn stays_param(c: VarContext<'_>, var: Variable, owner: FnId) -> bool {
    var.param_index is Some && !c.remerged@.contains(owner.0)
}

/// The tables once the variable is merged.
pub open spec fn var_step(s: VarTablesView, c: VarContext<'_>, var: Variable) -> VarTablesView {
    match var_route(s, c, var) {
        VarRoute::Skipped => s,
        VarRoute::Is { id } => VarTablesView { var_map: s.var_map.insert(var.id.0, id.0), ..s },
        VarRoute::IsTemp { id } => VarTablesView {
            var_map: s.var_map.insert(var.id.0, id.0),
            given: s.given.push((var.fn_id, temp_place(c, var)->0)),
            ..s
        },
        VarRoute::IsGlobal { at } => VarTablesView {
            variables: if var.is_defined && supersedes(
                s.variables[at].is_defined,
                s.variables[at].is_weak,
                var.is_weak,
            ) {
                s.variables.update(at, replacement(c, var, s.variables[at].id))
            } else {
                s.variables
            },
            var_map: s.var_map.insert(var.id.0, s.variables[at].id.0),
            ..s
        },
        VarRoute::New => {
            let id = VarId(s.next_var);
            let span = c.map.spec_span(var.span);
            VarTablesView {
                functions: match owner_in(c, var) {
                    Some(owner) => if stays_param(c, var, owner) {
                        s.functions
                    } else {
                        with_local(s.functions, owner, id)
                    },
                    None => s.functions,
                },
                variables: s.variables.push(placed_var(c, var, id)),
                next_var: (s.next_var + 1) as u32,
                file_vars: if var.fn_id is None && c.mode == MergeMode::Variant {
                    s.file_vars.push(FileVar { scope: c.scope, span, name: var.name, id })
                } else {
                    s.file_vars
                },
                var_map: s.var_map.insert(var.id.0, id.0),
                locals: match extended(c, var) {
                    Some(owner) => if temp_kind(var.name@) is None {
                        s.locals.push(LocalAt { owner, span, name: var.name, id })
                    } else {
                        s.locals
                    },
                    None => s.locals,
                },
                temps: match temp_place(c, var) {
                    Some(place) => s.temps.push((place, id)),
                    None => s.temps,
                },
                given: match temp_place(c, var) {
                    Some(place) => s.given.push((var.fn_id, place)),
                    None => s.given,
                },
            }
        },
    }
}

/// The tables once the first `k` variables of the unit are merged.
pub open spec fn vars_merged(
    s: VarTablesView,
    c: VarContext<'_>,
    unit: Seq<Variable>,
    k: int,
) -> VarTablesView
    decreases k,
{
    if k <= 0 {
        s
    } else {
        var_step(vars_merged(s, c, unit, k - 1), c, unit[k - 1])
    }
}

impl VarTables {
    fn add_local(&mut self, owner: FnId, id: VarId)
        ensures
            final(self)@ == (VarTablesView {
                functions: with_local(old(self)@.functions, owner, id),
                ..old(self)@
            }),
    {
        let ghost before = self.functions@;
        match function_index(&self.functions, owner) {
            Some(k) => {
                self.functions[k].locals.push(id);
                proof {
                    let old_views = program::fn_views(before);
                    assert(old_views[k as int] == before[k as int]@);
                    assert(program::fn_views(self.functions@) =~= with_local(
                        old_views,
                        owner,
                        id,
                    ));
                }
            },
            None => {},
        }
    }

    /// Merge one variable of the unit.
    pub fn merge_variable(&mut self, c: &VarContext<'_>, var: &Variable)
        requires
            old(self).next_var < u32::MAX,
        ensures
            final(self)@ == var_step(old(self)@, *c, *var),
    {
        match var.fn_id {
            Some(f) => {
                if c.dropped.contains(f.0) {
                    return;
                }
            },
            None => {},
        }
        if self.var_map.has_key(var.id.0) {
            return;
        }
        let span = c.map.span(var.span);
        if var.storage == StorageClass::Local && is_dep_file(c.files, span.file) {
            return;
        }
        let owner = match var.fn_id {
            Some(f) => match c.fn_map.get(f.0) {
                Some(id) => Some(FnId(id)),
                None => None,
            },
            None => None,
        };
        let by_file = c.mode == MergeMode::Variant && var.fn_id.is_none();
        if by_file {
            match find_file_var(&self.file_vars, c.scope, span, var.name.as_str()) {
                Some(id) => {
                    self.var_map.insert(var.id.0, id.0);
                    return;
                },
                None => {},
            }
        }
        let extends = match owner {
            Some(id) => if c.remerged.contains(id.0) {
                Some(id)
            } else {
                None
            },
            None => None,
        };
        let kind = temp_prefix(var.name.as_str());
        let place = match (extends, kind) {
            (Some(id), Some(kind)) => Some(TempPlace { owner: id, span, kind }),
            _ => None,
        };
        assert(owner == owner_in(*c, *var));
        assert(extends == extended(*c, *var));
        assert(place == temp_place(*c, *var));
        match extends {
            Some(id) => {
                if kind.is_none() {
                    match find_local(&self.locals, id, span, var.name.as_str()) {
                        Some(known) => {
                            self.var_map.insert(var.id.0, known.0);
                            return;
                        },
                        None => {},
                    }
                }
            },
            None => {},
        }
        match place {
            Some(place) => {
                let all = list_temps(&self.temps, place);
                let next = count_given(&self.given, var.fn_id, place);
                if next < all.len() {
                    self.given.push((var.fn_id, place));
                    self.var_map.insert(var.id.0, all[next].0);
                    return;
                }
            },
            None => {},
        }
        match find_global(&self.variables, var) {
            Some(at) => {
                let id = self.variables[at].id;
                if var.is_defined && definition_supersedes(
                    self.variables[at].is_defined,
                    self.variables[at].is_weak,
                    var.is_weak,
                ) {
                    let mut own = var.copy();
                    own.id = id;
                    own.type_id = remap_type(var.type_id, c.type_map.as_slice());
                    own.span = span;
                    self.variables.set(at, own);
                }
                self.var_map.insert(var.id.0, id.0);
                return;
            },
            None => {},
        }
        if c.mode == MergeMode::SymbolsOnly && var.storage == StorageClass::Local
            && var.fn_id.is_some() {
            let internal = match owner {
                Some(id) => is_internal_function(&self.functions, id),
                None => false,
            };
            if !internal {
                return;
            }
        }
        self.take_in(c, var, owner, extends, kind, place);
    }

    fn take_in(
        &mut self,
        c: &VarContext<'_>,
        var: &Variable,
        owner: Option<FnId>,
        extends: Option<FnId>,
        kind: Option<TempKind>,
        place: Option<TempPlace>,
    )
        requires
            old(self).next_var < u32::MAX,
            var_route(old(self)@, *c, *var) is New,
            owner == owner_in(*c, *var),
            extends == extended(*c, *var),
            kind == temp_kind(var.name@),
            place == temp_place(*c, *var),
        ensures
            final(self)@ == var_step(old(self)@, *c, *var),
    {
        let span = c.map.span(var.span);
        let id = VarId(self.next_var);
        self.next_var = self.next_var + 1;
        let mut own = var.copy();
        own.id = id;
        own.type_id = remap_type(var.type_id, c.type_map.as_slice());
        own.fn_id = owner;
        own.span = span;
        self.variables.push(own);
        self.var_map.insert(var.id.0, id.0);
        match extends {
            Some(f) => {
                if kind.is_none() {
                    self.locals.push(LocalAt { owner: f, span, name: var.name.clone(), id });
                }
            },
            None => {},
        }
        match place {
            Some(place) => {
                self.temps.push((place, id));
                self.given.push((var.fn_id, place));
            },
            None => {},
        }
        if c.mode == MergeMode::Variant && var.fn_id.is_none() {
            self.file_vars.push(FileVar { scope: c.scope, span, name: var.name.clone(), id });
        }
        match owner {
            Some(f) => {
                let is_param = var.param_index.is_some() && !c.remerged.contains(f.0);
                if !is_param {
                    self.add_local(f, id);
                }
            },
            None => {},
        }
    }

    /// Merge the variables of a unit in turn.
    pub fn merge_variables(&mut self, c: &VarContext<'_>, unit: &Vec<Variable>)
        requires
            old(self).next_var + unit@.len() <= u32::MAX,
        ensures
            final(self)@ == vars_merged(old(self)@, *c, unit@, unit@.len() as int),
    {
        let ghost first = self@;
        let mut k: usize = 0;
        while k < unit.len()
            invariant
                k <= unit@.len(),
                first.next_var + unit@.len() <= u32::MAX,
                self@ == vars_merged(first, *c, unit@, k as int),
                self.next_var <= first.next_var + k,
            decreases unit@.len() - k,
        {
            self.merge_variable(c, &unit[k]);
            k += 1;
        }
    }
}

/// The tables with the first `j` locals of a body noted by where they stand.
pub open spec fn body_noted(s: VarTablesView, f: FnView, j: int) -> VarTablesView
    decreases j,
{
    if j <= 0 {
        s
    } else {
        let before = body_noted(s, f, j - 1);
        match program::var_by_id(s.variables, f.locals[j - 1]) {
            Some(v) => match temp_kind(v.name@) {
                Some(kind) => VarTablesView {
                    temps: before.temps.push(
                        (TempPlace { owner: f.id, span: v.span, kind }, f.locals[j - 1]),
                    ),
                    ..before
                },
                None => if local_at(before.locals, f.id, v.span, v.name@, 0) is None {
                    VarTablesView {
                        locals: before.locals.push(
                            LocalAt { owner: f.id, span: v.span, name: v.name, id: f.locals[j - 1] },
                        ),
                        ..before
                    }
                } else {
                    before
                },
            },
            None => before,
        }
    }
}

/// The tables with the locals of the extended bodies among the first `k`
/// functions noted.
pub open spec fn bodies_noted(s: VarTablesView, remerged: Set<u32>, k: int) -> VarTablesView
    decreases k,
{
    if k <= 0 {
        s
    } else {
        let before = bodies_noted(s, remerged, k - 1);
        let f = s.functions[k - 1];
        if remerged.contains(f.id.0) {
            body_noted(before, f, f.locals.len() as int)
        } else {
            before
        }
    }
}

proof fn lemma_body_noted(s: VarTablesView, f: FnView, j: int)
    ensures
        body_noted(s, f, j).functions == s.functions,
        body_noted(s, f, j).variables == s.variables,
    decreases j,
{
    if j > 0 {
        lemma_body_noted(s, f, j - 1);
    }
}

pub proof fn lemma_noted_keeps_symbols(s: VarTablesView, remerged: Set<u32>, k: int)
    ensures
        bodies_noted(s, remerged, k).functions == s.functions,
        bodies_noted(s, remerged, k).variables == s.variables,
    decreases k,
{
    if k > 0 {
        lemma_noted_keeps_symbols(s, remerged, k - 1);
        let f = s.functions[k - 1];
        lemma_body_noted(bodies_noted(s, remerged, k - 1), f, f.locals.len() as int);
    }
}

/// The parameters that have a number in the program, in order, of the first
/// `k`.
pub open spec fn params_in(params: Seq<VarId>, vars: Map<u32, u32>, k: int) -> Seq<VarId>
    decreases k,
{
    if k <= 0 {
        seq![]
    } else {
        let before = params_in(params, vars, k - 1);
        match idmap::found(vars, params[k - 1].0) {
            Some(id) => before.push(VarId(id)),
            None => before,
        }
    }
}

pub open spec fn params_placed(fns: Seq<FnView>, adopted: Set<u32>, vars: Map<u32, u32>) -> Seq<
    FnView,
> {
    fns.map_values(
        |f: FnView|
            if adopted.contains(f.id.0) {
                FnView { params: params_in(f.params, vars, f.params.len() as int), ..f }
            } else {
                f
            },
    )
}

fn placed_params(params: &Vec<VarId>, vars: &IdMap) -> (r: Vec<VarId>)
    ensures
        r@ == params_in(params@, vars@, params@.len() as int),
{
    let mut out: Vec<VarId> = Vec::new();
    let mut k: usize = 0;
    while k < params.len()
        invariant
            k <= params@.len(),
            out@ == params_in(params@, vars@, k as int),
        decreases params@.len() - k,
    {
        match vars.get(params[k].0) {
            Some(id) => out.push(VarId(id)),
            None => {},
        }
        k += 1;
    }
    out
}

impl VarTables {
    /// Note the locals of one body by where they stand. Declared ones are told
    /// by their name, temporaries by their order.
    fn note_body(&mut self, at: usize)
        requires
            at < old(self).functions@.len(),
        ensures
            final(self)@ == body_noted(
                old(self)@,
                old(self).functions@[at as int]@,
                old(self).functions@[at as int]@.locals.len() as int,
            ),
    {
        let ghost first = self@;
        let ghost f = self.functions@[at as int]@;
        let mut j: usize = 0;
        while j < self.functions[at].locals.len()
            invariant
                at < self.functions@.len(),
                j <= f.locals.len(),
                f == self.functions@[at as int]@,
                self@ == body_noted(first, f, j as int),
                self@.variables == first.variables,
                self@.functions == first.functions,
            decreases f.locals.len() - j,
        {
            let owner = self.functions[at].id;
            let id = self.functions[at].locals[j];
            assert(id == f.locals[j as int]);
            match variable_index(&self.variables, id) {
                Some(p) => {
                    let span = self.variables[p].span;
                    let name = self.variables[p].name.clone();
                    match temp_prefix(name.as_str()) {
                        Some(kind) => {
                            self.temps.push((TempPlace { owner, span, kind }, id));
                        },
                        None => {
                            if find_local(&self.locals, owner, span, name.as_str()).is_none() {
                                self.locals.push(LocalAt { owner, span, name, id });
                            }
                        },
                    }
                },
                None => {},
            }
            j += 1;
        }
    }

    /// Note the locals of the bodies that the unit extends.
    pub fn note_bodies(&mut self, remerged: &IdSet)
        ensures
            final(self)@ == bodies_noted(
                old(self)@,
                remerged@,
                old(self).functions@.len() as int,
            ),
    {
        let ghost first = self@;
        let mut k: usize = 0;
        while k < self.functions.len()
            invariant
                k <= self.functions@.len(),
                first.functions == program::fn_views(self.functions@),
                self@ == bodies_noted(first, remerged@, k as int),
            decreases self.functions@.len() - k,
        {
            proof {
                lemma_noted_keeps_symbols(first, remerged@, k as int);
                assert(first.functions[k as int] == self.functions@[k as int]@);
            }
            if remerged.contains(self.functions[k].id.0) {
                let ghost before = self@;
                let ghost f = self.functions@[k as int]@;
                let ghost n = self.functions@.len();
                self.note_body(k);
                proof {
                    lemma_body_noted(before, f, f.locals.len() as int);
                    assert(program::fn_views(self.functions@).len() == self.functions@.len());
                }
            }
            k += 1;
        }
        assert(first.functions.len() == self.functions@.len());
    }

    /// Give the parameter lists that were taken over from the unit the
    /// program's numbers.
    pub fn place_params(&mut self, adopted: &IdSet)
        ensures
            final(self)@ == (VarTablesView {
                functions: params_placed(old(self)@.functions, adopted@, old(self)@.var_map),
                ..old(self)@
            }),
    {
        let ghost first = self@;
        let ghost placed = params_placed(first.functions, adopted@, first.var_map);
        let mut k: usize = 0;
        while k < self.functions.len()
            invariant
                k <= self.functions@.len(),
                self.functions@.len() == first.functions.len(),
                placed == params_placed(first.functions, adopted@, first.var_map),
                self@ == (VarTablesView { functions: self@.functions, ..first }),
                forall|j: int| 0 <= j < k ==> (#[trigger] self.functions@[j])@ == placed[j],
                forall|j: int|
                    k <= j < first.functions.len() ==> (#[trigger] self.functions@[j])@
                        == first.functions[j],
            decreases self.functions@.len() - k,
        {
            let ghost before = self.functions@;
            assert(before[k as int]@ == first.functions[k as int]);
            if adopted.contains(self.functions[k].id.0) {
                let own = placed_params(&self.functions[k].params, &self.var_map);
                self.functions[k].params = own;
            }
            proof {
                assert(self.functions@[k as int]@ == placed[k as int]);
                assert forall|j: int| 0 <= j < k implies (#[trigger] self.functions@[j])@
                    == placed[j] by {
                    assert(before[j]@ == placed[j]);
                }
                assert forall|j: int| k < j < first.functions.len() implies (
                    #[trigger] self.functions@[j])@ == first.functions[j] by {
                    assert(before[j]@ == first.functions[j]);
                }
            }
            k += 1;
        }
        assert(self@.functions =~= placed);
    }
}

/// Merging more of a unit never takes back a number: what the unit's variables
/// are in the program stays, the program's variables keep their places and
/// their numbers, and every number given out lies below the next one.
pub proof fn law_merging_keeps_the_numbers(
    s: VarTablesView,
    c: VarContext<'_>,
    unit: Seq<Variable>,
    k: int,
)
    requires
        0 <= k <= unit.len(),
        s.next_var + k <= u32::MAX,
        forall|i: int| 0 <= i < s.variables.len() ==> (#[trigger] s.variables[i]).id.0 < s.next_var,
    ensures
        s.var_map.submap_of(vars_merged(s, c, unit, k).var_map),
        s.next_var <= vars_merged(s, c, unit, k).next_var <= s.next_var + k,
        s.variables.len() <= vars_merged(s, c, unit, k).variables.len(),
        forall|i: int|
            0 <= i < s.variables.len() ==> (#[trigger] vars_merged(
                s,
                c,
                unit,
                k,
            ).variables[i]).id == s.variables[i].id,
        forall|i: int|
            0 <= i < vars_merged(s, c, unit, k).variables.len() ==> (#[trigger] vars_merged(
                s,
                c,
                unit,
                k,
            ).variables[i]).id.0 < vars_merged(s, c, unit, k).next_var,
    decreases k,
{
    if k > 0 {
        law_merging_keeps_the_numbers(s, c, unit, k - 1);
        let t = vars_merged(s, c, unit, k - 1);
        let var = unit[k - 1];
        let r = var_step(t, c, var);
        lemma_image_global(t.variables, var, 0);
        assert forall|i: int| 0 <= i < t.variables.len() implies (#[trigger] r.variables[i]).id
            == t.variables[i].id by {}
        assert forall|i: int| 0 <= i < r.variables.len() implies (#[trigger] r.variables[i]).id.0
            < r.next_var by {
            if i < t.variables.len() {
                assert(r.variables[i].id == t.variables[i].id);
            }
        }
    }
}

proof fn lemma_image_global(vars: Seq<Variable>, like: Variable, k: int)
    requires
        0 <= k,
    ensures
        match image_global(vars, like, k) {
            Some(at) => k <= at < vars.len() && same_global(vars[at], like),
            None => true,
        },
    decreases vars.len() - k,
{
    if k < vars.len() && !same_global(vars[k], like) {
        lemma_image_global(vars, like, k + 1);
    }
}

/// A variable the program takes in gets a number no other has.
pub proof fn law_new_variables_get_new_numbers(s: VarTablesView, c: VarContext<'_>, var: Variable)
    requires
        s.next_var < u32::MAX,
        forall|i: int| 0 <= i < s.variables.len() ==> (#[trigger] s.variables[i]).id.0 < s.next_var,
        var_route(s, c, var) is New,
    ensures
        var_step(s, c, var).variables.last() == placed_var(c, var, VarId(s.next_var)),
        forall|i: int|
            0 <= i < s.variables.len() ==> (#[trigger] s.variables[i]).id != var_step(
                s,
                c,
                var,
            ).variables.last().id,
{
}

/// Two bodies of one function are the same variables: where each has been
/// given as many temporaries of a place, the next of either is the same one,
/// as long as the place has it.
pub proof fn law_bodies_share_their_temporaries(
    s: VarTablesView,
    c: VarContext<'_>,
    a: Variable,
    b: Variable,
)
    requires
        var_route(s, c, a) is IsTemp,
        var_route(s, c, b) is IsTemp,
        temp_place(c, a) == temp_place(c, b),
        given(s.given, a.fn_id, temp_place(c, a)->0, s.given.len() as int) == given(
            s.given,
            b.fn_id,
            temp_place(c, b)->0,
            s.given.len() as int,
        ),
    ensures
        var_route(s, c, a) == var_route(s, c, b),
{
}

/// A temporary that a body brings along first is what the next body with one
/// at that place is given.
pub proof fn law_later_bodies_find_new_temporaries(
    s: VarTablesView,
    c: VarContext<'_>,
    a: Variable,
    b: Variable,
)
    requires
        s.next_var < u32::MAX,
        temp_place(c, a) is Some,
        var_route(s, c, a) is New,
        temp_place(c, b) == temp_place(c, a),
        a.fn_id != b.fn_id,
        given(s.given, b.fn_id, temp_place(c, b)->0, s.given.len() as int) == temps_at(
            s.temps,
            temp_place(c, a)->0,
            s.temps.len() as int,
        ).len(),
        !(b.fn_id matches Some(f) && c.dropped@.contains(f.0)),
        !var_step(s, c, a).var_map.dom().contains(b.id.0),
        !(b.storage == StorageClass::Local && is_dep(c.files@, c.map.spec_of(b.span.file))),
    ensures
        var_route(var_step(s, c, a), c, b) == (VarRoute::IsTemp { id: VarId(s.next_var) }),
{
    let place = temp_place(c, a)->0;
    let t = var_step(s, c, a);
    let id = VarId(s.next_var);
    assert(t.temps == s.temps.push((place, id)));
    assert(t.given == s.given.push((a.fn_id, place)));
    lemma_temps_pushed(s.temps, place, (place, id), s.temps.len() as int);
    lemma_given_pushed(s.given, b.fn_id, place, (a.fn_id, place), s.given.len() as int);
    assert(temps_at(t.temps, place, t.temps.len() as int) == temps_at(
        s.temps,
        place,
        s.temps.len() as int,
    ).push(id));
    assert(b.fn_id is Some);
}

proof fn lemma_temps_pushed(
    v: Seq<(TempPlace, VarId)>,
    place: TempPlace,
    more: (TempPlace, VarId),
    k: int,
)
    requires
        0 <= k <= v.len(),
    ensures
        temps_at(v.push(more), place, k) == temps_at(v, place, k),
    decreases k,
{
    if k > 0 {
        lemma_temps_pushed(v, place, more, k - 1);
    }
}

proof fn lemma_given_pushed(
    v: Seq<(Option<FnId>, TempPlace)>,
    body: Option<FnId>,
    place: TempPlace,
    more: (Option<FnId>, TempPlace),
    k: int,
)
    requires
        0 <= k <= v.len(),
    ensures
        given(v.push(more), body, place, k) == given(v, body, place, k),
    decreases k,
{
    if k > 0 {
        lemma_given_pushed(v, body, place, more, k - 1);
    }
}

/// Every variable that the tables know by a place, or by a number of the unit,
/// is one of the program's.
pub open spec fn knows_only_held(s: VarTablesView) -> bool {
    &&& program::gives_vars(s.var_map, s.variables)
    &&& forall|i: int|
        0 <= i < s.file_vars.len() ==> program::holds_var(
            s.variables,
            (#[trigger] s.file_vars[i]).id,
        )
    &&& forall|i: int|
        0 <= i < s.locals.len() ==> program::holds_var(s.variables, (#[trigger] s.locals[i]).id)
    &&& forall|i: int|
        0 <= i < s.temps.len() ==> program::holds_var(s.variables, (#[trigger] s.temps[i]).1)
}

proof fn lemma_found_local(v: Seq<LocalAt>, owner: FnId, span: Span, name: Seq<char>, k: int)
    requires
        0 <= k,
        local_at(v, owner, span, name, k) is Some,
    ensures
        exists|i: int|
            0 <= i < v.len() && Some((#[trigger] v[i]).id) == local_at(v, owner, span, name, k),
    decreases v.len() - k,
{
    if !(v[k].owner == owner && v[k].span == span && v[k].name@ == name) {
        lemma_found_local(v, owner, span, name, k + 1);
    }
}

proof fn lemma_found_file_var(v: Seq<FileVar>, scope: u32, span: Span, name: Seq<char>, k: int)
    requires
        0 <= k,
        file_var_at(v, scope, span, name, k) is Some,
    ensures
        exists|i: int|
            0 <= i < v.len() && Some((#[trigger] v[i]).id) == file_var_at(v, scope, span, name, k),
    decreases v.len() - k,
{
    if !(v[k].scope == scope && v[k].span == span && v[k].name@ == name) {
        lemma_found_file_var(v, scope, span, name, k + 1);
    }
}

proof fn lemma_found_temp(v: Seq<(TempPlace, VarId)>, place: TempPlace, k: int, j: int)
    requires
        0 <= k <= v.len(),
        0 <= j < temps_at(v, place, k).len(),
    ensures
        exists|i: int| 0 <= i < v.len() && (#[trigger] v[i]).1 == temps_at(v, place, k)[j],
    decreases k,
{
    if j < temps_at(v, place, k - 1).len() {
        lemma_found_temp(v, place, k - 1, j);
    } else {
        assert(v[k - 1].1 == temps_at(v, place, k)[j]);
    }
}

proof fn lemma_step_knows_only_held(s: VarTablesView, c: VarContext<'_>, var: Variable)
    requires
        knows_only_held(s),
    ensures
        knows_only_held(var_step(s, c, var)),
        forall|id: VarId|
            program::holds_var(s.variables, id) ==> #[trigger] program::holds_var(
                var_step(s, c, var).variables,
                id,
            ),
{
    let r = var_step(s, c, var);
    lemma_image_global(s.variables, var, 0);
    assert forall|i: int| 0 <= i < s.variables.len() implies (#[trigger] r.variables[i]).id
        == s.variables[i].id by {}
    assert forall|id: VarId| program::holds_var(s.variables, id) implies #[trigger]
    program::holds_var(r.variables, id) by {
        let i = choose|i: int| 0 <= i < s.variables.len() && (#[trigger] s.variables[i]).id == id;
        assert(r.variables[i].id == id);
    }
    let span = c.map.spec_span(var.span);
    let route = var_route(s, c, var);
    match route {
        VarRoute::Is { id } => {
            if var.fn_id is None && c.mode == MergeMode::Variant && file_var_at(
                s.file_vars,
                c.scope,
                span,
                var.name@,
                0,
            ) is Some {
                lemma_found_file_var(s.file_vars, c.scope, span, var.name@, 0);
            } else {
                lemma_found_local(s.locals, extended(c, var)->0, span, var.name@, 0);
            }
            assert(program::holds_var(s.variables, id));
        },
        VarRoute::IsTemp { id } => {
            let place = temp_place(c, var)->0;
            let next = given(s.given, var.fn_id, place, s.given.len() as int);
            lemma_found_temp(s.temps, place, s.temps.len() as int, next as int);
            assert(program::holds_var(s.variables, id));
        },
        VarRoute::IsGlobal { at } => {
            assert(program::holds_var(s.variables, s.variables[at].id));
        },
        VarRoute::New => {
            assert(r.variables[s.variables.len() as int].id == VarId(s.next_var));
            assert(program::holds_var(r.variables, VarId(s.next_var)));
        },
        VarRoute::Skipped => {},
    }
}

/// What merging makes of a unit's variables is the program's own: every number
/// they have there is that of one of its variables, and none of its variables
/// loses its number.
pub proof fn law_variables_become_the_programs(
    s: VarTablesView,
    c: VarContext<'_>,
    unit: Seq<Variable>,
    k: int,
)
    requires
        0 <= k <= unit.len(),
        knows_only_held(s),
    ensures
        knows_only_held(vars_merged(s, c, unit, k)),
        forall|id: VarId|
            program::holds_var(s.variables, id) ==> #[trigger] program::holds_var(
                vars_merged(s, c, unit, k).variables,
                id,
            ),
    decreases k,
{
    if k > 0 {
        law_variables_become_the_programs(s, c, unit, k - 1);
        lemma_step_knows_only_held(vars_merged(s, c, unit, k - 1), c, unit[k - 1]);
    }
}

proof fn lemma_body_knows_only_held(s: VarTablesView, f: FnView, j: int)
    requires
        knows_only_held(s),
        0 <= j <= f.locals.len(),
    ensures
        knows_only_held(body_noted(s, f, j)),
        body_noted(s, f, j).variables == s.variables,
    decreases j,
{
    if j > 0 {
        lemma_body_knows_only_held(s, f, j - 1);
        if program::var_by_id(s.variables, f.locals[j - 1]) is Some {
            program::lemma_var_is_held(s.variables, f.locals[j - 1], 0);
        }
    }
}

/// Noting the bodies that a unit extends notes variables of the program only.
pub proof fn law_noted_bodies_hold_the_programs(s: VarTablesView, remerged: Set<u32>, k: int)
    requires
        knows_only_held(s),
        0 <= k <= s.functions.len(),
    ensures
        knows_only_held(bodies_noted(s, remerged, k)),
        bodies_noted(s, remerged, k).variables == s.variables,
    decreases k,
{
    if k > 0 {
        law_noted_bodies_hold_the_programs(s, remerged, k - 1);
        let f = s.functions[k - 1];
        lemma_body_knows_only_held(
            bodies_noted(s, remerged, k - 1),
            f,
            f.locals.len() as int,
        );
    }
}

} // verus!
