//! Lowered units, the program they are merged into, and the order in which a
//! unit's parts and a source's configurations are merged.

use crate::facts;
use crate::facts::{add_facts, ClassFacts, Fact};
use crate::idmap;
use crate::idmap::IdMap;
use crate::ir::{FileId, FlowConstraint, FnId, ReturnFlow, TypeId, VarId};
use crate::merge;
use crate::merge::{
    add_file, merge_diagnostics, merge_files, Diagnostic, FileInfo, FileMap, MergeMode,
};
use crate::merge_calls;
use crate::merge_calls::{CallContext, CallTables, CallTablesView};
use crate::merge_flow;
use crate::merge_flow::{FlowContext, FlowTables, Returns};
use crate::merge_fns;
use crate::merge_fns::{BaseDef, FnKey, FnKeys, FnMerge};
use crate::merge_vars;
use crate::merge_vars::{is_dep_file, FileVar, VarContext, VarTables, VarTablesView};
use crate::program;
use crate::program::{function_index, CallRecord, Definition, FnView, Function, Variable};
use crate::remap;
use crate::remap::remap_flow;
use crate::scope;
use crate::target::LinkTarget;
use crate::text::str_eq;
use vstd::prelude::*;

verus! {

/// What indexing one file yields. Files, functions, variables and calls go by
/// the unit's own numbers.
#[derive(Debug, PartialEq, Eq)]
pub struct UnitIndex {
    pub own: FileInfo,
    /// The position of the command that compiles the unit among those of its
    /// source.
    pub compilation_index: Option<usize>,
    /// The unit's files: itself and every file it brings in.
    pub files: Vec<FileInfo>,
    pub classes: ClassFacts,
    pub functions: Vec<Function>,
    /// The texts of the C++ bodies that no other unit sees.
    pub internal_definitions: Vec<Definition>,
    pub variables: Vec<Variable>,
    pub call_sites: Vec<CallRecord>,
    pub flow: Vec<FlowConstraint>,
    /// The constraints each body adds, as ranges of `flow`.
    pub function_flow_ranges: Vec<(FnId, usize, usize)>,
    /// The constraints each initializer of a global adds.
    pub global_initializer_ranges: Vec<(VarId, usize, usize)>,
    pub fn_returns: Vec<(FnId, Vec<ReturnFlow>)>,
    pub diagnostics: Vec<Diagnostic>,
}

/// The merged program.
pub struct Program {
    pub classes: ClassFacts,
    pub files: Vec<FileInfo>,
    /// The files each unit's own file brings in.
    pub brought_in: Vec<(FileId, FileId)>,
    pub diagnostics: Vec<Diagnostic>,
    /// The findings that were reported.
    pub findings: Vec<Diagnostic>,
    pub keys: FnKeys,
    /// The units that share a header body.
    pub header_users: Vec<(FnId, FileId)>,
    /// The definition texts a preamble hands on.
    pub definitions: Vec<Definition>,
    pub symbols: VarTables,
    pub calls: CallTables,
    pub flow: FlowTables,
    pub returns: Returns,
    /// The sources whose configurations are being merged.
    pub sources: Vec<FileInfo>,
    pub variants_merged: usize,
    /// A configuration was merged, so that layouts are unions of several.
    pub layouts_unioned: bool,
    /// The images that are linked.
    pub link_targets: Vec<LinkTarget>,
}

impl Program {
    /// The program differs from `before` in its classes, files and reports at
    /// most.
    pub open spec fn same_code(&self, before: &Program) -> bool {
        &&& self.keys == before.keys
        &&& self.header_users == before.header_users
        &&& self.definitions == before.definitions
        &&& self.symbols == before.symbols
        &&& self.calls == before.calls
        &&& self.flow == before.flow
        &&& self.returns == before.returns
        &&& self.sources == before.sources
        &&& self.variants_merged == before.variants_merged
        &&& self.layouts_unioned == before.layouts_unioned
        &&& self.link_targets == before.link_targets
    }

    /// The program is `before` with a unit begun: its files have their numbers,
    /// what it states of classes is taken over, and its reports are added where
    /// the mode takes reports.
    pub open spec fn is_begun(
        &self,
        before: &Program,
        unit: UnitIndex,
        mode: MergeMode,
        map: FileMap,
    ) -> bool {
        &&& self.same_code(before)
        &&& self.files@ == merge::with_file(
            merge::with_files(before.files@, unit.files@),
            unit.own,
        )
        &&& map.files@.len() == unit.files@.len()
        &&& forall|k: int|
            0 <= k < unit.files@.len() ==> (#[trigger] map.files@[k]).0 == merge::path_at(
                self.files@,
                unit.files@[k].path@,
                0,
            )
        &&& map.primary.0 == merge::path_at(self.files@, unit.own.path@, 0)
        &&& self.brought_in@ == merge::with_pairs(before.brought_in@, map.primary, map.files@)
        &&& self.classes.is_joined(&before.classes, &unit.classes, map)
        &&& if mode.reports() {
            &&& merge::reports(self.diagnostics@) == merge::reports(before.diagnostics@)
                + merge::added_reports(
                merge::reports(before.findings@),
                merge::placed_reports(unit.diagnostics@, map),
                mode == MergeMode::Variant,
            )
            &&& merge::reports(self.findings@) == merge::known_after(
                merge::reports(before.findings@),
                merge::placed_reports(unit.diagnostics@, map),
            )
        } else {
            &&& self.diagnostics@ == before.diagnostics@
            &&& self.findings@ == before.findings@
        }
    }

    /// Begin a unit: take over what it states of classes, give its files their
    /// numbers, and add what it reports where the mode takes reports. A unit
    /// merged for its types alone is done with this.
    pub fn begin_unit(&mut self, unit: &UnitIndex, mode: MergeMode) -> (map: FileMap)
        requires
            old(self).files@.len() + unit.files@.len() < u32::MAX,
        ensures
            final(self).is_begun(old(self), *unit, mode, map),
    {
        let map = merge_files(&mut self.files, &mut self.brought_in, &unit.files, &unit.own);
        self.classes.join(&unit.classes, &map);
        if mode.takes_reports() {
            merge_diagnostics(
                &mut self.diagnostics,
                &mut self.findings,
                &unit.diagnostics,
                &map,
                mode == MergeMode::Variant,
            );
        }
        map
    }
}

/// The symbols before a unit's variables are merged: the unit's parameters
/// that extend others have their numbers, and the bodies it extends are noted.
pub open spec fn symbols_opened(s: VarTablesView, fns: FnMerge) -> VarTablesView {
    merge_vars::bodies_noted(
        VarTablesView {
            var_map: fns.var_map@,
            locals: seq![],
            temps: seq![],
            given: seq![],
            ..s
        },
        fns.remerged@,
        s.functions.len() as int,
    )
}

/// The symbols once a unit's variables are merged and the parameter lists the
/// program took over have its numbers.
pub open spec fn symbols_after(
    s: VarTablesView,
    c: VarContext<'_>,
    unit: Seq<Variable>,
    fns: FnMerge,
) -> VarTablesView {
    let merged = merge_vars::vars_merged(symbols_opened(s, fns), c, unit, unit.len() as int);
    VarTablesView {
        functions: merge_vars::params_placed(merged.functions, fns.adopted@, merged.var_map),
        ..merged
    }
}

proof fn lemma_noted_keeps_next(s: VarTablesView, f: FnView, j: int)
    ensures
        merge_vars::body_noted(s, f, j).next_var == s.next_var,
    decreases j,
{
    if j > 0 {
        lemma_noted_keeps_next(s, f, j - 1);
    }
}

pub proof fn lemma_all_noted_keeps_next(s: VarTablesView, remerged: Set<u32>, k: int)
    ensures
        merge_vars::bodies_noted(s, remerged, k).next_var == s.next_var,
    decreases k,
{
    if k > 0 {
        lemma_all_noted_keeps_next(s, remerged, k - 1);
        let f = s.functions[k - 1];
        lemma_noted_keeps_next(
            merge_vars::bodies_noted(s, remerged, k - 1),
            f,
            f.locals.len() as int,
        );
    }
}

impl Program {
    fn merge_symbols(
        &mut self,
        unit: &UnitIndex,
        mode: MergeMode,
        map: &FileMap,
        type_map: &Vec<TypeId>,
        fns: &mut FnMerge,
        scope: u32,
    )
        requires
            old(self).symbols.next_var + unit.variables@.len() <= u32::MAX,
        ensures
            final(self).symbols@ == symbols_after(
                old(self).symbols@,
                (VarContext {
                    mode,
                    map,
                    files: &old(self).files,
                    type_map,
                    fn_map: &old(fns).fn_map,
                    dropped: &old(fns).dropped,
                    remerged: &old(fns).remerged,
                    scope,
                }),
                unit.variables@,
                *old(fns),
            ),
            *final(self) == (Program { symbols: final(self).symbols, ..*old(self) }),
            *final(fns) == (FnMerge { var_map: final(fns).var_map, ..*old(fns) }),
    {
        let mut own = IdMap::new();
        std::mem::swap(&mut own, &mut fns.var_map);
        self.symbols.var_map = own;
        self.symbols.locals = Vec::new();
        self.symbols.temps = Vec::new();
        self.symbols.given = Vec::new();
        proof {
            assert(self.symbols@.locals =~= seq![]);
            assert(self.symbols@.temps =~= seq![]);
            assert(self.symbols@.given =~= seq![]);
            lemma_all_noted_keeps_next(
                self.symbols@,
                fns.remerged@,
                self.symbols@.functions.len() as int,
            );
        }
        self.symbols.note_bodies(&fns.remerged);
        let c = VarContext {
            mode,
            map,
            files: &self.files,
            type_map,
            fn_map: &fns.fn_map,
            dropped: &fns.dropped,
            remerged: &fns.remerged,
            scope,
        };
        self.symbols.merge_variables(&c, &unit.variables);
        self.symbols.place_params(&fns.adopted);
    }

    /// The program is `before` with the variables, calls, constraints and returns
    /// of a unit merged, once its functions are: those of a file under a
    /// dependency root contribute their symbols alone.
    pub open spec fn is_finished(
        &self,
        before: &Program,
        unit: UnitIndex,
        mode: MergeMode,
        map: FileMap,
        type_map: Vec<TypeId>,
        fns: FnMerge,
        scope: u32,
    ) -> bool {
        &&& self.symbols@ == symbols_after(
            before.symbols@,
            (VarContext {
                mode,
                map: &map,
                files: &before.files,
                type_map: &type_map,
                fn_map: &fns.fn_map,
                dropped: &fns.dropped,
                remerged: &fns.remerged,
                scope,
            }),
            unit.variables@,
            fns,
        )
        &&& *self == (Program {
            symbols: self.symbols,
            calls: self.calls,
            flow: self.flow,
            returns: self.returns,
            ..*before
        })
        &&& if merge_vars::is_dep(before.files@, map.primary) {
            &&& self.calls == before.calls
            &&& self.flow == before.flow
            &&& self.returns == before.returns
        } else {
            let flow_context = FlowContext {
                mode,
                files: &before.files,
                functions: &self.symbols.functions,
                variables: &self.symbols.variables,
                unit_vars: &unit.variables,
                users: &before.header_users,
                shares_headers: fns.shares_headers,
                fn_map: &fns.fn_map,
                var_map: &self.symbols.var_map,
                dropped: &fns.dropped,
            };
            &&& self.calls@ == merge_calls::calls_merged(
                (CallTablesView { call_map: idmap::no_entries(), ..before.calls@ }),
                (CallContext {
                    mode,
                    map: &map,
                    files: &before.files,
                    functions: &self.symbols.functions,
                    users: &before.header_users,
                    fn_map: &fns.fn_map,
                    var_map: &self.symbols.var_map,
                    dropped: &fns.dropped,
                }),
                unit.call_sites@,
                unit.call_sites@.len() as int,
            )
            &&& self.flow@ == merge_flow::flow_merged(
                before.flow@,
                flow_context,
                merge_flow::flow_views(unit.flow@),
                unit.flow@.len() as int,
            )
            &&& self.returns@ == merge_flow::returns_merged(
                before.returns@,
                flow_context,
                merge_flow::entry_views(unit.fn_returns@),
                unit.fn_returns@.len() as int,
            )
        }
    }

    /// Finish a unit whose functions have their places: merge its variables,
    /// and unless its own file belongs to a dependency, its calls, its
    /// constraints and what its functions return.
    pub fn finish_unit(
        &mut self,
        unit: &UnitIndex,
        mode: MergeMode,
        map: &FileMap,
        type_map: &Vec<TypeId>,
        fns: &mut FnMerge,
        scope: u32,
    )
        requires
            old(self).symbols.next_var + unit.variables@.len() <= u32::MAX,
            old(self).calls.next_call + unit.call_sites@.len() <= u32::MAX,
        ensures
            final(self).is_finished(old(self), *unit, mode, *map, *type_map, *old(fns), scope),
    {
        self.merge_symbols(unit, mode, map, type_map, fns, scope);
        if is_dep_file(&self.files, map.primary) {
            return;
        }
        self.calls.call_map = IdMap::new();
        let c = CallContext {
            mode,
            map,
            files: &self.files,
            functions: &self.symbols.functions,
            users: &self.header_users,
            fn_map: &fns.fn_map,
            var_map: &self.symbols.var_map,
            dropped: &fns.dropped,
        };
        self.calls.merge_calls(&c, &unit.call_sites);
        let f = FlowContext {
            mode,
            files: &self.files,
            functions: &self.symbols.functions,
            variables: &self.symbols.variables,
            unit_vars: &unit.variables,
            users: &self.header_users,
            shares_headers: fns.shares_headers,
            fn_map: &fns.fn_map,
            var_map: &self.symbols.var_map,
            dropped: &fns.dropped,
        };
        self.flow.merge_flow(&f, &unit.flow);
        self.returns.merge_returns(&f, &unit.fn_returns);
    }
}

impl Fact for BaseDef {
    type Stated = (FileId, Seq<char>, FnId);

    open spec fn stated(&self) -> (FileId, Seq<char>, FnId) {
        (self.file, self.name@, self.id)
    }

    fn same(&self, other: &Self) -> (r: bool) {
        self.file == other.file && self.id == other.id && str_eq(
            self.name.as_str(),
            other.name.as_str(),
        )
    }

    fn again(&self) -> (r: Self) {
        BaseDef { file: self.file, name: self.name.clone(), id: self.id }
    }
}

/// The definitions a unit has in the program, by file and name, of its first
/// `k` functions. One that merged into another unit's declaration is none.
pub open spec fn definitions_of(
    unit: Seq<Function>,
    map: FileMap,
    lines: Seq<FnKey>,
    fns: Seq<FnView>,
    k: int,
) -> Seq<(FileId, Seq<char>, FnId)>
    decreases k,
{
    if k <= 0 {
        seq![]
    } else {
        let before = definitions_of(unit, map, lines, fns, k - 1);
        let f = unit[k - 1];
        let file = map.spec_of(f.span.file);
        let at = merge_fns::line_fn(lines, file, f.name@, f.span.line, lines.len() as int);
        match at {
            Some(id) => if f.traits.is_defined && (program::fn_by_id(fns, id) matches Some(own)
                && own.traits.is_defined) {
                before.push((file, f.name@, id))
            } else {
                before
            },
            None => before,
        }
    }
}

/// The definitions a unit has in the program, by file and name. A
/// configuration that spells one of them on another line extends it.
pub fn base_definitions(
    unit: &Vec<Function>,
    map: &FileMap,
    keys: &FnKeys,
    fns: &Vec<Function>,
) -> (r: Vec<BaseDef>)
    ensures
        facts::all_stated(r@) == definitions_of(
            unit@,
            *map,
            keys.lines@,
            program::fn_views(fns@),
            unit@.len() as int,
        ),
{
    let ghost all = program::fn_views(fns@);
    let mut out: Vec<BaseDef> = Vec::new();
    let mut k: usize = 0;
    assert(facts::all_stated(out@) =~= seq![]);
    while k < unit.len()
        invariant
            k <= unit@.len(),
            all == program::fn_views(fns@),
            facts::all_stated(out@) == definitions_of(unit@, *map, keys.lines@, all, k as int),
        decreases unit@.len() - k,
    {
        let f = &unit[k];
        let file = map.of(f.span.file);
        match merge_fns::standing_fn(&keys.lines, file, f.name.as_str(), f.span.line) {
            Some(id) => {
                let held = match function_index(fns, id) {
                    Some(p) => {
                        assert(all[p as int] == fns@[p as int]@);
                        fns[p].traits.is_defined
                    },
                    None => false,
                };
                if f.traits.is_defined && held {
                    let ghost before = out@;
                    let own = BaseDef { file, name: f.name.clone(), id };
                    out.push(own);
                    assert(facts::all_stated(out@) =~= facts::all_stated(before).push(
                        own.stated(),
                    ));
                }
            },
            None => {},
        }
        k += 1;
    }
    out
}

/// The variables outside functions that a unit added, by where they stand.
pub open spec fn file_vars_of(vars: Seq<Variable>, scope: u32, from: int, k: int) -> Seq<FileVar>
    decreases k,
{
    if k <= from || k <= 0 {
        seq![]
    } else {
        let before = file_vars_of(vars, scope, from, k - 1);
        let v = vars[k - 1];
        if v.fn_id is None {
            before.push(FileVar { scope, span: v.span, name: v.name, id: v.id })
        } else {
            before
        }
    }
}

fn own_file_vars(vars: &Vec<Variable>, scope: u32, from: usize) -> (r: Vec<FileVar>)
    requires
        from <= vars@.len(),
    ensures
        r@ == file_vars_of(vars@, scope, from as int, vars@.len() as int),
{
    let mut out: Vec<FileVar> = Vec::new();
    let mut k: usize = from;
    while k < vars.len()
        invariant
            from <= k <= vars@.len(),
            out@ == file_vars_of(vars@, scope, from as int, k as int),
        decreases vars@.len() - k,
    {
        let v = &vars[k];
        if v.fn_id.is_none() {
            out.push(FileVar { scope, span: v.span, name: v.name.clone(), id: v.id });
        }
        k += 1;
    }
    out
}

fn flow_from(flow: &Vec<FlowConstraint>, from: usize) -> (r: Vec<FlowConstraint>)
    requires
        from <= flow@.len(),
    ensures
        merge_flow::flow_views(r@) == merge_flow::flow_views(flow@).skip(from as int),
{
    let same = IdMap::new();
    let ghost all = merge_flow::flow_views(flow@);
    let mut out: Vec<FlowConstraint> = Vec::new();
    let mut k: usize = from;
    assert(merge_flow::flow_views(out@) =~= all.subrange(from as int, from as int));
    while k < flow.len()
        invariant
            from <= k <= flow@.len(),
            all == merge_flow::flow_views(flow@),
            same@ == idmap::no_entries(),
            merge_flow::flow_views(out@) == all.subrange(from as int, k as int),
        decreases flow@.len() - k,
    {
        let ghost before = out@;
        let own = remap_flow(&flow[k], &same, &same);
        proof {
            lemma_unmapped_is_same(flow@[k as int]);
            assert(all[k as int] == own@);
        }
        out.push(own);
        k += 1;
        assert(merge_flow::flow_views(out@) =~= merge_flow::flow_views(before).push(own@));
        assert(all.subrange(from as int, k as int) =~= all.subrange(from as int, k - 1).push(
            all[k - 1],
        ));
    }
    assert(all.subrange(from as int, k as int) =~= all.skip(from as int));
    out
}

proof fn lemma_unmapped_is_same(f: FlowConstraint)
    ensures
        remap::flow_in(f@, idmap::no_entries(), idmap::no_entries()) == f@,
{
}

impl Program {
    /// The program is `before` with the configurations of a source begun, once its
    /// first one is merged.
    pub open spec fn has_variants_begun(
        &self,
        before: &Program,
        base: UnitIndex,
        map: FileMap,
        flow_start: int,
        var_start: int,
    ) -> bool {
        &&& self.layouts_unioned
        &&& self.flow@.variant_flow == before.flow@.flow.skip(flow_start)
        &&& self.flow@.flow == before.flow@.flow
        &&& self.flow@.header_flow == before.flow@.header_flow
        &&& self.sources@ == seq![base.own]
        &&& self.symbols@ == (VarTablesView {
            file_vars: file_vars_of(
                before.symbols@.variables,
                0,
                var_start,
                before.symbols@.variables.len() as int,
            ),
            ..before.symbols@
        })
        &&& facts::all_stated(self.keys.bases@) == scope::joined_in(
            seq![],
            definitions_of(
                base.functions@,
                map,
                before.keys.lines@,
                before.symbols@.functions,
                base.functions@.len() as int,
            ),
        )
        &&& self.keys.lines@ == before.keys.lines@
        &&& self.keys.headers@ == before.keys.headers@
        &&& *self == (Program {
            layouts_unioned: true,
            flow: self.flow,
            sources: self.sources,
            symbols: self.symbols,
            keys: self.keys,
            ..*before
        })
    }

    /// Begin the configurations of a source once its first one is merged:
    /// what it added is what the others may repeat. The first constraint and
    /// the first variable it added are at `flow_start` and `var_start`.
    pub fn begin_variants(
        &mut self,
        base: &UnitIndex,
        map: &FileMap,
        flow_start: usize,
        var_start: usize,
    )
        requires
            flow_start <= old(self).flow.flow@.len(),
            var_start <= old(self).symbols.variables@.len(),
        ensures
            final(self).has_variants_begun(old(self), *base, *map, flow_start as int, var_start as int),
    {
        self.layouts_unioned = true;
        self.flow.variant_flow = flow_from(&self.flow.flow, flow_start);
        self.sources = Vec::new();
        let mut sources: Vec<FileInfo> = Vec::new();
        sources.push(FileInfo { path: base.own.path.clone(), is_dep: base.own.is_dep });
        assert(sources@ =~= seq![base.own]);
        self.sources = sources;
        self.symbols.file_vars = own_file_vars(&self.symbols.variables, 0, var_start);
        let found = base_definitions(&base.functions, map, &self.keys, &self.symbols.functions);
        let mut bases: Vec<BaseDef> = Vec::new();
        assert(facts::all_stated(bases@) =~= seq![]);
        add_facts(&mut bases, &found);
        self.keys.bases = bases;
    }

    /// The number that tells a source's variables outside functions from those
    /// of another source.
    pub fn source_scope(&mut self, own: &FileInfo) -> (r: u32)
        requires
            old(self).sources@.len() < u32::MAX,
        ensures
            r == merge::path_at(old(self).sources@, own.path@, 0),
            final(self).sources@ == merge::with_file(old(self).sources@, *own),
            *final(self) == (Program { sources: final(self).sources, ..*old(self) }),
    {
        add_file(&mut self.sources, own).0
    }

    /// The program is `before` with a configuration counted that was merged.
    pub open spec fn has_variant_ended(
        &self,
        before: &Program,
        unit: UnitIndex,
        map: FileMap,
    ) -> bool {
        &&& facts::all_stated(self.keys.bases@) == scope::joined_in(
            facts::all_stated(before.keys.bases@),
            definitions_of(
                unit.functions@,
                map,
                before.keys.lines@,
                before.symbols@.functions,
                unit.functions@.len() as int,
            ),
        )
        &&& self.keys.lines@ == before.keys.lines@
        &&& self.keys.headers@ == before.keys.headers@
        &&& *self == (Program {
            keys: self.keys,
            variants_merged: (before.variants_merged + 1) as usize,
            ..*before
        })
    }

    /// Note a configuration that was merged. What it defines first, later
    /// configurations extend.
    pub fn end_variant(&mut self, unit: &UnitIndex, map: &FileMap)
        requires
            old(self).variants_merged < usize::MAX,
        ensures
            final(self).has_variant_ended(old(self), *unit, *map),
    {
        let found = base_definitions(&unit.functions, map, &self.keys, &self.symbols.functions);
        add_facts(&mut self.keys.bases, &found);
        self.variants_merged = self.variants_merged + 1;
    }
}

/// Merging a unit takes nothing back and makes up no number: the constraints
/// and calls there were stand first, and those that are added name variables
/// and functions that the program has. The numbers that the unit's functions and
/// parameters got before are the program's.
pub proof fn law_a_unit_becomes_the_programs(
    before: Program,
    after: Program,
    unit: UnitIndex,
    mode: MergeMode,
    map: FileMap,
    type_map: Vec<TypeId>,
    fns: FnMerge,
    scope: u32,
)
    requires
        after.is_finished(&before, unit, mode, map, type_map, fns, scope),
        program::gives_vars(fns.var_map@, before.symbols@.variables),
        program::gives_fns(fns.fn_map@, after.symbols@.functions),
        forall|i: int|
            0 <= i < before.symbols@.file_vars.len() ==> program::holds_var(
                before.symbols@.variables,
                (#[trigger] before.symbols@.file_vars[i]).id,
            ),
    ensures
        forall|id: VarId|
            program::holds_var(before.symbols@.variables, id) ==> #[trigger] program::holds_var(
                after.symbols@.variables,
                id,
            ),
        program::gives_vars(after.symbols@.var_map, after.symbols@.variables),
        forall|i: int|
            0 <= i < after.symbols@.file_vars.len() ==> program::holds_var(
                after.symbols@.variables,
                (#[trigger] after.symbols@.file_vars[i]).id,
            ),
        before.flow@.flow.is_prefix_of(after.flow@.flow),
        forall|i: int|
            before.flow@.flow.len() <= i < after.flow@.flow.len() ==> merge_flow::names_held(
                #[trigger] after.flow@.flow[i],
                after.symbols@.variables,
                after.symbols@.functions,
            ),
        before.calls@.records.is_prefix_of(after.calls@.records),
        forall|i: int|
            before.calls@.records.len() <= i < after.calls@.records.len()
                ==> merge_calls::names_held(
                #[trigger] after.calls@.records[i],
                after.symbols@.variables,
                after.symbols@.functions,
            ),
{
    let s = VarTablesView {
        var_map: fns.var_map@,
        locals: seq![],
        temps: seq![],
        given: seq![],
        ..before.symbols@
    };
    assert(merge_vars::knows_only_held(s));
    merge_vars::law_noted_bodies_hold_the_programs(
        s,
        fns.remerged@,
        before.symbols@.functions.len() as int,
    );
    let opened = symbols_opened(before.symbols@, fns);
    let c = VarContext {
        mode,
        map: &map,
        files: &before.files,
        type_map: &type_map,
        fn_map: &fns.fn_map,
        dropped: &fns.dropped,
        remerged: &fns.remerged,
        scope,
    };
    merge_vars::law_variables_become_the_programs(
        opened,
        c,
        unit.variables@,
        unit.variables@.len() as int,
    );
    if !merge_vars::is_dep(before.files@, map.primary) {
        let f = FlowContext {
            mode,
            files: &before.files,
            functions: &after.symbols.functions,
            variables: &after.symbols.variables,
            unit_vars: &unit.variables,
            users: &before.header_users,
            shares_headers: fns.shares_headers,
            fn_map: &fns.fn_map,
            var_map: &after.symbols.var_map,
            dropped: &fns.dropped,
        };
        merge_flow::law_added_constraints_name_the_programs(
            before.flow@,
            f,
            merge_flow::flow_views(unit.flow@),
            unit.flow@.len() as int,
        );
        let cc = CallContext {
            mode,
            map: &map,
            files: &before.files,
            functions: &after.symbols.functions,
            users: &before.header_users,
            fn_map: &fns.fn_map,
            var_map: &after.symbols.var_map,
            dropped: &fns.dropped,
        };
        merge_calls::law_added_calls_name_the_programs(
            (CallTablesView { call_map: idmap::no_entries(), ..before.calls@ }),
            cc,
            unit.call_sites@,
            after.symbols@.variables,
            unit.call_sites@.len() as int,
        );
    }
}

} // verus!
