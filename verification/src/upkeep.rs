//! What building a program keeps: whatever is merged into it, what it holds
//! names its own functions and variables only.

use crate::facts;
use crate::ir::{FileId, FnId, VarId};
use crate::merge;
use crate::merge::{FileMap, MergeMode};
use crate::merge_calls;
use crate::merge_flow;
use crate::merge_fns;
use crate::merge_fns::{FnContext, FnMerge, FnMergeView, Registered};
use crate::merge_vars;
use crate::merge_vars::{VarContext, VarTablesView};
use crate::program;
use crate::program::FnView;
use crate::scope;
use crate::unit;
use crate::unit::{Program, UnitIndex};
use vstd::prelude::*;

verus! {

/// Everything that the program holds names functions and variables of its own:
/// the constraints, the calls, and the places by which functions and variables
/// are found again.
pub open spec fn is_whole(p: Program) -> bool {
    &&& merge_fns::knows_held(p.keys, p.symbols@.functions)
    &&& forall|i: int|
        0 <= i < p.symbols@.file_vars.len() ==> program::holds_var(
            p.symbols@.variables,
            (#[trigger] p.symbols@.file_vars[i]).id,
        )
    &&& forall|i: int|
        0 <= i < p.flow@.flow.len() ==> merge_flow::names_held(
            #[trigger] p.flow@.flow[i],
            p.symbols@.variables,
            p.symbols@.functions,
        )
    &&& forall|i: int|
        0 <= i < p.calls@.records.len() ==> merge_calls::names_held(
            #[trigger] p.calls@.records[i],
            p.symbols@.variables,
            p.symbols@.functions,
        )
}

/// Every function of the first list has its number in the second.
pub open spec fn keeps_fns(a: Seq<FnView>, b: Seq<FnView>) -> bool {
    forall|id: FnId| program::holds_fn(a, id) ==> #[trigger] program::holds_fn(b, id)
}

pub open spec fn keeps_vars(
    a: Seq<program::Variable>,
    b: Seq<program::Variable>,
) -> bool {
    forall|id: VarId| program::holds_var(a, id) ==> #[trigger] program::holds_var(b, id)
}

/// The merge of a unit under way: the program, and what the unit's functions
/// have become so far.
pub struct Stage {
    pub program: Program,
    pub fns: FnMergeView,
}

/// The program's table took a function in and answered for it: the functions
/// there were keep their numbers, the answer is one of the program's, and
/// nothing else of the program changed.
pub open spec fn is_registered(before: Program, after: Program, got: Registered) -> bool {
    &&& after == (Program { symbols: after.symbols, ..before })
    &&& after.symbols@ == (VarTablesView {
        functions: after.symbols@.functions,
        ..before.symbols@
    })
    &&& keeps_fns(before.symbols@.functions, after.symbols@.functions)
    &&& program::holds_fn(after.symbols@.functions, got.id)
}

/// How one stage of a merge goes over into the next.
pub enum MergeStep {
    /// Functions from `from` up to `to` are settled.
    Place { from: int, to: int },
    /// The function at `at` is taken in under the number that the program's
    /// table, which `table` is the program with, answered.
    TakeIn { at: int, table: Program, got: Registered },
    /// The respelled declarations have the numbers of their definitions.
    Join,
}

pub open spec fn is_step(
    a: Stage,
    b: Stage,
    step: MergeStep,
    c: FnContext<'_>,
    unit: UnitIndex,
) -> bool {
    match step {
        MergeStep::Place { from, to } => {
            &&& 0 <= from <= to <= unit.functions@.len()
            &&& b.program.are_placed(&a.program, a.fns, b.fns, c, unit, from, to)
        },
        MergeStep::TakeIn { at, table, got } => {
            &&& 0 <= at < unit.functions@.len()
            &&& is_registered(a.program, table, got)
            &&& b.fns == merge_fns::entered(
                a.fns,
                *c.map,
                unit.functions@[at]@,
                program::text_at(unit.internal_definitions@, unit.functions@[at].id, 0),
                got,
            )
            &&& b.program.is_taken_in(&table, c, unit, at, got)
        },
        MergeStep::Join => {
            &&& b.program == (Program { keys: b.program.keys, ..a.program })
            &&& merge_fns::are_respelled(
                a.program.keys,
                b.program.keys,
                a.fns,
                b.fns,
                program::fn_views(unit.functions@),
                c.respelled@,
                *c.map,
            )
        },
    }
}

/// A merge of one unit: the program with the unit begun, the stages that its
/// functions go through, and what they have become at the end.
pub struct Run<'a> {
    pub unit: UnitIndex,
    pub c: FnContext<'a>,
    /// The program once the unit's source has its number.
    pub scoped: Program,
    pub scope: u32,
    pub stages: Seq<Stage>,
    pub steps: Seq<MergeStep>,
    pub fns: FnMerge,
}

/// The run makes `after` of `before`.
pub open spec fn is_run(before: Program, after: Program, r: Run<'_>) -> bool {
    &&& r.scoped == (Program { sources: r.scoped.sources, ..before })
    &&& r.stages.len() == r.steps.len() + 1
    &&& r.stages[0].program.is_begun(&r.scoped, r.unit, r.c.mode, *r.c.map)
    &&& r.stages[0].fns == merge_fns::nothing_settled()
    &&& forall|i: int|
        0 <= i < r.steps.len() ==> is_step(
            r.stages[i],
            r.stages[i + 1],
            #[trigger] r.steps[i],
            r.c,
            r.unit,
        )
    &&& r.fns@ == r.stages.last().fns
    &&& after.is_finished(
        &r.stages.last().program,
        r.unit,
        r.c.mode,
        *r.c.map,
        *r.c.type_map,
        r.fns,
        r.scope,
    )
}

/// What a stage is: its program is whole, and what the unit's functions and
/// their parameters have become is the program's.
pub open spec fn is_whole_stage(s: Stage) -> bool {
    &&& is_whole(s.program)
    &&& program::gives_fns(s.fns.fn_map, s.program.symbols@.functions)
    &&& program::gives_vars(s.fns.var_map, s.program.symbols@.variables)
}

/// An empty program is whole.
pub proof fn law_an_empty_program_is_whole(p: Program)
    requires
        p.is_empty(),
    ensures
        is_whole(p),
{
}

proof fn lemma_more_symbols(before: Program, after: Program)
    requires
        is_whole(before),
        after.keys == before.keys,
        after.flow@.flow == before.flow@.flow,
        after.calls@.records == before.calls@.records,
        after.symbols@.file_vars == before.symbols@.file_vars,
        keeps_fns(before.symbols@.functions, after.symbols@.functions),
        keeps_vars(before.symbols@.variables, after.symbols@.variables),
    ensures
        is_whole(after),
{
    let vars = after.symbols@.variables;
    let fns = after.symbols@.functions;
    assert forall|i: int| 0 <= i < after.flow@.flow.len() implies merge_flow::names_held(
        #[trigger] after.flow@.flow[i],
        vars,
        fns,
    ) by {
        assert(merge_flow::names_held(
            before.flow@.flow[i],
            before.symbols@.variables,
            before.symbols@.functions,
        ));
    }
    assert forall|i: int| 0 <= i < after.calls@.records.len() implies merge_calls::names_held(
        #[trigger] after.calls@.records[i],
        vars,
        fns,
    ) by {
        assert(merge_calls::names_held(
            before.calls@.records[i],
            before.symbols@.variables,
            before.symbols@.functions,
        ));
    }
    assert forall|i: int| 0 <= i < after.symbols@.file_vars.len() implies program::holds_var(
        vars,
        (#[trigger] after.symbols@.file_vars[i]).id,
    ) by {
        assert(program::holds_var(
            before.symbols@.variables,
            before.symbols@.file_vars[i].id,
        ));
    }
}

proof fn lemma_settled(
    a: Stage,
    c: FnContext<'_>,
    unit: UnitIndex,
    from: int,
    k: int,
)
    requires
        is_whole_stage(a),
        0 <= from,
        k <= unit.functions@.len(),
    ensures
        program::gives_fns(
            a.program.settled_up_to(a.fns, c, unit, from, k).fn_map,
            a.program.symbols@.functions,
        ),
        program::gives_vars(
            a.program.settled_up_to(a.fns, c, unit, from, k).var_map,
            a.program.symbols@.variables,
        ),
    decreases k,
{
    if k > from && k > 0 {
        lemma_settled(a, c, unit, from, k - 1);
        let before = a.program.settled_up_to(a.fns, c, unit, from, k - 1);
        let f = unit.functions@[k - 1];
        let text = program::text_at(unit.internal_definitions@, f.id, 0);
        let fns = a.program.symbols@.functions;
        let vars = a.program.symbols.variables@;
        merge_fns::law_placements_are_the_programs(a.program.keys, fns, vars, c, f@, text);
        merge_fns::lemma_settled_is_held(
            before,
            fns,
            vars,
            unit.variables@,
            f@,
            a.program.place_of(c, unit, k - 1),
        );
    }
}

/// Every step that the functions of a unit go through keeps a whole program
/// whole, and gives them the program's numbers.
pub proof fn law_steps_give_the_programs_numbers(
    a: Stage,
    b: Stage,
    step: MergeStep,
    c: FnContext<'_>,
    unit: UnitIndex,
)
    requires
        is_whole_stage(a),
        is_step(a, b, step, c, unit),
    ensures
        is_whole_stage(b),
        b.program.flow == a.program.flow,
        b.program.calls == a.program.calls,
        b.program.diagnostics == a.program.diagnostics,
{
    match step {
        MergeStep::Place { from, to } => {
            lemma_settled(a, c, unit, from, to);
            lemma_more_symbols(a.program, b.program);
        },
        MergeStep::TakeIn { at, table, got } => {
            lemma_more_symbols(a.program, table);
            let fns = table.symbols@.functions;
            assert forall|k: u32| #[trigger] a.fns.fn_map.dom().contains(k) implies
                program::holds_fn(fns, FnId(a.fns.fn_map[k])) by {
                assert(program::holds_fn(
                    a.program.symbols@.functions,
                    FnId(a.fns.fn_map[k]),
                ));
            }
            lemma_keys_taken_in(table, b.program, c, unit, at, got);
        },
        MergeStep::Join => {
            merge_fns::law_respelled_declarations_become_the_programs(
                a.program.keys,
                b.program.keys,
                a.fns,
                b.fns,
                program::fn_views(unit.functions@),
                c.respelled@,
                *c.map,
                a.program.symbols@.functions,
            );
        },
    }
}

proof fn lemma_keys_taken_in(
    table: Program,
    after: Program,
    c: FnContext<'_>,
    unit: UnitIndex,
    at: int,
    got: Registered,
)
    requires
        is_whole(table),
        program::holds_fn(table.symbols@.functions, got.id),
        after.is_taken_in(&table, c, unit, at, got),
    ensures
        is_whole(after),
{
    let fns = table.symbols@.functions;
    assert forall|i: int| 0 <= i < after.keys.headers@.len() implies program::holds_fn(
        fns,
        (#[trigger] after.keys.headers@[i]).id,
    ) by {
        if i < table.keys.headers@.len() {
            assert(program::holds_fn(fns, table.keys.headers@[i].id));
            if after.keys.headers@.len() > table.keys.headers@.len() {
                assert(after.keys.headers@.drop_last()[i] == after.keys.headers@[i]);
            }
        }
    }
    assert forall|i: int| 0 <= i < after.keys.lines@.len() implies program::holds_fn(
        fns,
        (#[trigger] after.keys.lines@[i]).id,
    ) by {
        if i < table.keys.lines@.len() {
            assert(program::holds_fn(fns, table.keys.lines@[i].id));
            if after.keys.lines@.len() > table.keys.lines@.len() {
                assert(after.keys.lines@.drop_last()[i] == after.keys.lines@[i]);
            }
        }
    }
}

proof fn lemma_local_keeps_fns(fns: Seq<FnView>, owner: FnId, id: VarId)
    ensures
        keeps_fns(fns, merge_vars::with_local(fns, owner, id)),
{
    let after = merge_vars::with_local(fns, owner, id);
    program::lemma_fn_at(fns, owner, 0);
    assert forall|f: FnId| program::holds_fn(fns, f) implies #[trigger] program::holds_fn(after, f) by {
        let i = choose|i: int| 0 <= i < fns.len() && (#[trigger] fns[i]).id == f;
        assert(after[i].id == f);
    }
}

proof fn lemma_vars_keep_fns(
    s: VarTablesView,
    c: VarContext<'_>,
    vars: Seq<program::Variable>,
    k: int,
)
    requires
        0 <= k <= vars.len(),
    ensures
        keeps_fns(s.functions, merge_vars::vars_merged(s, c, vars, k).functions),
    decreases k,
{
    if k > 0 {
        lemma_vars_keep_fns(s, c, vars, k - 1);
        let before = merge_vars::vars_merged(s, c, vars, k - 1);
        if let Some(owner) = merge_vars::owner_in(c, vars[k - 1]) {
            lemma_local_keeps_fns(before.functions, owner, VarId(before.next_var));
        }
        let after = merge_vars::vars_merged(s, c, vars, k);
        assert forall|f: FnId| program::holds_fn(s.functions, f) implies #[trigger]
        program::holds_fn(after.functions, f) by {
            assert(program::holds_fn(before.functions, f));
        }
    }
}

proof fn lemma_params_keep_fns(fns: Seq<FnView>, adopted: Set<u32>, vars: Map<u32, u32>)
    ensures
        keeps_fns(fns, merge_vars::params_placed(fns, adopted, vars)),
{
    let after = merge_vars::params_placed(fns, adopted, vars);
    assert forall|f: FnId| program::holds_fn(fns, f) implies #[trigger] program::holds_fn(after, f) by {
        let i = choose|i: int| 0 <= i < fns.len() && (#[trigger] fns[i]).id == f;
        assert(after[i].id == f);
    }
}

proof fn lemma_finish(
    before: Program,
    after: Program,
    unit: UnitIndex,
    mode: MergeMode,
    map: FileMap,
    type_map: Vec<crate::ir::TypeId>,
    fns: FnMerge,
    scope: u32,
)
    requires
        is_whole_stage((Stage { program: before, fns: fns@ })),
        after.is_finished(&before, unit, mode, map, type_map, fns, scope),
    ensures
        is_whole(after),
        before.flow@.flow.is_prefix_of(after.flow@.flow),
        before.calls@.records.is_prefix_of(after.calls@.records),
        after.diagnostics == before.diagnostics,
{
    let s = before.symbols@;
    let c = VarContext {
        mode,
        map: &map,
        files: &before.files,
        type_map: &type_map,
        fn_map: &fns.fn_map,
        dropped: &fns.dropped,
        remerged: &fns.remerged,
        scope,
    };
    let opened = unit::symbols_opened(s, fns);
    merge_vars::lemma_noted_keeps_symbols(
        VarTablesView {
            var_map: fns.var_map@,
            locals: seq![],
            temps: seq![],
            given: seq![],
            ..s
        },
        fns.remerged@,
        s.functions.len() as int,
    );
    lemma_vars_keep_fns(opened, c, unit.variables@, unit.variables@.len() as int);
    let merged = merge_vars::vars_merged(
        opened,
        c,
        unit.variables@,
        unit.variables@.len() as int,
    );
    lemma_params_keep_fns(merged.functions, fns.adopted@, merged.var_map);
    assert(keeps_fns(s.functions, after.symbols@.functions)) by {
        assert forall|f: FnId| program::holds_fn(s.functions, f) implies #[trigger]
        program::holds_fn(after.symbols@.functions, f) by {
            assert(program::holds_fn(merged.functions, f));
        }
    }
    assert(program::gives_fns(fns.fn_map@, after.symbols@.functions)) by {
        assert forall|k: u32| #[trigger] fns.fn_map@.dom().contains(k) implies program::holds_fn(
            after.symbols@.functions,
            FnId(fns.fn_map@[k]),
        ) by {
            assert(program::holds_fn(s.functions, FnId(fns.fn_map@[k])));
        }
    }
    unit::law_a_unit_becomes_the_programs(
        before,
        after,
        unit,
        mode,
        map,
        type_map,
        fns,
        scope,
    );
    let vars = after.symbols@.variables;
    let all = after.symbols@.functions;
    assert forall|i: int| 0 <= i < after.flow@.flow.len() implies merge_flow::names_held(
        #[trigger] after.flow@.flow[i],
        vars,
        all,
    ) by {
        if i < before.flow@.flow.len() {
            assert(after.flow@.flow[i] == before.flow@.flow[i]);
            assert(merge_flow::names_held(before.flow@.flow[i], s.variables, s.functions));
        }
    }
    assert forall|i: int| 0 <= i < after.calls@.records.len() implies merge_calls::names_held(
        #[trigger] after.calls@.records[i],
        vars,
        all,
    ) by {
        if i < before.calls@.records.len() {
            assert(after.calls@.records[i] == before.calls@.records[i]);
            assert(merge_calls::names_held(before.calls@.records[i], s.variables, s.functions));
        }
    }
}

proof fn lemma_stages(r: Run<'_>, k: int)
    requires
        r.stages.len() == r.steps.len() + 1,
        0 <= k <= r.steps.len(),
        is_whole_stage(r.stages[0]),
        forall|i: int|
            0 <= i < r.steps.len() ==> is_step(
                r.stages[i],
                r.stages[i + 1],
                #[trigger] r.steps[i],
                r.c,
                r.unit,
            ),
    ensures
        is_whole_stage(r.stages[k]),
        r.stages[k].program.flow == r.stages[0].program.flow,
        r.stages[k].program.calls == r.stages[0].program.calls,
        r.stages[k].program.diagnostics == r.stages[0].program.diagnostics,
    decreases k,
{
    if k > 0 {
        lemma_stages(r, k - 1);
        assert(is_step(r.stages[k - 1], r.stages[k], r.steps[k - 1], r.c, r.unit));
        law_steps_give_the_programs_numbers(
            r.stages[k - 1],
            r.stages[k],
            r.steps[k - 1],
            r.c,
            r.unit,
        );
    }
}

/// Merging a unit takes nothing back and makes up no number, whatever the mode:
/// the constraints, the calls and the reports there were stand first, and all
/// that the program holds then names its own functions and variables.
pub proof fn law_merging_a_unit_makes_up_nothing(before: Program, after: Program, r: Run<'_>)
    requires
        is_whole(before),
        is_run(before, after, r),
    ensures
        is_whole(after),
        before.flow@.flow.is_prefix_of(after.flow@.flow),
        before.calls@.records.is_prefix_of(after.calls@.records),
        merge::reports(before.diagnostics@).is_prefix_of(merge::reports(after.diagnostics@)),
{
    let begun = r.stages[0].program;
    lemma_more_symbols(before, begun);
    lemma_stages(r, r.steps.len() as int);
    let last = r.stages.last();
    assert(is_whole_stage((Stage { program: last.program, fns: r.fns@ })));
    lemma_finish(
        last.program,
        after,
        r.unit,
        r.c.mode,
        *r.c.map,
        *r.c.type_map,
        r.fns,
        r.scope,
    );
}

/// One step by which a program is built.
pub enum Build<'a> {
    /// A unit is merged.
    Merge { run: Run<'a> },
    /// A unit is merged for its types alone.
    Types { unit: UnitIndex, map: FileMap },
    /// The configurations of a source begin.
    Begin { base: UnitIndex, map: FileMap, flow_start: int, var_start: int },
    /// A configuration is counted.
    Count { unit: UnitIndex, map: FileMap },
    /// A link image is entered.
    Target,
    /// The units of a link image, or of none, begin.
    Clear,
}

pub open spec fn is_built(before: Program, after: Program, b: Build<'_>) -> bool {
    match b {
        Build::Merge { run } => is_run(before, after, run),
        Build::Types { unit, map } => after.is_begun(&before, unit, MergeMode::TypesOnly, map),
        Build::Begin { base, map, flow_start, var_start } => {
            &&& 0 <= var_start <= before.symbols@.variables.len()
            &&& after.has_variants_begun(&before, base, map, flow_start, var_start)
        },
        Build::Count { unit, map } => after.has_variant_ended(&before, unit, map),
        Build::Target => after == (Program {
            files: after.files,
            link_targets: after.link_targets,
            ..before
        }),
        Build::Clear => after.is_cleared(&before),
    }
}

proof fn lemma_file_vars_held(vars: Seq<program::Variable>, from: int, k: int)
    requires
        0 <= from,
        k <= vars.len(),
    ensures
        forall|i: int|
            0 <= i < unit::file_vars_of(vars, 0, from, k).len() ==> program::holds_var(
                vars,
                (#[trigger] unit::file_vars_of(vars, 0, from, k)[i]).id,
            ),
    decreases k,
{
    if k > from && k > 0 {
        lemma_file_vars_held(vars, from, k - 1);
        let before = unit::file_vars_of(vars, 0, from, k - 1);
        let after = unit::file_vars_of(vars, 0, from, k);
        assert forall|i: int| 0 <= i < after.len() implies program::holds_var(
            vars,
            (#[trigger] after[i]).id,
        ) by {
            if i < before.len() {
                assert(after[i] == before[i]);
            } else {
                assert(vars[k - 1].id == after[i].id);
            }
        }
    }
}

proof fn lemma_definitions_held(
    unit_fns: Seq<program::Function>,
    map: FileMap,
    lines: Seq<merge_fns::FnKey>,
    fns: Seq<FnView>,
    k: int,
)
    requires
        0 <= k <= unit_fns.len(),
        forall|i: int|
            0 <= i < lines.len() ==> program::holds_fn(fns, (#[trigger] lines[i]).id),
    ensures
        forall|i: int|
            0 <= i < unit::definitions_of(unit_fns, map, lines, fns, k).len()
                ==> program::holds_fn(
                fns,
                (#[trigger] unit::definitions_of(unit_fns, map, lines, fns, k)[i]).2,
            ),
    decreases k,
{
    if k > 0 {
        lemma_definitions_held(unit_fns, map, lines, fns, k - 1);
        let before = unit::definitions_of(unit_fns, map, lines, fns, k - 1);
        let after = unit::definitions_of(unit_fns, map, lines, fns, k);
        let f = unit_fns[k - 1];
        let file = map.spec_of(f.span.file);
        let n = lines.len() as int;
        if merge_fns::line_fn(lines, file, f.name@, f.span.line, n) is Some {
            merge_fns::lemma_line_is_known(lines, file, f.name@, f.span.line, n);
        }
        assert forall|i: int| 0 <= i < after.len() implies program::holds_fn(
            fns,
            (#[trigger] after[i]).2,
        ) by {
            if i < before.len() {
                assert(after[i] == before[i]);
            }
        }
    }
}

proof fn lemma_joined(
    list: Seq<(FileId, Seq<char>, FnId)>,
    more: Seq<(FileId, Seq<char>, FnId)>,
    fns: Seq<FnView>,
)
    requires
        forall|i: int| 0 <= i < list.len() ==> program::holds_fn(fns, (#[trigger] list[i]).2),
        forall|i: int| 0 <= i < more.len() ==> program::holds_fn(fns, (#[trigger] more[i]).2),
    ensures
        forall|i: int|
            0 <= i < scope::joined_in(list, more).len() ==> program::holds_fn(
                fns,
                (#[trigger] scope::joined_in(list, more)[i]).2,
            ),
    decreases more.len(),
{
    if more.len() > 0 {
        let shorter = more.drop_last();
        assert forall|i: int| 0 <= i < shorter.len() implies program::holds_fn(
            fns,
            (#[trigger] shorter[i]).2,
        ) by {
            assert(shorter[i] == more[i]);
        }
        lemma_joined(list, shorter, fns);
        assert(program::holds_fn(fns, more[more.len() - 1].2));
        let before = scope::joined_in(list, shorter);
        let after = scope::joined_in(list, more);
        assert forall|i: int| 0 <= i < after.len() implies program::holds_fn(
            fns,
            (#[trigger] after[i]).2,
        ) by {
            if i < before.len() {
                assert(after[i] == before[i]);
            }
        }
    }
}

proof fn lemma_bases_held(
    list: Seq<(FileId, Seq<char>, FnId)>,
    unit_fns: Seq<program::Function>,
    map: FileMap,
    before: Program,
    after: Program,
)
    requires
        is_whole(before),
        after.symbols@.functions == before.symbols@.functions,
        forall|i: int|
            0 <= i < list.len() ==> program::holds_fn(
                before.symbols@.functions,
                (#[trigger] list[i]).2,
            ),
        facts::all_stated(after.keys.bases@) == scope::joined_in(
            list,
            unit::definitions_of(
                unit_fns,
                map,
                before.keys.lines@,
                before.symbols@.functions,
                unit_fns.len() as int,
            ),
        ),
        after.keys.lines@ == before.keys.lines@,
        after.keys.headers@ == before.keys.headers@,
    ensures
        merge_fns::knows_held(after.keys, after.symbols@.functions),
{
    let fns = before.symbols@.functions;
    let n = unit_fns.len() as int;
    lemma_definitions_held(unit_fns, map, before.keys.lines@, fns, n);
    lemma_joined(list, unit::definitions_of(unit_fns, map, before.keys.lines@, fns, n), fns);
    assert forall|i: int| 0 <= i < after.keys.bases@.len() implies program::holds_fn(
        fns,
        (#[trigger] after.keys.bases@[i]).id,
    ) by {
        assert(facts::all_stated(after.keys.bases@)[i].2 == after.keys.bases@[i].id);
    }
}

/// Whatever step a program is built by, it stays whole, and the constraints, the
/// calls and the reports there were stand first.
pub proof fn law_building_keeps_a_program_whole(before: Program, after: Program, b: Build<'_>)
    requires
        is_whole(before),
        is_built(before, after, b),
    ensures
        is_whole(after),
        before.flow@.flow.is_prefix_of(after.flow@.flow),
        before.calls@.records.is_prefix_of(after.calls@.records),
        merge::reports(before.diagnostics@).is_prefix_of(merge::reports(after.diagnostics@)),
{
    match b {
        Build::Merge { run } => law_merging_a_unit_makes_up_nothing(before, after, run),
        Build::Types { .. } => lemma_more_symbols(before, after),
        Build::Begin { base, map, flow_start, var_start } => {
            lemma_file_vars_held(
                before.symbols@.variables,
                var_start,
                before.symbols@.variables.len() as int,
            );
            lemma_bases_held(seq![], base.functions@, map, before, after);
        },
        Build::Count { unit, map } => {
            let list = facts::all_stated(before.keys.bases@);
            assert forall|i: int| 0 <= i < list.len() implies program::holds_fn(
                before.symbols@.functions,
                (#[trigger] list[i]).2,
            ) by {
                assert(list[i].2 == before.keys.bases@[i].id);
                assert(program::holds_fn(
                    before.symbols@.functions,
                    before.keys.bases@[i].id,
                ));
            }
            lemma_bases_held(list, unit.functions@, map, before, after);
        },
        Build::Target => lemma_more_symbols(before, after),
        Build::Clear => {},
    }
}

/// A program that is built from an empty one by merges alone holds only what
/// names its own functions and variables, at every step.
pub proof fn law_built_programs_are_whole(programs: Seq<Program>, builds: Seq<Build<'_>>, k: int)
    requires
        programs.len() == builds.len() + 1,
        0 <= k < programs.len(),
        programs[0].is_empty(),
        forall|i: int|
            0 <= i < builds.len() ==> is_built(programs[i], programs[i + 1], #[trigger] builds[i]),
    ensures
        is_whole(programs[k]),
    decreases k,
{
    if k > 0 {
        law_built_programs_are_whole(programs, builds, k - 1);
        assert(is_built(programs[k - 1], programs[k], builds[k - 1]));
        law_building_keeps_a_program_whole(programs[k - 1], programs[k], builds[k - 1]);
    } else {
        law_an_empty_program_is_whole(programs[0]);
    }
}

} // verus!
