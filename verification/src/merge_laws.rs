//! Where what a unit brings goes in the program.

use crate::ir::{FileId, FnId, StorageClass, TypeId, VarId};
use crate::merge;
use crate::merge::{FileMap, MergeMode};
use crate::merge_calls;
use crate::merge_calls::{CallContext, CallRoute, CallTablesView, SiteKey};
use crate::merge_flow;
use crate::merge_flow::FlowContext;
use crate::merge_fns;
use crate::merge_fns::{BaseDef, FnContext, FnKeys, FnMerge, Placement};
use crate::merge_vars;
use crate::merge_vars::{TempPlace, VarContext, VarRoute, VarTablesView};
use crate::program;
use crate::program::{FnView, Occurrence, RecordView, Variable};
use crate::remap;
use crate::remap::{FlowView, ReturnView};
use crate::unit;
use crate::unit::{Program, UnitIndex};
use crate::window;
use crate::window::{Take, Window};
use vstd::prelude::*;

verus! {

proof fn lemma_key_at(v: Seq<SiteKey>, at: Occurrence, name: Seq<char>, k: int, i: int)
    requires
        0 <= k <= i < v.len(),
        v[i].occurrence == at,
        v[i].name@ == name,
    ensures
        merge_calls::key_at(v, at, name, k) is Some,
        (forall|j: int|
            k <= j < i ==> !((#[trigger] v[j]).occurrence == at && v[j].name@ == name))
            ==> merge_calls::key_at(v, at, name, k) == Some(v[i].id),
    decreases i - k,
{
    if k < i {
        lemma_key_at(v, at, name, k + 1, i);
    }
}

/// The first call noted at an occurrence under a name is the one found there.
pub proof fn law_noted_calls_are_found(v: Seq<SiteKey>, i: int)
    requires
        0 <= i < v.len(),
        forall|j: int|
            0 <= j < i ==> !((#[trigger] v[j]).occurrence == v[i].occurrence && v[j].name@
                == v[i].name@),
    ensures
        merge_calls::key_at(v, v[i].occurrence, v[i].name@, 0) == Some(v[i].id),
{
    lemma_key_at(v, v[i].occurrence, v[i].name@, 0, i);
}

/// A call that is taken in is noted where other units may state it again: under its
/// occurrence and name, among the repeats where its caller is merged again, and for the
/// unit where its caller is shared.
pub proof fn law_new_calls_are_noted(
    s: CallTablesView,
    c: CallContext<'_>,
    r: RecordView,
    name: String,
    record: RecordView,
    caller: FnId,
)
    requires
        merge_calls::call_route(s, c, r) == (CallRoute::New { record, caller }),
    ensures
        ({
            let after = merge_calls::call_step(s, c, r, name);
            let is_shared = merge_fns::is_shared(c.users@, caller);
            let stands = !program::is_internal_fn(program::fn_views(c.functions@), caller)
                || is_shared;
            &&& stands ==> merge_calls::key_at(after.keys, record.occurrence, name@, 0) is Some
            &&& !stands ==> after.keys == s.keys && after.repeats == s.repeats
            &&& stands && (c.mode == MergeMode::Variant || is_shared) ==> after.repeats.len()
                == s.repeats.len() + 1 && after.repeats.last().id == s.next_call
                && after.repeats.last().occurrence == record.occurrence
            &&& is_shared ==> after.users.contains((s.next_call, c.map.primary))
            &&& !is_shared ==> after.users == s.users
        }),
{
    let e = SiteKey { occurrence: record.occurrence, name, id: s.next_call };
    if merge_calls::key_at(s.keys, e.occurrence, e.name@, 0) is None {
        let all = s.keys.push(e);
        assert(all[s.keys.len() as int] == e);
        lemma_key_at(all, e.occurrence, name@, 0, s.keys.len() as int);
    }
    let users = merge_calls::with_call_user(s.users, s.next_call, c.map.primary);
    if !s.users.contains((s.next_call, c.map.primary)) {
        assert(users[s.users.len() as int] == (s.next_call, c.map.primary));
    }
}

/// Whose call it is in the program: its caller's, unless that is dropped or the call
/// stands in a dependency.
pub proof fn law_calls_of_dropped_functions_are_left_out(
    s: CallTablesView,
    c: CallContext<'_>,
    r: RecordView,
    name: String,
)
    ensures
        c.dropped@.contains(r.site.caller.0) ==> merge_calls::call_step(s, c, r, name) == s,
        !c.fn_map@.dom().contains(r.site.caller.0) ==> merge_calls::call_step(s, c, r, name) == s,
        merge_vars::is_dep(c.files@, c.map.spec_of(r.scope_file)) ==> merge_calls::call_step(
            s,
            c,
            r,
            name,
        ) == s,
        c.fn_map@.dom().contains(r.site.caller.0) && !c.dropped@.contains(r.site.caller.0)
            && !merge_vars::is_dep(c.files@, c.map.spec_of(r.scope_file)) && c.mode
            != MergeMode::SymbolsOnly ==> merge_calls::merged_caller(c, r) == Some(
            FnId(c.fn_map@[r.site.caller.0]),
        ),
{
}

/// What a function returns is its program function's, unless it is dropped or stands in a
/// dependency.
pub proof fn law_returns_of_dropped_functions_are_left_out(c: FlowContext<'_>, f: FnId, own: FnView)
    ensures
        c.dropped@.contains(f.0) ==> merge_flow::returning_fn(c, f) is None,
        !c.fn_map@.dom().contains(f.0) ==> merge_flow::returning_fn(c, f) is None,
        c.fn_map@.dom().contains(f.0) && program::fn_by_id(
            program::fn_views(c.functions@),
            FnId(c.fn_map@[f.0]),
        ) == Some(own) ==> {
            &&& merge_vars::is_dep(c.files@, own.file) ==> merge_flow::returning_fn(c, f) is None
            &&& !c.dropped@.contains(f.0) && !merge_vars::is_dep(c.files@, own.file) && c.mode
                != MergeMode::SymbolsOnly ==> merge_flow::returning_fn(c, f) == Some(
                FnId(c.fn_map@[f.0]),
            )
        },
{
}

proof fn lemma_returns_joined(held: Seq<ReturnView>, more: Seq<ReturnView>, k: int)
    requires
        0 <= k <= more.len(),
        held.no_duplicates(),
    ensures
        merge_flow::returns_joined(held, more, k).no_duplicates(),
    decreases k,
{
    if k > 0 {
        lemma_returns_joined(held, more, k - 1);
        let before = merge_flow::returns_joined(held, more, k - 1);
        let all = merge_flow::returns_joined(held, more, k);
        if !before.contains(more[k - 1]) {
            assert forall|i: int, j: int|
                0 <= i < all.len() && 0 <= j < all.len() && i != j implies all[i] != all[j] by {
                if i == before.len() {
                    assert(before.contains(before[j]));
                } else if j == before.len() {
                    assert(before.contains(before[i]));
                }
            }
        }
    }
}

/// What a configuration, or another user of a shared body, says again of a function's
/// returns is held once.
pub proof fn law_returns_are_held_once(
    s: Seq<(FnId, Seq<ReturnView>)>,
    c: FlowContext<'_>,
    f: FnId,
    facts: Seq<ReturnView>,
    own: FnId,
)
    requires
        merge_flow::returning_fn(c, f) == Some(own),
        merge_flow::entry_at(s, own, 0) is None,
        c.mode == MergeMode::Variant || merge_fns::is_shared(c.users@, own),
    ensures
        ({
            let after = merge_flow::return_step(s, c, f, facts);
            after.len() == s.len() + 1 && after.last().0 == own && after.last().1.no_duplicates()
        }),
{
    let all = merge_flow::returns_in(facts, c.fn_map@, c.var_map@, facts.len() as int);
    lemma_returns_joined(seq![], all, all.len() as int);
}

/// A local of a function whose body is merged again is found again: by its name, or by the
/// place of the temporary that it is.
pub proof fn law_extended_bodies_note_their_locals(
    s: VarTablesView,
    c: VarContext<'_>,
    var: Variable,
    owner: FnId,
)
    requires
        merge_vars::var_route(s, c, var) == VarRoute::New,
        merge_vars::extended(c, var) == Some(owner),
    ensures
        ({
            let after = merge_vars::var_step(s, c, var);
            let id = VarId(s.next_var);
            &&& merge_vars::temp_kind(var.name@) is None ==> after.locals.len() == s.locals.len()
                + 1 && after.locals.last().owner == owner && after.locals.last().id == id
                && after.locals.last().name == var.name && after.locals.last().span
                == c.map.spec_span(var.span) && after.temps == s.temps
            &&& merge_vars::temp_kind(var.name@) matches Some(kind) ==> after.locals == s.locals
                && after.temps.len() == s.temps.len() + 1 && after.temps.last().1 == id
                && after.temps.last().0.owner == owner && after.temps.last().0.kind == kind
        }),
{
}

/// Which variable of the program a unit's is: none where its function is dropped, the next
/// temporary at its place where one is left, the global that it is linked to, else a new
/// one.
pub proof fn law_variables_find_their_place(
    s: VarTablesView,
    c: VarContext<'_>,
    var: Variable,
    place: TempPlace,
)
    ensures
        (var.fn_id matches Some(f) && c.dropped@.contains(f.0)) ==> merge_vars::var_route(
            s,
            c,
            var,
        ) == VarRoute::Skipped,
        s.var_map.dom().contains(var.id.0) ==> merge_vars::var_route(s, c, var)
            == VarRoute::Skipped,
        ({
            let all = merge_vars::temps_at(s.temps, place, s.temps.len() as int);
            let next = merge_vars::given(s.given, var.fn_id, place, s.given.len() as int);
            merge_vars::temp_place(c, var) == Some(place) && var.fn_id is Some && next
                < all.len() && !(var.fn_id matches Some(f) && c.dropped@.contains(f.0))
                && !s.var_map.dom().contains(var.id.0) && !(var.storage == StorageClass::Local
                && merge_vars::is_dep(c.files@, c.map.spec_span(var.span).file))
                ==> merge_vars::var_route(s, c, var) == (VarRoute::IsTemp { id: all[next as int] })
        }),
        var.fn_id is None && c.mode != MergeMode::Variant && !s.var_map.dom().contains(var.id.0)
            && var.storage != StorageClass::Local ==> {
            &&& merge_vars::image_global(s.variables, var, 0) matches Some(at)
                ==> merge_vars::var_route(s, c, var) == (VarRoute::IsGlobal { at })
            &&& merge_vars::image_global(s.variables, var, 0) is None ==> merge_vars::var_route(
                s,
                c,
                var,
            ) == VarRoute::New
        },
{
}

/// Where a function goes: to the shared body, else to the one that stands at its line,
/// which a configuration extends; an internal one of C++ is never found by its line.
pub proof fn law_functions_find_their_place(
    keys: FnKeys,
    fns: Seq<FnView>,
    vars: Seq<Variable>,
    c: FnContext<'_>,
    f: FnView,
    text: Option<Seq<char>>,
)
    requires
        !merge_fns::is_respelled(c.respelled@, f.id),
        c.mode != MergeMode::HeaderPreamble,
    ensures
        ({
            let shared = merge_fns::shared_by(keys, *c.map, f, text);
            let at_line = merge_fns::line_fn(
                keys.lines@,
                c.map.spec_of(f.span.file),
                f.name,
                f.span.line,
                keys.lines@.len() as int,
            );
            let p = merge_fns::placement(keys, fns, vars, c, f, text);
            &&& shared matches Some(id) ==> p == (Placement::Extends { id, shared: true })
            &&& shared is None && !program::internal_cpp(f.traits) ==> (at_line matches Some(id)
                ==> p == if c.mode == MergeMode::Variant {
                Placement::Extends { id, shared: false }
            } else {
                Placement::Known { id }
            })
            &&& shared is None && (program::internal_cpp(f.traits) || at_line is None) && c.mode
                != MergeMode::Variant ==> p == Placement::New
        }),
{
}

/// One function is taken for the sole one; of several, none.
pub proof fn law_the_sole_function_is_taken(v: Seq<FnId>, f: FnId)
    ensures
        merge_fns::sole(seq![f]) == Some(f),
        v.len() != 1 ==> merge_fns::sole(v) is None,
{
}

/// Every file that a unit reads is brought in by it, once, and never by itself.
pub proof fn law_files_are_brought_in_by_the_unit(
    pairs: Seq<(FileId, FileId)>,
    from: FileId,
    files: Seq<FileId>,
    i: int,
)
    requires
        0 <= i < files.len(),
    ensures
        files[i] != from ==> merge::with_pairs(pairs, from, files).contains((from, files[i])),
        !pairs.contains((from, from)) ==> !merge::with_pairs(pairs, from, files).contains(
            (from, from),
        ),
    decreases files.len(),
{
    let less = files.drop_last();
    let before = merge::with_pairs(pairs, from, less);
    let all = merge::with_pairs(pairs, from, files);
    let own = (from, files[i]);
    if i < less.len() {
        law_files_are_brought_in_by_the_unit(pairs, from, less, i);
    } else if less.len() > 0 {
        law_files_are_brought_in_by_the_unit(pairs, from, less, 0);
    }
    if files[i] != from {
        if before.contains(own) {
            let j = choose|j: int| 0 <= j < before.len() && before[j] == own;
            assert(all[j] == own);
        } else {
            assert(all[before.len() as int] == own);
        }
    }
    if !pairs.contains((from, from)) && all.contains((from, from)) {
        let j = choose|j: int| 0 <= j < all.len() && all[j] == (from, from);
        if j < before.len() {
            assert(before[j] == (from, from));
            assert(before.contains((from, from)));
        }
    }
}

proof fn lemma_file_vars(vars: Seq<Variable>, scope: u32, from: int, k: int, i: int)
    requires
        0 <= from <= i < k <= vars.len(),
        vars[i].fn_id is None,
    ensures
        exists|j: int|
            0 <= j < unit::file_vars_of(vars, scope, from, k).len() && {
                let v = #[trigger] unit::file_vars_of(vars, scope, from, k)[j];
                v.id == vars[i].id && v.span == vars[i].span && v.name == vars[i].name && v.scope
                    == scope
            },
    decreases k,
{
    let before = unit::file_vars_of(vars, scope, from, k - 1);
    let all = unit::file_vars_of(vars, scope, from, k);
    if i < k - 1 {
        lemma_file_vars(vars, scope, from, k - 1, i);
        let j = choose|j: int|
            0 <= j < before.len() && {
                let v = #[trigger] before[j];
                v.id == vars[i].id && v.span == vars[i].span && v.name == vars[i].name && v.scope
                    == scope
            };
        assert(all[j] == before[j]);
    } else {
        assert(all[before.len() as int].id == vars[i].id);
    }
}

/// Every variable outside of a function that the unit added can be found again by its
/// configurations.
pub proof fn law_file_variables_are_noted(vars: Seq<Variable>, scope: u32, from: int, i: int)
    requires
        0 <= from <= i < vars.len(),
        vars[i].fn_id is None,
    ensures
        exists|j: int|
            0 <= j < unit::file_vars_of(vars, scope, from, vars.len() as int).len() && {
                let v = #[trigger] unit::file_vars_of(vars, scope, from, vars.len() as int)[j];
                v.id == vars[i].id && v.span == vars[i].span && v.name == vars[i].name && v.scope
                    == scope
            },
{
    lemma_file_vars(vars, scope, from, vars.len() as int, i);
}

/// How far indexing may run ahead: two units for each worker, within the bounds.
pub proof fn law_the_window_grows_with_the_workers(jobs: nat)
    ensures
        window::INDEX_WINDOW_MIN <= window::window_of(jobs) <= window::INDEX_WINDOW_MAX,
        jobs > 0 && window::INDEX_WINDOW_MIN <= jobs * window::INDEX_WINDOW_PER_WORKER
            <= window::INDEX_WINDOW_MAX ==> window::window_of(jobs) == jobs
            * window::INDEX_WINDOW_PER_WORKER,
        jobs * window::INDEX_WINDOW_PER_WORKER > window::INDEX_WINDOW_MAX ==> window::window_of(
            jobs,
        ) == window::INDEX_WINDOW_MAX,
        window::window_of(0) == window::window_of(1),
{
}

/// A worker takes the next unit, stops where none is left or all was called off, and waits
/// where the window is full.
pub proof fn law_workers_take_the_next_unit(w: Window)
    ensures
        w.cancelled || w.next >= w.total ==> w.spec_take() == Take::Stop,
        !w.cancelled && w.next < w.total && w.next >= w.merged + w.size ==> w.spec_take()
            == Take::Wait,
        !w.cancelled && w.next < w.total && w.next < w.merged + w.size ==> w.spec_take() == (
        Take::Index { unit: w.next }),
{
}

/// A unit of a dependency adds neither calls nor constraints nor returns.
pub proof fn law_dependencies_add_no_code(
    after: Program,
    before: Program,
    u: UnitIndex,
    mode: MergeMode,
    map: FileMap,
    type_map: Vec<TypeId>,
    fns: FnMerge,
    scope: u32,
)
    requires
        after.is_finished(&before, u, mode, map, type_map, fns, scope),
        merge_vars::is_dep(before.files@, map.primary),
    ensures
        after.calls == before.calls && after.flow == before.flow && after.returns
            == before.returns,
        after.files == before.files && after.diagnostics == before.diagnostics,
{
}

/// A function is entered as it is, with the program's number, place and types; one of a
/// dependency without its body.
pub proof fn law_functions_are_entered_as_they_are(
    f: FnView,
    id: FnId,
    map: FileMap,
    type_map: Seq<TypeId>,
)
    ensures
        ({
            let own = merge_fns::entry_of(f, id, map, type_map, false);
            &&& own.id == id && own.name == f.name && own.params == f.params && own.locals
                == f.locals && own.traits == f.traits && own.end_line == f.end_line
            &&& own.span == map.spec_span(f.span) && own.file == map.spec_of(f.span.file)
                && own.tu == Some(map.primary)
        }),
        ({
            let own = merge_fns::entry_of(f, id, map, type_map, true);
            &&& own.id == id && own.name == f.name && own.params == f.params
            &&& own.locals.len() == 0 && !own.traits.is_defined && own.end_line == f.span.line
            &&& own.traits.is_cpp == f.traits.is_cpp && own.traits.linkage == f.traits.linkage
        }),
{
}

proof fn lemma_arms(
    bases: Seq<BaseDef>,
    fns: Seq<FnView>,
    vars: Seq<Variable>,
    types: Map<u32, u32>,
    agree: Seq<(TypeId, TypeId)>,
    file: FileId,
    f: FnView,
    k: int,
    i: int,
    base: FnView,
)
    requires
        0 <= i < k <= bases.len(),
        bases[i].file == file,
        bases[i].name@ == f.name,
        program::fn_by_id(fns, bases[i].id) == Some(base),
        merge_fns::is_other_arm(vars, types, agree, base, f),
    ensures
        merge_fns::arms(bases, fns, vars, types, agree, file, f, k).contains(bases[i].id),
    decreases k,
{
    let before = merge_fns::arms(bases, fns, vars, types, agree, file, f, k - 1);
    let all = merge_fns::arms(bases, fns, vars, types, agree, file, f, k);
    if i < k - 1 {
        lemma_arms(bases, fns, vars, types, agree, file, f, k - 1, i, base);
        let j = choose|j: int| 0 <= j < before.len() && before[j] == bases[i].id;
        assert(all[j] == bases[i].id);
    } else {
        assert(all[before.len() as int] == bases[i].id);
    }
}

/// A definition of another configuration, of the same file and name, is an arm of the
/// function where their parameters agree.
pub proof fn law_definitions_of_configurations_are_arms(
    bases: Seq<BaseDef>,
    fns: Seq<FnView>,
    vars: Seq<Variable>,
    types: Map<u32, u32>,
    agree: Seq<(TypeId, TypeId)>,
    f: FnView,
    i: int,
    base: FnView,
)
    requires
        0 <= i < bases.len(),
        bases[i].name@ == f.name,
        program::fn_by_id(fns, bases[i].id) == Some(base),
        !f.traits.is_cpp || !base.traits.is_cpp,
    ensures
        merge_fns::arms(
            bases,
            fns,
            vars,
            types,
            agree,
            bases[i].file,
            f,
            bases.len() as int,
        ).contains(bases[i].id),
{
    lemma_arms(bases, fns, vars, types, agree, bases[i].file, f, bases.len() as int, i, base);
}

proof fn lemma_arm_origin(
    bases: Seq<BaseDef>,
    fns: Seq<FnView>,
    vars: Seq<Variable>,
    types: Map<u32, u32>,
    agree: Seq<(TypeId, TypeId)>,
    file: FileId,
    f: FnView,
    k: int,
    j: int,
) -> (i: int)
    requires
        0 <= k <= bases.len(),
        0 <= j < merge_fns::arms(bases, fns, vars, types, agree, file, f, k).len(),
    ensures
        0 <= i < k,
        bases[i].file == file,
        bases[i].name@ == f.name,
        bases[i].id == merge_fns::arms(bases, fns, vars, types, agree, file, f, k)[j],
    decreases k,
{
    if j < merge_fns::arms(bases, fns, vars, types, agree, file, f, k - 1).len() {
        lemma_arm_origin(bases, fns, vars, types, agree, file, f, k - 1, j)
    } else {
        k - 1
    }
}

/// An arm of a function has its file and its name.
pub proof fn law_arms_have_the_functions_name(
    bases: Seq<BaseDef>,
    fns: Seq<FnView>,
    vars: Seq<Variable>,
    types: Map<u32, u32>,
    agree: Seq<(TypeId, TypeId)>,
    file: FileId,
    f: FnView,
    j: int,
)
    requires
        0 <= j < merge_fns::arms(
            bases,
            fns,
            vars,
            types,
            agree,
            file,
            f,
            bases.len() as int,
        ).len(),
    ensures
        exists|i: int|
            0 <= i < bases.len() && (#[trigger] bases[i]).file == file && bases[i].name@ == f.name
                && bases[i].id == merge_fns::arms(
                bases,
                fns,
                vars,
                types,
                agree,
                file,
                f,
                bases.len() as int,
            )[j],
{
    let i = lemma_arm_origin(bases, fns, vars, types, agree, file, f, bases.len() as int, j);
    assert(bases[i].file == file);
}

/// A unit that shares a body is one of its users from then on, and no other changes.
pub proof fn law_sharing_units_are_noted(
    users: Seq<(FnId, FileId)>,
    id: FnId,
    u: FileId,
    other: (FnId, FileId),
)
    ensures
        merge_fns::with_user(users, id, u).contains((id, u)),
        other != (id, u) ==> merge_fns::with_user(users, id, u).contains(other)
            == users.contains(other),
{
    let all = merge_fns::with_user(users, id, u);
    if !users.contains((id, u)) {
        assert(all[users.len() as int] == (id, u));
        if users.contains(other) {
            let j = choose|j: int| 0 <= j < users.len() && users[j] == other;
            assert(all[j] == other);
        }
        if all.contains(other) && other != (id, u) {
            let j = choose|j: int| 0 <= j < all.len() && all[j] == other;
            assert(users[j] == other);
        }
    }
}

proof fn lemma_temps_at(v: Seq<(TempPlace, VarId)>, place: TempPlace, k: int, i: int)
    requires
        0 <= i < k <= v.len(),
        v[i].0 == place,
    ensures
        merge_vars::temps_at(v, place, k).contains(v[i].1),
    decreases k,
{
    let before = merge_vars::temps_at(v, place, k - 1);
    let all = merge_vars::temps_at(v, place, k);
    if i < k - 1 {
        lemma_temps_at(v, place, k - 1, i);
        let j = choose|j: int| 0 <= j < before.len() && before[j] == v[i].1;
        assert(all[j] == v[i].1);
    } else {
        assert(all[before.len() as int] == v[i].1);
    }
}

/// Every temporary of a place is found there.
pub proof fn law_temporaries_are_found_at_their_place(v: Seq<(TempPlace, VarId)>, i: int)
    requires
        0 <= i < v.len(),
    ensures
        merge_vars::temps_at(v, v[i].0, v.len() as int).contains(v[i].1),
{
    lemma_temps_at(v, v[i].0, v.len() as int, i);
}

/// A temporary that is taken, found or new, counts as given out to its body.
pub proof fn law_temporaries_are_given_out_once(
    s: VarTablesView,
    c: VarContext<'_>,
    var: Variable,
    place: TempPlace,
)
    requires
        merge_vars::temp_place(c, var) == Some(place),
        merge_vars::var_route(s, c, var) is IsTemp || merge_vars::var_route(s, c, var)
            == VarRoute::New,
    ensures
        ({
            let after = merge_vars::var_step(s, c, var);
            merge_vars::given(after.given, var.fn_id, place, after.given.len() as int)
                == merge_vars::given(s.given, var.fn_id, place, s.given.len() as int) + 1
        }),
{
    let after = merge_vars::var_step(s, c, var);
    assert(after.given.len() == s.given.len() + 1);
    lemma_given(s.given, after.given, var.fn_id, place, s.given.len() as int);
}

proof fn lemma_given(
    a: Seq<(Option<FnId>, TempPlace)>,
    b: Seq<(Option<FnId>, TempPlace)>,
    body: Option<FnId>,
    place: TempPlace,
    k: int,
)
    requires
        0 <= k <= a.len(),
        a.len() <= b.len(),
        forall|i: int| 0 <= i < a.len() ==> #[trigger] a[i] == b[i],
    ensures
        merge_vars::given(a, body, place, k) == merge_vars::given(b, body, place, k),
    decreases k,
{
    if k > 0 {
        lemma_given(a, b, body, place, k - 1);
        assert(a[k - 1] == b[k - 1]);
    }
}

/// A constraint names an internal function where the function that it is of is one of the
/// program's internal functions; one of no function names none.
pub proof fn law_constraints_name_internal_functions(c: FlowContext<'_>, f: FlowView, own: FnId)
    ensures
        remap::fn_of(f) is None ==> !merge_flow::names_internal(c, f),
        remap::fn_of(f) == Some(own) && !c.fn_map@.dom().contains(own.0)
            ==> !merge_flow::names_internal(c, f),
        remap::fn_of(f) == Some(own) && c.fn_map@.dom().contains(own.0)
            ==> merge_flow::names_internal(c, f) == program::is_internal_fn(
            program::fn_views(c.functions@),
            FnId(c.fn_map@[own.0]),
        ),
{
}

} // verus!
