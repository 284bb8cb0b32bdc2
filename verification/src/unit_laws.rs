//! What the pieces of a unit amount to.

use crate::arrows;
use crate::declarations;
use crate::declarations::{DeclStep, Visible};
use crate::emit;
use crate::emit::StoreRest;
use crate::expr::FnNames;
use crate::fields;
use crate::fields::{FieldPath, Layouts, PathState};
use crate::hierarchy;
use crate::infer;
use crate::infer::Typing;
use crate::initializers;
use crate::initializers::FlowStep;
use crate::ir::{DescView, FieldId, FileId, FnId, Span, VarId};
use crate::merge::FileMap;
use crate::merge_fns;
use crate::merge_fns::FnKey;
use crate::methods::MethodView;
use crate::normalize;
use crate::program;
use crate::program::{FnView, Function, Variable};
use crate::receivers;
use crate::records;
use crate::reports;
use crate::reports::Finding;
use crate::results;
use crate::results::ShapeView;
use crate::spelling;
use crate::stores::FieldValue;
use crate::syntax::SyntaxTree;
use crate::text;
use crate::tree_laws;
use crate::unit;
use crate::unit::{Program, UnitIndex};
use crate::variables;
use crate::weak;
use vstd::prelude::*;

verus! {

proof fn lemma_kinds()
    ensures
        "field_designator"@.len() == 16,
        "subscript_designator"@.len() == 20,
        "="@.len() == 1,
        "assignment_expression"@.len() == 21,
        "initializer_list"@.len() == 16,
        "field_expression"@.len() == 16,
        "identifier"@.len() == 10,
        "pointer_expression"@.len() == 18,
        "function_declarator"@.len() == 19,
        "call_expression"@.len() == 15,
        "init_declarator"@.len() == 15,
        "field_designator"@[0] == 'f',
        "initializer_list"@[0] == 'i',
        "field_designator"@[6] == 'd',
        "field_expression"@[6] == 'e',
        "field_expression"@[0] == 'f',
        "call_expression"@[0] == 'c',
        "init_declarator"@[0] == 'i',
{
    reveal_strlit("field_designator");
    reveal_strlit("subscript_designator");
    reveal_strlit("=");
    reveal_strlit("assignment_expression");
    reveal_strlit("initializer_list");
    reveal_strlit("field_expression");
    reveal_strlit("identifier");
    reveal_strlit("pointer_expression");
    reveal_strlit("function_declarator");
    reveal_strlit("call_expression");
    reveal_strlit("init_declarator");
}

/// What says `weak` anywhere in a declaration but in its value makes what it declares
/// weak; in a list, the declarators of the others say nothing of it.
pub proof fn law_weak_declarations_say_so(
    t: SyntaxTree,
    source: Seq<char>,
    n: int,
    decl: usize,
    k: int,
)
    requires
        t.declaration_of(n, true) == Some(decl),
        0 <= k < t.children(decl as int).len(),
        t.rows@[t.children(decl as int)[k] as int].is_named,
        t.fielded(decl as int, "value"@) != Some(t.children(decl as int)[k]),
        weak::weak_under(t, source, t.children(decl as int)[k] as int),
        !t.fills(t.children(decl as int)[k] as int, "declarator"@) || weak::own_declarator_of(
            t,
            decl as int,
            n,
        ) is None || weak::own_declarator_of(t, decl as int, n) == Some(
            t.children(decl as int)[k],
        ),
    ensures
        weak::weakly_declared(t, source, n),
{
    let own = weak::own_declarator_of(t, decl as int, n);
    assert(weak::applies_to(t, decl as int, own, t.children(decl as int)[k]));
}

proof fn lemma_pragmas(lines: Seq<Seq<char>>, i: int, name: Seq<char>)
    requires
        0 <= i < lines.len(),
        weak::weak_pragma(lines[i]) == Some(name),
    ensures
        weak::weak_pragmas(lines).contains(name),
    decreases lines.len(),
{
    let before = weak::weak_pragmas(lines.drop_last());
    if i < lines.len() - 1 {
        lemma_pragmas(lines.drop_last(), i, name);
        let j = choose|j: int| 0 <= j < before.len() && before[j] == name;
        assert(weak::weak_pragmas(lines)[j] == name);
    } else {
        assert(weak::weak_pragmas(lines)[before.len() as int] == name);
    }
}

proof fn lemma_only_pragmas(lines: Seq<Seq<char>>, j: int) -> (i: int)
    requires
        0 <= j < weak::weak_pragmas(lines).len(),
    ensures
        0 <= i < lines.len(),
        weak::weak_pragma(lines[i]) == Some(weak::weak_pragmas(lines)[j]),
    decreases lines.len(),
{
    if j < weak::weak_pragmas(lines.drop_last()).len() {
        lemma_only_pragmas(lines.drop_last(), j)
    } else {
        lines.len() - 1
    }
}

/// Every pragma of the source names its symbol weak, and nothing else does.
pub proof fn law_pragmas_name_weak_symbols(source: Seq<char>, i: int, j: int, name: Seq<char>)
    ensures
        0 <= i < weak::lines_of(source).len() && weak::weak_pragma(weak::lines_of(source)[i])
            == Some(name) && text::contains(source, "pragma"@) ==> weak::weak_names_of(
            source,
            true,
        ).contains(name),
        0 <= j < weak::weak_names_of(source, true).len() ==> exists|m: int|
            0 <= m < weak::lines_of(source).len() && weak::weak_pragma(
                #[trigger] weak::lines_of(source)[m],
            ) == Some(weak::weak_names_of(source, true)[j]),
        weak::weak_names_of(source, false).len() == 0,
{
    let lines = weak::lines_of(source);
    if 0 <= i < lines.len() && weak::weak_pragma(lines[i]) == Some(name) {
        lemma_pragmas(lines, i, name);
    }
    if 0 <= j < weak::weak_names_of(source, true).len() {
        let m = lemma_only_pragmas(lines, j);
        assert(weak::weak_pragma(weak::lines_of(source)[m]) == Some(
            weak::weak_names_of(source, true)[j],
        ));
    }
}

/// A finding is reported as it is, against the unit where it names no file.
pub proof fn law_findings_are_forwarded(v: Seq<Finding>, unit_file: FileId, i: int)
    requires
        0 <= i < v.len(),
    ensures
        reports::all_forwarded(v, unit_file).len() == v.len(),
        ({
            let r = reports::all_forwarded(v, unit_file)[i];
            &&& r.severity == v[i].severity && r.line == v[i].line && r.message == v[i].message@
            &&& r.stage == "preprocess"@
            &&& v[i].file is Some ==> r.file == v[i].file
            &&& v[i].file is None ==> r.file == Some(unit_file)
        }),
{
}

/// A place is the one it is mapped to, else the row and the column, counted from one.
pub proof fn law_places_count_from_one(span: Span, file: FileId, row: nat, col: nat)
    requires
        row < u32::MAX,
        col < u32::MAX,
    ensures
        reports::span_at(Some(span), file, row, col) == span,
        reports::span_at(None, file, row, col).file == file,
        reports::span_at(None, file, row, col).line == row + 1,
        reports::span_at(None, file, row, col).col == col + 1,
{
}

proof fn lemma_ranges<T>(
    owners: Seq<(usize, T)>,
    ranges: Seq<(usize, usize)>,
    k: int,
    i: int,
)
    requires
        0 <= i < k <= owners.len(),
        owners[i].0 < ranges.len(),
        ranges[owners[i].0 as int].0 < ranges[owners[i].0 as int].1,
    ensures
        records::ranges_owned(owners, ranges, k).contains(
            (owners[i].1, ranges[owners[i].0 as int].0, ranges[owners[i].0 as int].1),
        ),
    decreases k,
{
    let before = records::ranges_owned(owners, ranges, k - 1);
    let all = records::ranges_owned(owners, ranges, k);
    let own = (owners[i].1, ranges[owners[i].0 as int].0, ranges[owners[i].0 as int].1);
    if i < k - 1 {
        lemma_ranges(owners, ranges, k - 1, i);
        let j = choose|j: int| 0 <= j < before.len() && before[j] == own;
        assert(all[j] == own);
    } else {
        assert(all[before.len() as int] == own);
    }
}

/// Every range that holds something belongs to its owner.
pub proof fn law_ranges_have_their_owner<T>(
    owners: Seq<(usize, T)>,
    ranges: Seq<(usize, usize)>,
    i: int,
)
    requires
        0 <= i < owners.len(),
        owners[i].0 < ranges.len(),
        ranges[owners[i].0 as int].0 < ranges[owners[i].0 as int].1,
    ensures
        records::ranges_owned(owners, ranges, owners.len() as int).contains(
            (owners[i].1, ranges[owners[i].0 as int].0, ranges[owners[i].0 as int].1),
        ),
{
    lemma_ranges(owners, ranges, owners.len() as int, i);
}

proof fn lemma_owned(vars: Seq<Variable>, from: FnId, start: int, k: int, i: int)
    requires
        0 <= start <= i < k <= vars.len(),
        vars[i].fn_id == Some(from),
    ensures
        variables::owned_upto(vars, from, start, k).contains(vars[i].id),
    decreases k,
{
    let before = variables::owned_upto(vars, from, start, k - 1);
    let all = variables::owned_upto(vars, from, start, k);
    if i < k - 1 {
        lemma_owned(vars, from, start, k - 1, i);
        let j = choose|j: int| 0 <= j < before.len() && before[j] == vars[i].id;
        assert(all[j] == vars[i].id);
    } else {
        assert(all[before.len() as int] == vars[i].id);
    }
}

proof fn lemma_only_owned(vars: Seq<Variable>, from: FnId, start: int, k: int, j: int) -> (i: int)
    requires
        0 <= start <= k <= vars.len(),
        0 <= j < variables::owned_upto(vars, from, start, k).len(),
    ensures
        start <= i < k,
        vars[i].fn_id == Some(from),
        vars[i].id == variables::owned_upto(vars, from, start, k)[j],
    decreases k,
{
    if j < variables::owned_upto(vars, from, start, k - 1).len() {
        lemma_only_owned(vars, from, start, k - 1, j)
    } else {
        k - 1
    }
}

/// The variables that a function owns are those declared in it, and no others.
pub proof fn law_functions_own_their_variables(
    vars: Seq<Variable>,
    from: FnId,
    start: int,
    i: int,
    j: int,
)
    requires
        0 <= start <= vars.len(),
    ensures
        start <= i < vars.len() && vars[i].fn_id == Some(from) ==> variables::owned_upto(
            vars,
            from,
            start,
            vars.len() as int,
        ).contains(vars[i].id),
        0 <= j < variables::owned_upto(vars, from, start, vars.len() as int).len() ==> exists|
            m: int,
        |
            start <= m < vars.len() && (#[trigger] vars[m]).fn_id == Some(from) && vars[m].id
                == variables::owned_upto(vars, from, start, vars.len() as int)[j],
{
    if start <= i < vars.len() && vars[i].fn_id == Some(from) {
        lemma_owned(vars, from, start, vars.len() as int, i);
    }
    if 0 <= j < variables::owned_upto(vars, from, start, vars.len() as int).len() {
        let m = lemma_only_owned(vars, from, start, vars.len() as int, j);
        assert(vars[m].fn_id == Some(from));
    }
}

proof fn lemma_definitions(
    fs: Seq<Function>,
    map: FileMap,
    lines: Seq<FnKey>,
    fns: Seq<FnView>,
    k: int,
    i: int,
    id: FnId,
)
    requires
        0 <= i < k <= fs.len(),
        fs[i].traits.is_defined,
        merge_fns::line_fn(
            lines,
            map.spec_of(fs[i].span.file),
            fs[i].name@,
            fs[i].span.line,
            lines.len() as int,
        ) == Some(id),
        program::fn_by_id(fns, id) matches Some(own) && own.traits.is_defined,
    ensures
        unit::definitions_of(fs, map, lines, fns, k).contains(
            (map.spec_of(fs[i].span.file), fs[i].name@, id),
        ),
    decreases k,
{
    let before = unit::definitions_of(fs, map, lines, fns, k - 1);
    let all = unit::definitions_of(fs, map, lines, fns, k);
    let own = (map.spec_of(fs[i].span.file), fs[i].name@, id);
    if i < k - 1 {
        lemma_definitions(fs, map, lines, fns, k - 1, i, id);
        let j = choose|j: int| 0 <= j < before.len() && before[j] == own;
        assert(all[j] == own);
    } else {
        assert(all[before.len() as int] == own);
    }
}

/// Every function that a unit defines is a definition that its other configurations are
/// held against: by its file and its name.
pub proof fn law_definitions_are_noted(
    fs: Seq<Function>,
    map: FileMap,
    lines: Seq<FnKey>,
    fns: Seq<FnView>,
    i: int,
    id: FnId,
)
    requires
        0 <= i < fs.len(),
        fs[i].traits.is_defined,
        merge_fns::line_fn(
            lines,
            map.spec_of(fs[i].span.file),
            fs[i].name@,
            fs[i].span.line,
            lines.len() as int,
        ) == Some(id),
        program::fn_by_id(fns, id) matches Some(own) && own.traits.is_defined,
    ensures
        unit::definitions_of(fs, map, lines, fns, fs.len() as int).contains(
            (map.spec_of(fs[i].span.file), fs[i].name@, id),
        ),
{
    lemma_definitions(fs, map, lines, fns, fs.len() as int, i, id);
}

/// A finished configuration is counted, and changes nothing but what definitions are known.
pub proof fn law_finished_configurations_are_counted(
    after: Program,
    before: Program,
    u: UnitIndex,
    map: FileMap,
)
    requires
        after.has_variant_ended(&before, u, map),
        before.variants_merged < usize::MAX,
    ensures
        after.variants_merged == before.variants_merged + 1,
        after.calls == before.calls && after.flow == before.flow && after.symbols
            == before.symbols && after.files == before.files && after.diagnostics
            == before.diagnostics,
{
}

/// Beginning the configurations of a unit sets its layouts to be joined, and lets the
/// constraints that the unit added count as those of its configurations.
pub proof fn law_configurations_begin_with_the_units_constraints(
    after: Program,
    before: Program,
    base: UnitIndex,
    map: FileMap,
    flow_start: int,
    var_start: int,
    i: int,
)
    requires
        after.has_variants_begun(&before, base, map, flow_start, var_start),
        0 <= flow_start <= i < before.flow@.flow.len(),
    ensures
        after.layouts_unioned,
        after.flow@.flow == before.flow@.flow,
        after.flow@.variant_flow.contains(before.flow@.flow[i]),
        after.flow@.variant_flow.len() == before.flow@.flow.len() - flow_start,
        after.sources@ == seq![base.own],
{
    assert(after.flow@.variant_flow[i - flow_start] == before.flow@.flow[i]);
}

/// One step along a path: the member's field is added behind those before; an overloaded
/// arrow starts the path anew at what it leads to.
pub proof fn law_paths_grow_by_the_member(
    ty: Typing,
    lay: Layouts,
    s: PathState,
    name: Seq<char>,
    arrow: bool,
    k: int,
    own: Seq<char>,
    id: FieldId,
    d: DescView,
)
    ensures
        (!arrow || s.raw || fields::pointee_of(ty, s.desc) is None) && lay.member(s.desc, name)
            == Some((id, d)) ==> (fields::followed(ty, lay, s, name, arrow, k) matches Some(next)
            && next.ids == s.ids.push(id) && next.types == s.types.push(d) && next.crossed
            == s.crossed && next.start == s.start && next.desc == fields::unpointed(d)
            && next.raw == (d is Ptr)),
        arrow && !s.raw && fields::pointee_of(ty, s.desc) == Some(own) && lay.member(
            DescView::Struct { name: own, fields: Seq::empty() },
            name,
        ) == Some((id, d)) ==> (fields::followed(ty, lay, s, name, arrow, k) matches Some(next)
            && next.ids == seq![id] && next.types == seq![d] && next.crossed == Some(own)
            && next.start == k),
        (!arrow || s.raw) && lay.member(s.desc, name) is None ==> fields::followed(
            ty,
            lay,
            s,
            name,
            arrow,
            k,
        ) is None,
{
    assert(Seq::<FieldId>::empty().push(id) =~= seq![id]);
    assert(Seq::<DescView>::empty().push(d) =~= seq![d]);
}

/// A pointer is raw where it is one; a reference to something is not, but one to a pointer
/// is.
pub proof fn law_references_are_no_raw_pointers(
    ty: Typing,
    t: SyntaxTree,
    source: Seq<char>,
    base: int,
    d: DescView,
)
    requires
        t.rows@[base].kind@ == "identifier"@,
    ensures
        fields::raw_base(ty, t, source, base, DescView::Ptr(Box::new(d)), false),
        fields::raw_base(ty, t, source, base, DescView::Ptr(Box::new(d)), true) == (d is Ptr),
        !(d is Ptr) ==> !fields::raw_base(ty, t, source, base, d, false),
{
}

/// What is left to do for a store: nothing where the path names no field, else what the
/// value needs.
pub proof fn law_stores_wait_for_their_value(path: FieldPath, value: FieldValue, next: int)
    ensures
        path.ids@.len() == 0 ==> emit::store_rest(path, value, next) == StoreRest::Nothing,
        path.ids@.len() > 0 ==> {
            let dst = emit::path_addressed(path, next).1;
            &&& value is Pending ==> emit::store_rest(path, value, next) == StoreRest::Waiting
            &&& value is Lambda ==> emit::store_rest(path, value, next) == (StoreRest::Lambda {
                dst,
            })
            &&& value is Var || value is Fn || value is Address ==> emit::store_rest(
                path,
                value,
                next,
            ) == StoreRest::Stored
            &&& value is Call ==> (emit::store_rest(path, value, next) matches StoreRest::Call {
                dst: d,
                temp,
            } && d == dst && temp == VarId(
                (next + emit::path_addressed(path, next).0.temps.len()) as u32,
            ))
            &&& value is Flow ==> (emit::store_rest(path, value, next) matches StoreRest::Value {
                dst: d,
                temp,
            } && d == dst && temp == VarId(
                (next + emit::path_addressed(path, next).0.temps.len()) as u32,
            ))
        },
{
}

proof fn lemma_designated(t: SyntaxTree, source: Seq<char>, n: int, k: int, i: int)
    requires
        0 <= i < k <= t.children(n).len(),
        is_designated(t, t.children(n)[i] as int),
        forall|j: int| 0 <= j < i ==> !is_designated(t, #[trigger] t.children(n)[j] as int),
    ensures
        initializers::designated_upto(t, source, n, k).1 == Some(t.children(n)[i]),
    decreases k,
{
    if i < k - 1 {
        lemma_designated(t, source, n, k - 1, i);
    } else {
        lemma_undesignated(t, source, n, k - 1);
    }
}

proof fn lemma_undesignated(t: SyntaxTree, source: Seq<char>, n: int, k: int)
    requires
        0 <= k <= t.children(n).len(),
        forall|j: int| 0 <= j < k ==> !is_designated(t, #[trigger] t.children(n)[j] as int),
    ensures
        initializers::designated_upto(t, source, n, k).1 is None,
    decreases k,
{
    if k > 0 {
        assert(!is_designated(t, t.children(n)[k - 1] as int));
        lemma_undesignated(t, source, n, k - 1);
    }
}

/// A value, not part of what names the field that it is for.
pub open spec fn is_designated(t: SyntaxTree, m: int) -> bool {
    t.rows@[m].is_named && t.rows@[m].kind@ != "field_designator"@ && t.rows@[m].kind@
        != "subscript_designator"@ && t.rows@[m].kind@ != "="@
}

/// A designated initializer is for the field that it names with the value behind it.
pub proof fn law_designators_take_the_value_behind_them(
    t: SyntaxTree,
    source: Seq<char>,
    n: int,
    i: int,
)
    requires
        0 <= i < t.children(n).len(),
        is_designated(t, t.children(n)[i] as int),
        forall|j: int| 0 <= j < i ==> !is_designated(t, #[trigger] t.children(n)[j] as int),
    ensures
        initializers::designated_upto(t, source, n, t.children(n).len() as int).1 == Some(
            t.children(n)[i],
        ),
{
    lemma_kinds();
    lemma_designated(t, source, n, t.children(n).len() as int, i);
}

proof fn lemma_designator_names(t: SyntaxTree, source: Seq<char>, n: int, k: int, i: int)
    requires
        0 <= i < k <= t.children(n).len(),
        t.rows@[t.children(n)[i] as int].kind@ == "field_identifier"@,
    ensures
        initializers::designator_names(t, source, n, k).contains(
            t.text(source, t.children(n)[i] as int),
        ),
    decreases k,
{
    let before = initializers::designator_names(t, source, n, k - 1);
    let all = initializers::designator_names(t, source, n, k);
    let own = t.text(source, t.children(n)[i] as int);
    if i < k - 1 {
        lemma_designator_names(t, source, n, k - 1, i);
        let j = choose|j: int| 0 <= j < before.len() && before[j] == own;
        assert(all[j] == own);
    } else {
        assert(all[before.len() as int] == own);
    }
}

proof fn lemma_designated_names(
    t: SyntaxTree,
    source: Seq<char>,
    n: int,
    k: int,
    i: int,
    name: Seq<char>,
)
    requires
        0 <= i < k <= t.children(n).len(),
        t.rows@[t.children(n)[i] as int].kind@ == "field_designator"@,
        initializers::designator_names(
            t,
            source,
            t.children(n)[i] as int,
            t.children(t.children(n)[i] as int).len() as int,
        ).contains(name),
    ensures
        initializers::designated_upto(t, source, n, k).0.contains(name),
    decreases k,
{
    let before = initializers::designated_upto(t, source, n, k - 1).0;
    let all = initializers::designated_upto(t, source, n, k).0;
    if i < k - 1 {
        lemma_designated_names(t, source, n, k - 1, i, name);
        let j = choose|j: int| 0 <= j < before.len() && before[j] == name;
        assert(all[j] == name);
    } else {
        let c = t.children(n)[i] as int;
        let own = initializers::designator_names(t, source, c, t.children(c).len() as int);
        let j = choose|j: int| 0 <= j < own.len() && own[j] == name;
        assert(all[before.len() + j] == name);
    }
}

/// Every field that a designator names is on the way to the value.
pub proof fn law_designators_name_their_fields(
    t: SyntaxTree,
    source: Seq<char>,
    n: int,
    i: int,
    j: int,
)
    requires
        0 <= i < t.children(n).len(),
        t.rows@[t.children(n)[i] as int].kind@ == "field_designator"@,
        0 <= j < t.children(t.children(n)[i] as int).len(),
        t.rows@[t.children(t.children(n)[i] as int)[j] as int].kind@ == "field_identifier"@,
    ensures
        initializers::designated_upto(t, source, n, t.children(n).len() as int).0.contains(
            t.text(source, t.children(t.children(n)[i] as int)[j] as int),
        ),
{
    let c = t.children(n)[i] as int;
    lemma_designator_names(t, source, c, t.children(c).len() as int, j);
    lemma_designated_names(
        t,
        source,
        n,
        t.children(n).len() as int,
        i,
        t.text(source, t.children(c)[j] as int),
    );
}

proof fn lemma_flows(t: SyntaxTree, source: Seq<char>, n: int, k: int, i: int, step: FlowStep)
    requires
        t.wf(),
        0 <= n < t.len(),
        0 <= k <= i < t.children(n).len(),
        initializers::flows_of(t, source, t.children(n)[i] as int, false).contains(step),
    ensures
        initializers::flows_from(t, source, n, k).contains(step),
    decreases i - k,
{
    let own = initializers::flows_of(t, source, t.children(n)[k] as int, false);
    let rest = initializers::flows_from(t, source, n, k + 1);
    let all = initializers::flows_from(t, source, n, k);
    if k < i {
        lemma_flows(t, source, n, k + 1, i, step);
        let j = choose|j: int| 0 <= j < rest.len() && rest[j] == step;
        assert(all[own.len() + j] == step);
    } else {
        let j = choose|j: int| 0 <= j < own.len() && own[j] == step;
        assert(all[j] == step);
    }
}

/// An assignment anywhere in an expression is one of its steps.
pub proof fn law_assignments_are_found_at_any_depth(
    t: SyntaxTree,
    source: Seq<char>,
    n: int,
    i: int,
    step: FlowStep,
)
    requires
        t.wf(),
        0 <= n < t.len(),
        t.rows@[n].kind@ != "assignment_expression"@,
        0 <= i < t.children(n).len(),
        initializers::flows_of(t, source, t.children(n)[i] as int, false).contains(step),
    ensures
        initializers::flows_of(t, source, n, false).contains(step),
{
    lemma_flows(t, source, n, 0, i, step);
}

/// An expression that gives a variable its value is that value; a list is a list of values.
pub proof fn law_values_flow_into_the_variable(t: SyntaxTree, source: Seq<char>, n: int)
    requires
        t.wf(),
        0 <= n < t.len(),
    ensures
        t.rows@[n].kind@ == "initializer_list"@ ==> initializers::flows_of(t, source, n, true)
            == seq![FlowStep::List(n as usize)],
        t.rows@[n].kind@ == "identifier"@ || t.rows@[n].kind@ == "call_expression"@
            ==> initializers::flows_of(t, source, n, true) == seq![FlowStep::Value(n as usize)],
{
    lemma_kinds();
}

proof fn lemma_steps(t: SyntaxTree, n: int, in_function: bool, k: int, i: int, step: DeclStep)
    requires
        0 <= i < k <= t.children(n).len(),
        declarations::step_of(t, t.children(n)[i], in_function) == Some(step),
    ensures
        declarations::steps_upto(t, n, in_function, k).contains(step),
    decreases k,
{
    let before = declarations::steps_upto(t, n, in_function, k - 1);
    let all = declarations::steps_upto(t, n, in_function, k);
    if i < k - 1 {
        lemma_steps(t, n, in_function, k - 1, i, step);
        let j = choose|j: int| 0 <= j < before.len() && before[j] == step;
        assert(all[j] == step);
    } else {
        assert(all[before.len() as int] == step);
    }
}

/// Every declarator of a declaration is declared: with its value where it has one.
pub proof fn law_every_declarator_is_declared(
    t: SyntaxTree,
    n: int,
    in_function: bool,
    i: int,
    d: usize,
    v: usize,
)
    requires
        0 <= i < t.children(n).len(),
    ensures
        t.rows@[t.children(n)[i] as int].kind@ == "init_declarator"@ && tree_laws::fills_field(
            t,
            t.children(n)[i] as int,
            "declarator"@,
            d,
        ) && tree_laws::fills_field(t, t.children(n)[i] as int, "value"@, v)
            ==> declarations::steps_upto(t, n, in_function, t.children(n).len() as int).contains(
            DeclStep::Initialized { owner: t.children(n)[i], decl: d, value: Some(v) },
        ),
        t.rows@[t.children(n)[i] as int].kind@ == "identifier"@ && !declarations::declares_unset(
            t,
            t.children(n)[i] as int,
        ) ==> declarations::steps_upto(t, n, in_function, t.children(n).len() as int).contains(
            DeclStep::Plain { name: t.children(n)[i] },
        ),
{
    lemma_kinds();
    let c = t.children(n)[i] as int;
    if tree_laws::fills_field(t, c, "declarator"@, d) && tree_laws::fills_field(
        t,
        c,
        "value"@,
        v,
    ) && t.rows@[c].kind@ == "init_declarator"@ {
        tree_laws::lemma_first_is_one(t, c, "declarator"@, d);
        tree_laws::lemma_first_is_one(t, c, "value"@, v);
        lemma_steps(
            t,
            n,
            in_function,
            t.children(n).len() as int,
            i,
            DeclStep::Initialized { owner: t.children(n)[i], decl: d, value: Some(v) },
        );
    }
    if t.rows@[c].kind@ == "identifier"@ && !declarations::declares_unset(t, c) {
        lemma_steps(
            t,
            n,
            in_function,
            t.children(n).len() as int,
            i,
            DeclStep::Plain { name: t.children(n)[i] },
        );
    }
}

proof fn lemma_values(v: Visible, t: SyntaxTree, source: Seq<char>, params: Seq<usize>, k: int, i: int)
    requires
        0 <= i < k <= params.len(),
    ensures
        declarations::value_of(v, t, source, params[i] as int) is None
            ==> declarations::values_upto(v, t, source, params, k) is None,
        declarations::values_upto(v, t, source, params, k) matches Some(all) ==> all.len() == k
            && Some(all[i]) == declarations::value_of(v, t, source, params[i] as int),
    decreases k,
{
    if i < k - 1 {
        lemma_values(v, t, source, params, k - 1, i);
    } else if k > 1 {
        lemma_values(v, t, source, params, k - 1, 0);
    }
}

/// What looks like a list of parameters is one of values only where each entry is one, and
/// then it passes each of them at its place.
pub proof fn law_values_are_passed_at_their_place(
    v: Visible,
    t: SyntaxTree,
    source: Seq<char>,
    params: Seq<usize>,
    i: int,
)
    requires
        0 <= i < params.len(),
    ensures
        declarations::value_of(v, t, source, params[i] as int) is None
            ==> declarations::values_upto(v, t, source, params, params.len() as int) is None,
        declarations::values_upto(v, t, source, params, params.len() as int) matches Some(all)
            ==> all.len() == params.len() && Some(all[i]) == declarations::value_of(
            v,
            t,
            source,
            params[i] as int,
        ),
{
    lemma_values(v, t, source, params, params.len() as int, i);
}

proof fn lemma_pair_value(t: SyntaxTree, n: int, k: int, i: int)
    requires
        0 <= i < k <= t.children(n).len(),
        t.rows@[t.children(n)[i] as int].is_named,
        t.rows@[t.children(n)[i] as int].kind@ != "field_designator"@,
        forall|j: int|
            i < j < k ==> !(t.rows@[(#[trigger] t.children(n)[j]) as int].is_named && t.rows@[
                t.children(n)[j] as int
            ].kind@ != "field_designator"@),
    ensures
        variables::pair_value_upto(t, n, k) == Some(t.children(n)[i]),
    decreases k,
{
    if i < k - 1 {
        let c = t.children(n)[k - 1] as int;
        assert(!(t.rows@[c].is_named && t.rows@[c].kind@ != "field_designator"@));
        lemma_pair_value(t, n, k - 1, i);
    }
}

/// The value of a pair is the last thing in it that is no designator.
pub proof fn law_the_value_of_a_pair_is_its_last_part(t: SyntaxTree, n: int, i: int)
    requires
        0 <= i < t.children(n).len(),
        t.rows@[t.children(n)[i] as int].is_named,
        t.rows@[t.children(n)[i] as int].kind@ != "field_designator"@,
        forall|j: int|
            i < j < t.children(n).len() ==> !(t.rows@[(#[trigger] t.children(
                n,
            )[j]) as int].is_named && t.rows@[t.children(n)[j] as int].kind@
                != "field_designator"@),
    ensures
        variables::pair_value(t, n) == Some(t.children(n)[i]),
{
    lemma_pair_value(t, n, t.children(n).len() as int, i);
}

/// A call of a factory yields a pointer to what its argument names; a call that names a
/// class yields an object of it.
pub proof fn law_constructing_calls_yield_their_class(
    ty: Typing,
    f: FnNames,
    t: SyntaxTree,
    source: Seq<char>,
    n: int,
    func: usize,
    wrapper: Seq<char>,
    class: Seq<char>,
    arg: Seq<char>,
)
    requires
        tree_laws::fills_field(t, n, "function"@, func),
    ensures
        ({
            let raw = normalize::spaced_text(t.text(source, func as int));
            let factory = receivers::factory_of(*ty.scope, normalize::without_arguments(raw));
            let shape = results::shape_of(ty, f, false, t, source, n);
            &&& factory == Some(wrapper) && spelling::arguments_of(raw) == seq![arg]
                && receivers::spec_held(*ty.scope, *ty.index, arg) == Some(class) ==> shape
                == ShapeView::Decided(
                Some(
                    DescView::Struct {
                        name: wrapper + "<"@ + class + ">"@,
                        fields: Seq::empty(),
                    },
                ),
            )
            &&& factory is None && (results::constructed(ty, t, source, func as int) matches Some(
                (_, cls),
            ) && cls == class) ==> shape == ShapeView::Decided(
                Some(DescView::Struct { name: class, fields: Seq::empty() }),
            )
        }),
{
    tree_laws::lemma_first_is_one(t, n, "function"@, func);
}

/// A call of a member is of those that the class of its object has, or has from the nearest
/// class it derives from.
pub proof fn law_member_calls_are_of_the_objects_class(
    ty: Typing,
    t: SyntaxTree,
    source: Seq<char>,
    n: int,
    func: int,
    recv: usize,
    f: usize,
    name: Seq<char>,
    fields: Seq<(Seq<char>, DescView)>,
)
    requires
        tree_laws::fills_field(t, func, "argument"@, recv),
        tree_laws::fills_field(t, func, "field"@, f),
        infer::receiver(ty, t, source, recv as int) == Some(DescView::Struct { name, fields }),
        !infer::by_arrow(t, func),
        results::weak_upgrade(
            *ty.index,
            DescView::Struct { name, fields },
            normalize::qualified_text(t.text(source, f as int)),
        ) is None,
    ensures
        results::member_shape(ty, false, t, source, n, func) == (ShapeView::Declared {
            members: hierarchy::first_members(
                *ty.index,
                hierarchy::ancestry(*ty.index, normalize::without_arguments(name)),
                MethodView::Named(
                    normalize::without_arguments(
                        normalize::qualified_text(t.text(source, f as int)),
                    ),
                ),
                0,
            ),
            receiver: Some(name),
        }),
{
    tree_laws::lemma_first_is_one(t, func, "argument"@, recv);
    tree_laws::lemma_first_is_one(t, func, "field"@, f);
    reveal_with_fuel(arrows::class_spelling, 2);
}

} // verus!
