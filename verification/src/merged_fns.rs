//! What merging takes over of a unit's functions, what stands for those that no unit
//! declares, and which headers are read.

use crate::externs;
use crate::externs::{Entered, Missing};
use crate::ir::{FnId, Linkage, Span, TypeId, VarId};
use crate::merge::{FileMap, MergeMode};
use crate::merge_fns;
use crate::merge_fns::{FnContext, FnKey, FnKeys, FnMergeView, Placement, Registered};
use crate::merged_code;
use crate::methods;
use crate::parse::SourceLang;
use crate::plan;
use crate::plan::{HeaderFacts, HeaderRole};
use crate::program;
use crate::program::{FnView, RecordView, Variable};
use vstd::prelude::*;

verus! {

/// The program's function says of itself what the unit's does, but for its numbers, its
/// file and, in a dependency, its body.
pub open spec fn is_taken_over(
    g: FnView,
    f: FnView,
    map: FileMap,
    type_map: Seq<TypeId>,
    is_dep: bool,
) -> bool {
    &&& g.name == f.name
    &&& g.params == f.params
    &&& g.param_type_ids == f.param_type_ids
    &&& g.target == f.target
    &&& g.tu == Some(map.primary)
    &&& g.file == map.spec_of(f.span.file)
    &&& g.span.file == map.spec_of(f.span.file)
    &&& g.span.line == f.span.line
    &&& g.span.col == f.span.col
    &&& f.return_type.0 < type_map.len() ==> g.return_type == type_map[f.return_type.0 as int]
    &&& g.traits.linkage == f.traits.linkage
    &&& g.traits.is_weak == f.traits.is_weak
    &&& g.traits.is_cpp == f.traits.is_cpp
    &&& g.traits.is_virtual == f.traits.is_virtual
    &&& g.traits.is_final == f.traits.is_final
    &&& g.traits.variadic == f.traits.variadic
    &&& g.traits.explicit_arity == f.traits.explicit_arity
    &&& g.traits.default_args == f.traits.default_args
    &&& g.traits.owner_unresolved == f.traits.owner_unresolved
    &&& g.traits.defaulted_in_class == f.traits.defaulted_in_class
    &&& g.traits.declared_in_class == f.traits.declared_in_class
    &&& !is_dep ==> g.traits.is_defined == f.traits.is_defined && g.locals == f.locals
        && g.end_line == f.end_line
    &&& is_dep ==> !g.traits.is_defined && g.locals.len() == 0
}

/// A function that the program takes in is there as the unit has it; one of a dependency
/// is declared there.
pub proof fn law_functions_are_taken_over(
    f: FnView,
    id: FnId,
    map: FileMap,
    type_map: Seq<TypeId>,
    is_dep: bool,
)
    ensures
        is_taken_over(merge_fns::entry_of(f, id, map, type_map, is_dep), f, map, type_map, is_dep),
        merge_fns::entry_of(f, id, map, type_map, is_dep).id == id,
{
}

/// A function that the program holds is known there by its number; its body is left out,
/// or extends the program's where it is another arm of it.
pub proof fn law_settled_functions_become_the_programs(
    s: FnMergeView,
    fns: Seq<FnView>,
    vars: Seq<Variable>,
    unit_vars: Seq<Variable>,
    f: FnView,
    id: FnId,
    shared: bool,
)
    ensures
        ({
            let e = merge_fns::settled(s, fns, vars, unit_vars, f, Placement::Known { id });
            &&& merged_code::fn_becomes(e.fn_map, f.id, id)
            &&& e.dropped.contains(f.id.0)
            &&& e.remerged == s.remerged && e.var_map == s.var_map
        }),
        ({
            let e = merge_fns::settled(
                s,
                fns,
                vars,
                unit_vars,
                f,
                Placement::Extends { id, shared },
            );
            &&& merged_code::fn_becomes(e.fn_map, f.id, id)
            &&& e.dropped == s.dropped
            &&& e.remerged.contains(id.0)
            &&& shared ==> e.shares_headers
        }),
        ({
            let e = merge_fns::settled(s, fns, vars, unit_vars, f, Placement::Dropped);
            e.dropped.contains(f.id.0) && e.fn_map == s.fn_map
        }),
{
}

/// A function that is taken in has the number it is registered under.
pub proof fn law_entered_functions_have_their_number(
    s: FnMergeView,
    map: FileMap,
    f: FnView,
    text: Option<Seq<char>>,
    got: Registered,
)
    ensures
        ({
            let e = merge_fns::entered(s, map, f, text, got);
            &&& merged_code::fn_becomes(e.fn_map, f.id, got.id)
            &&& e.dropped == s.dropped && e.remerged == s.remerged && e.var_map == s.var_map
            &&& got.owns_params ==> e.adopted.contains(got.id.0)
            &&& forall|k: u32|
                k != f.id.0 && s.fn_map.dom().contains(k) ==> #[trigger] e.fn_map.dom().contains(
                    k,
                ) && e.fn_map[k] == s.fn_map[k]
        }),
{
}

proof fn lemma_param_name(vars: Seq<Variable>, id: VarId, k: int, i: int)
    requires
        0 <= i < k <= vars.len(),
        vars[i].storage == crate::ir::StorageClass::Param,
        vars[i].id == id,
        forall|j: int| i < j < k ==> !((#[trigger] vars[j]).id == id),
    ensures
        merge_fns::param_name(vars, id, k) == Some(vars[i].name@),
    decreases k,
{
    if i < k - 1 {
        assert(vars[k - 1].id != id);
        lemma_param_name(vars, id, k - 1, i);
    }
}

proof fn lemma_param_called(vars: Seq<Variable>, params: Seq<VarId>, name: Seq<char>, k: int)
    requires
        0 <= k <= params.len(),
    ensures
        match merge_fns::param_called(vars, params, name, k) {
            Some(p) => program::var_by_id(vars, p) matches Some(v) && v.name@ == name
                && params.contains(p),
            None => forall|i: int|
                0 <= i < k ==> !(program::var_by_id(vars, #[trigger] params[i]) matches Some(v)
                    && v.name@ == name),
        },
    decreases k,
{
    if k > 0 {
        lemma_param_called(vars, params, name, k - 1);
        if program::var_by_id(vars, params[k - 1]) matches Some(v) && v.name@ == name {
            assert(params[k - 1] == params[k - 1]);
        }
    }
}

/// The parameters of a body that extends the program's are its parameters of the same
/// name.
pub proof fn law_parameters_are_paired_by_name(
    map: Map<u32, u32>,
    unit_vars: Seq<Variable>,
    vars: Seq<Variable>,
    own: Seq<VarId>,
    merged: Seq<VarId>,
    i: int,
    name: Seq<char>,
)
    requires
        0 <= i < own.len(),
        own.no_duplicates(),
        merge_fns::param_name(unit_vars, own[i], unit_vars.len() as int) == Some(name),
        exists|j: int|
            0 <= j < merged.len() && (program::var_by_id(vars, #[trigger] merged[j]) matches Some(v)
                && v.name@ == name),
    ensures
        ({
            let e = merge_fns::paired(map, unit_vars, vars, own, merged, own.len() as int);
            &&& e.dom().contains(own[i].0)
            &&& program::var_by_id(vars, VarId(e[own[i].0])) matches Some(v) && v.name@ == name
            &&& merged.contains(VarId(e[own[i].0]))
        }),
{
    lemma_param_called(vars, merged, name, merged.len() as int);
    lemma_paired(map, unit_vars, vars, own, merged, own.len() as int, i, name);
}

proof fn lemma_paired(
    map: Map<u32, u32>,
    unit_vars: Seq<Variable>,
    vars: Seq<Variable>,
    own: Seq<VarId>,
    merged: Seq<VarId>,
    k: int,
    i: int,
    name: Seq<char>,
)
    requires
        0 <= k <= own.len(),
        0 <= i < own.len(),
        own.no_duplicates(),
        merge_fns::param_name(unit_vars, own[i], unit_vars.len() as int) == Some(name),
        merge_fns::param_called(vars, merged, name, merged.len() as int) is Some,
    ensures
        i < k ==> ({
            let e = merge_fns::paired(map, unit_vars, vars, own, merged, k);
            e.dom().contains(own[i].0) && VarId(e[own[i].0]) == merge_fns::param_called(
                vars,
                merged,
                name,
                merged.len() as int,
            )->0
        }),
    decreases k,
{
    if k > 0 {
        lemma_paired(map, unit_vars, vars, own, merged, k - 1, i, name);
        if i < k - 1 {
            assert(own[i] != own[k - 1]);
        }
    }
}

proof fn lemma_line_fn(v: Seq<FnKey>, k: int, i: int)
    requires
        0 <= i < k <= v.len(),
        forall|j: int|
            i < j < k ==> !((#[trigger] v[j]).file == v[i].file && v[j].name@ == v[i].name@
                && v[j].line == v[i].line),
    ensures
        merge_fns::line_fn(v, v[i].file, v[i].name@, v[i].line, k) == Some(v[i].id),
    decreases k,
{
    if i < k - 1 {
        assert(!(v[k - 1].file == v[i].file && v[k - 1].name@ == v[i].name@ && v[k - 1].line
            == v[i].line));
        lemma_line_fn(v, k - 1, i);
    }
}

proof fn lemma_no_line_fn(v: Seq<FnKey>, f: FnView, c: FnContext<'_>, k: int)
    requires
        0 <= k <= v.len(),
        forall|j: int|
            0 <= j < v.len() ==> !((#[trigger] v[j]).file == c.map.spec_of(f.span.file)
                && v[j].name@ == f.name && v[j].line == f.span.line),
    ensures
        merge_fns::line_fn(v, c.map.spec_of(f.span.file), f.name, f.span.line, k) is None,
    decreases k,
{
    if k > 0 {
        lemma_no_line_fn(v, f, c, k - 1);
    }
}

/// A function that stands where the program already has one is that one; one that stands
/// nowhere yet is new.
pub proof fn law_functions_are_told_by_their_place(
    keys: FnKeys,
    fns: Seq<FnView>,
    vars: Seq<Variable>,
    c: FnContext<'_>,
    f: FnView,
    i: int,
)
    requires
        !program::internal_cpp(f.traits),
        forall|k: int| 0 <= k < c.respelled@.len() ==> (#[trigger] c.respelled@[k]).0 != f.id,
        c.map.spec_of(f.span.file) == c.map.primary,
        c.mode != MergeMode::Variant,
    ensures
        0 <= i < keys.lines@.len() && keys.lines@[i].file == c.map.primary && keys.lines@[i].name@
            == f.name && keys.lines@[i].line == f.span.line && (forall|j: int|
            i < j < keys.lines@.len() ==> !((#[trigger] keys.lines@[j]).file == c.map.primary
                && keys.lines@[j].name@ == f.name && keys.lines@[j].line == f.span.line))
            ==> merge_fns::placement(keys, fns, vars, c, f, None) == (Placement::Known {
            id: keys.lines@[i].id,
        }),
        (forall|j: int|
            0 <= j < keys.lines@.len() ==> !((#[trigger] keys.lines@[j]).file == c.map.primary
                && keys.lines@[j].name@ == f.name && keys.lines@[j].line == f.span.line))
            ==> merge_fns::placement(keys, fns, vars, c, f, None) == Placement::New,
{
    let v = keys.lines@;
    if 0 <= i < v.len() && v[i].file == c.map.primary && v[i].name@ == f.name && v[i].line
        == f.span.line && (forall|j: int|
        i < j < v.len() ==> !((#[trigger] v[j]).file == c.map.primary && v[j].name@ == f.name
            && v[j].line == f.span.line)) {
        lemma_line_fn(v, v.len() as int, i);
    }
    if forall|j: int|
        0 <= j < v.len() ==> !((#[trigger] v[j]).file == c.map.primary && v[j].name@ == f.name
            && v[j].line == f.span.line) {
        lemma_no_line_fn(v, f, c, v.len() as int);
    }
}

/// A declaration that another spelling defines becomes that definition, where there is
/// just one; a definition of another name, of other arguments or with an open end is none.
pub proof fn law_respelled_declarations_find_their_definition(
    fns: Seq<FnView>,
    types: Map<u32, u32>,
    d: FnView,
    i: int,
)
    requires
        0 <= i < fns.len(),
        merge_fns::may_define(types, None, d, fns[i]),
        forall|j: int|
            0 <= j < fns.len() && j != i ==> !merge_fns::may_define(
                types,
                None,
                d,
                #[trigger] fns[j],
            ),
    ensures
        merge_fns::only_definition(fns, types, None, d) == Some(fns[i].id),
        fns[i].name == d.name,
        fns[i].traits.is_defined,
        fns[i].traits.linkage == Linkage::Internal,
        fns[i].traits.variadic == d.traits.variadic,
        merge_fns::arity(fns[i]) == merge_fns::arity(d),
{
    let p = |g: FnView| merge_fns::may_define(types, None, d, g);
    lemma_sole_filter(fns, p, i);
}

proof fn lemma_sole_filter(s: Seq<FnView>, p: spec_fn(FnView) -> bool, i: int)
    requires
        0 <= i < s.len(),
        p(s[i]),
        forall|j: int| 0 <= j < s.len() && j != i ==> !p(#[trigger] s[j]),
    ensures
        s.filter(p) == seq![s[i]],
    decreases s.len(),
{
    reveal(Seq::filter);
    if i == s.len() - 1 {
        lemma_empty_filter(s.drop_last(), p);
        assert(s.filter(p) =~= seq![s[i]]);
    } else {
        assert(!p(s[s.len() - 1]));
        assert(s.drop_last()[i] == s[i]);
        assert forall|j: int| 0 <= j < s.drop_last().len() && j != i implies !p(
            #[trigger] s.drop_last()[j],
        ) by {
            assert(!p(s[j]));
        }
        lemma_sole_filter(s.drop_last(), p, i);
    }
}

proof fn lemma_empty_filter(s: Seq<FnView>, p: spec_fn(FnView) -> bool)
    requires
        forall|j: int| 0 <= j < s.len() ==> !p(#[trigger] s[j]),
    ensures
        s.filter(p) == Seq::<FnView>::empty(),
    decreases s.len(),
{
    reveal(Seq::filter);
    if s.len() > 0 {
        assert forall|j: int| 0 <= j < s.drop_last().len() implies !p(
            #[trigger] s.drop_last()[j],
        ) by {
            assert(!p(s[j]));
        }
        lemma_empty_filter(s.drop_last(), p);
        assert(!p(s[s.len() - 1]));
    }
}

/// The function is a declaration that no unit makes, of the name.
pub open spec fn is_outside(f: FnView, name: Seq<char>) -> bool {
    &&& f.name == name
    &&& f.traits.linkage == Linkage::External
    &&& !f.traits.is_defined
    &&& f.params.len() == 0
    &&& f.locals.len() == 0
    &&& f.tu is None
}

/// The call names a function of the list that stands for its name.
pub open spec fn is_resolved(r: RecordView, fns: Seq<FnView>) -> bool {
    r.site.is_direct && r.site.callee_fn_id is Some && exists|j: int|
        0 <= j < fns.len() && #[trigger] is_outside(fns[j], r.site.callee_name) && fns[j].id
            == r.site.callee_fn_id->0
}

/// The call is what it was, or it is resolved.
pub open spec fn is_kept_or_resolved(r: RecordView, own: RecordView, fns: Seq<FnView>) -> bool {
    &&& r.site.callee_name == own.site.callee_name
    &&& r.site.caller == own.site.caller
    &&& r.site.args == own.site.args
    &&& r == own || is_resolved(r, fns)
}

proof fn lemma_entered(
    e: Entered,
    callees: Seq<Missing>,
    places: Seq<Option<Span>>,
    declared: Seq<Missing>,
    in_images: bool,
    unknown: TypeId,
    n: int,
    k: int,
    i: int,
)
    requires
        0 <= n <= callees.len(),
        places.len() == callees.len(),
        0 <= k < callees.len(),
        0 <= i < e.calls.len(),
        externs::is_open(e.calls[i], in_images),
        e.calls[i].site.callee_name == callees[k].name@,
        externs::image_of(e.fns, e.calls[i], in_images) == callees[k].image,
        places[k] is Some,
        !externs::lists_callee(declared, callees[k].name@, callees[k].image),
        forall|j: int| 0 <= j < e.fns.len() ==> (#[trigger] e.fns[j]).id.0 < e.next,
        e.next + callees.len() <= u32::MAX,
        in_images ==> program::fn_by_id(e.fns, e.calls[i].site.caller) is Some,
    ensures
        ({
            let a = externs::enter_callees(e, callees, places, declared, in_images, unknown, n);
            &&& e.fns.is_prefix_of(a.fns)
            &&& a.calls.len() == e.calls.len()
            &&& e.next <= a.next <= e.next + n
            &&& forall|j: int| 0 <= j < a.fns.len() ==> (#[trigger] a.fns[j]).id.0 < a.next
            &&& forall|j: int| e.fns.len() <= j < a.fns.len() ==> (#[trigger] a.fns[j]).id.0
                >= e.next
            &&& is_kept_or_resolved(a.calls[i], e.calls[i], a.fns)
            &&& k < n ==> is_resolved(a.calls[i], a.fns)
        }),
    decreases n,
{
    if n > 0 {
        lemma_entered(e, callees, places, declared, in_images, unknown, n - 1, k, i);
        let b = externs::enter_callees(e, callees, places, declared, in_images, unknown, n - 1);
        let a = externs::enter_callees(e, callees, places, declared, in_images, unknown, n);
        let callee = callees[n - 1];
        if places[n - 1] is Some && !externs::lists_callee(declared, callee.name@, callee.image) {
            let r = b.calls[i];
            let id = FnId(b.next);
            assert(a.calls[i] == externs::claimed(
                b.fns,
                r,
                in_images,
                callee.name@,
                callee.image,
                id,
            ));
            let at = b.fns.len() as int;
            assert(a.fns[at].id == id);
            assert(is_outside(a.fns[at], callee.name@));
            assert(e.fns =~= a.fns.take(e.fns.len() as int));
            if is_resolved(r, b.fns) {
                let j = choose|j: int|
                    0 <= j < b.fns.len() && #[trigger] is_outside(
                        b.fns[j],
                        r.site.callee_name,
                    ) && b.fns[j].id == r.site.callee_fn_id->0;
                assert(a.fns[j] == b.fns[j]);
                assert(is_outside(a.fns[j], r.site.callee_name));
                assert(a.calls[i] == r);
            } else {
                assert(r == e.calls[i]);
                if externs::claims(b.fns, r, in_images, callee.name@, callee.image) {
                    assert(is_outside(a.fns[at], a.calls[i].site.callee_name));
                    assert(is_resolved(a.calls[i], a.fns));
                } else {
                    assert(a.calls[i] == r);
                    if k == n - 1 {
                        lemma_same_image(e.fns, b.fns, r, in_images);
                    }
                }
            }
        } else {
            assert(a == b);
        }
    } else {
        assert(e.fns =~= e.fns.take(e.fns.len() as int));
    }
}

proof fn lemma_same_image(a: Seq<FnView>, b: Seq<FnView>, r: RecordView, in_images: bool)
    requires
        a.is_prefix_of(b),
    ensures
        program::fn_by_id(a, r.site.caller) is Some ==> externs::image_of(a, r, in_images)
            == externs::image_of(b, r, in_images),
        !in_images ==> externs::image_of(a, r, in_images) == externs::image_of(b, r, in_images),
{
    lemma_fn_at_prefix(a, b, r.site.caller, 0);
}

proof fn lemma_fn_at_prefix(a: Seq<FnView>, b: Seq<FnView>, id: FnId, k: int)
    requires
        a.is_prefix_of(b),
        0 <= k <= a.len(),
    ensures
        program::fn_at(a, id, k) is Some ==> program::fn_at(b, id, k) == program::fn_at(a, id, k),
        program::fn_at(a, id, k) matches Some(i) ==> k <= i < a.len() && a[i] == b[i],
    decreases a.len() - k,
{
    if k < a.len() {
        assert(a[k] == b[k]);
        lemma_fn_at_prefix(a, b, id, k + 1);
    }
}

/// A call of a name that no unit declares is resolved to a function that stands for the
/// name, and says otherwise what it said.
pub proof fn law_open_calls_are_resolved(
    e: Entered,
    callees: Seq<Missing>,
    places: Seq<Option<Span>>,
    declared: Seq<Missing>,
    in_images: bool,
    unknown: TypeId,
    k: int,
    i: int,
)
    requires
        places.len() == callees.len(),
        0 <= k < callees.len(),
        0 <= i < e.calls.len(),
        externs::is_open(e.calls[i], in_images),
        e.calls[i].site.callee_name == callees[k].name@,
        externs::image_of(e.fns, e.calls[i], in_images) == callees[k].image,
        places[k] is Some,
        !externs::lists_callee(declared, callees[k].name@, callees[k].image),
        forall|j: int| 0 <= j < e.fns.len() ==> (#[trigger] e.fns[j]).id.0 < e.next,
        e.next + callees.len() <= u32::MAX,
        in_images ==> program::fn_by_id(e.fns, e.calls[i].site.caller) is Some,
    ensures
        ({
            let a = externs::enter_callees(
                e,
                callees,
                places,
                declared,
                in_images,
                unknown,
                callees.len() as int,
            );
            &&& is_resolved(a.calls[i], a.fns)
            &&& is_kept_or_resolved(a.calls[i], e.calls[i], a.fns)
            &&& e.fns.is_prefix_of(a.fns)
        }),
{
    lemma_entered(
        e,
        callees,
        places,
        declared,
        in_images,
        unknown,
        callees.len() as int,
        k,
        i,
    );
}

/// Which calls wait for a function: those that name none, neither by a variable nor by a
/// number, under a name that can be one's; in images also those that are direct.
pub proof fn law_calls_wait_where_they_name_nothing(r: RecordView)
    ensures
        r.site.callee_var is Some || r.site.callee_fn_id is Some ==> !externs::is_open(r, true)
            && !externs::is_open(r, false),
        r.site.callee_var is None && r.site.callee_fn_id is None && methods::plain_ident(
            r.site.callee_name,
        ) ==> externs::is_open(r, true) && externs::is_open(r, false) == !r.site.is_direct,
{
}

/// What a header is read as: a forced language alone, else C++ where it is one or C++
/// units read it, and C where C units do; where nothing tells, what its name says.
pub proof fn law_headers_are_read_in_the_languages_of_their_units(
    is_cpp: bool,
    by_name: SourceLang,
    l: SourceLang,
)
    ensures
        forall|a: bool, b: bool, c: bool|
            #[trigger] plan::languages(Some(l), a, b, c, by_name) == seq![l],
        plan::languages(None, is_cpp, true, true, by_name) == seq![SourceLang::Cpp, SourceLang::C],
        plan::languages(None, is_cpp, true, false, by_name) == seq![SourceLang::Cpp],
        plan::languages(None, false, false, true, by_name) == seq![SourceLang::C],
        plan::languages(None, true, false, true, by_name) == seq![SourceLang::Cpp, SourceLang::C],
        plan::languages(None, false, false, false, by_name) == seq![by_name],
        plan::languages(None, true, false, false, by_name) == seq![SourceLang::Cpp],
        plan::language_of(Some(l), true, true, true, by_name) == l,
        plan::language_of(None, true, false, false, SourceLang::C) == SourceLang::Cpp,
        plan::language_of(None, false, false, true, SourceLang::C) == SourceLang::C,
        plan::language_of(None, false, true, true, SourceLang::C) == SourceLang::Cpp,
{
}

/// When a header is read: ahead of the units where one takes it in and not every unit
/// expanded it for itself, on its own where no unit reads it, and never where it is a
/// dependency's that no unit reads.
pub proof fn law_headers_are_read_where_they_are_needed(h: HeaderFacts)
    ensures
        h.inlined && !h.consumed ==> plan::role_of(h) == HeaderRole::Skipped,
        !(h.inlined && !h.consumed) && (h.reachable || h.included) ==> plan::role_of(h)
            == HeaderRole::Preamble,
        !(h.inlined && !h.consumed) && !h.reachable && !h.included && !h.is_dep ==> plan::role_of(h)
            == HeaderRole::Orphan,
        !(h.inlined && !h.consumed) && !h.reachable && !h.included && h.is_dep ==> plan::role_of(h)
            == HeaderRole::Unread,
{
}

/// The headers of a role are all that have it, in order.
pub proof fn law_headers_are_listed_by_their_role(
    all: Seq<HeaderFacts>,
    role: HeaderRole,
    k: int,
    i: int,
)
    requires
        0 <= k <= all.len() <= usize::MAX,
        0 <= i < all.len(),
    ensures
        plan::with_role(all, role, k).contains(i as usize) <==> i < k && plan::role_of(all[i])
            == role,
    decreases k,
{
    if k > 0 {
        law_headers_are_listed_by_their_role(all, role, k - 1, i);
        let before = plan::with_role(all, role, k - 1);
        let now = plan::with_role(all, role, k);
        if plan::role_of(all[k - 1]) == role {
            assert(now == before.push((k - 1) as usize));
            lemma_pushed(before, (k - 1) as usize, i as usize);
        }
    }
}

/// The files that are the program's own are all but those under a dependency's root.
pub proof fn law_own_files_are_not_dependencies(under: Seq<bool>, k: int, i: int)
    requires
        0 <= k <= under.len() <= usize::MAX,
        0 <= i < under.len(),
    ensures
        plan::own_files(under, k).contains(i as usize) <==> i < k && !under[i],
        plan::marked(under, k).contains(i as usize) <==> i < k && under[i],
    decreases k,
{
    if k > 0 {
        law_own_files_are_not_dependencies(under, k - 1, i);
        lemma_pushed(plan::own_files(under, k - 1), (k - 1) as usize, i as usize);
        lemma_pushed(plan::marked(under, k - 1), (k - 1) as usize, i as usize);
    }
}

proof fn lemma_pushed(s: Seq<usize>, x: usize, y: usize)
    ensures
        s.push(x).contains(y) <==> s.contains(y) || y == x,
{
    if s.contains(y) {
        let i = choose|i: int| 0 <= i < s.len() && s[i] == y;
        assert(s.push(x)[i] == y);
    }
    if y == x {
        assert(s.push(x)[s.len() as int] == y);
    }
}

} // verus!
