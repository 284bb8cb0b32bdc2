//! Variables of a configuration that repeats the first one of its source: those
//! outside functions, and the locals and temporaries of the bodies it extends.

use crate::idmap;
use crate::ir::{FnId, Span, StorageClass, VarId};
use crate::merge::MergeMode;
use crate::merge_vars;
use crate::merge_vars::{FileVar, LocalAt, TempKind, TempPlace, VarContext, VarTablesView};
use crate::program;
use crate::program::{FnView, Variable};
use crate::unit;
use vstd::prelude::*;

verus! {

/// The variables of a unit: none is of an image, each has a number of its own and
/// belongs to a function that is merged, and no two that are found again by where
/// they stand are at one place under one name. Two functions do not become one.
pub open spec fn stand_apart(vars: Seq<Variable>, c: VarContext<'_>) -> bool {
    &&& forall|k: int| 0 <= k < vars.len() ==> (#[trigger] vars[k]).target is None
    &&& forall|k: int|
        0 <= k < vars.len() ==> ((#[trigger] vars[k]).fn_id matches Some(f) ==> c.dropped@.contains(
            f.0,
        ) || c.fn_map@.dom().contains(f.0))
    &&& forall|j: int, k: int|
        0 <= j < k < vars.len() ==> (#[trigger] vars[j]).id != (#[trigger] vars[k]).id
    &&& forall|j: int, k: int|
        0 <= j < k < vars.len() ==> !is_same_place(c, #[trigger] vars[j], #[trigger] vars[k])
    &&& forall|f: u32, g: u32|
        #![trigger c.fn_map@[f], c.fn_map@[g]]
        c.fn_map@.dom().contains(f) && c.fn_map@.dom().contains(g) && c.fn_map@[f] == c.fn_map@[g]
            ==> f == g
}

/// Both are found again by where they stand, and stand at one place under one name.
pub open spec fn is_same_place(c: VarContext<'_>, v: Variable, w: Variable) -> bool {
    &&& v.fn_id == w.fn_id
    &&& v.fn_id is Some ==> merge_vars::temp_kind(v.name@) is None
    &&& c.map.spec_span(v.span) == c.map.spec_span(w.span)
    &&& v.name@ == w.name@
}

/// The bodies that the unit's functions became have no locals yet, and the
/// program's functions and variables have numbers of their own.
pub open spec fn are_new_bodies(s: VarTablesView, c: VarContext<'_>) -> bool {
    &&& forall|p: int, q: int|
        0 <= p < q < s.functions.len() ==> (#[trigger] s.functions[p]).id != (
        #[trigger] s.functions[q]).id
    &&& forall|f: u32| #[trigger]
        c.fn_map@.dom().contains(f) ==> program::holds_fn(s.functions, FnId(c.fn_map@[f]))
    &&& forall|p: int, f: u32|
        0 <= p < s.functions.len() && #[trigger] c.fn_map@.dom().contains(f) && (
        #[trigger] s.functions[p]).id.0 == c.fn_map@[f] ==> s.functions[p].locals.len() == 0
    &&& forall|i: int| 0 <= i < s.variables.len() ==> (#[trigger] s.variables[i]).id.0 < s.next_var
}

/// The tables before the first variable of a unit that extends nothing.
pub open spec fn opened(s: VarTablesView) -> VarTablesView {
    VarTablesView {
        var_map: idmap::no_entries(),
        locals: seq![],
        temps: seq![],
        given: seq![],
        ..s
    }
}

/// The variable is not merged: its function is not, or its file contributes none.
#[verifier::opaque]
spec fn is_left_out(c: VarContext<'_>, v: Variable) -> bool {
    ||| v.fn_id matches Some(f) && c.dropped@.contains(f.0)
    ||| v.storage == StorageClass::Local && merge_vars::is_dep(
        c.files@,
        c.map.spec_span(v.span).file,
    )
}

/// How many of the first `k` variables are taken in.
spec fn taken(c: VarContext<'_>, vars: Seq<Variable>, k: int) -> nat
    decreases k,
{
    if k <= 0 {
        0
    } else if is_left_out(c, vars[k - 1]) {
        taken(c, vars, k - 1)
    } else {
        taken(c, vars, k - 1) + 1
    }
}

/// The number that the variable at `j` gets, where the first one gets `next`.
spec fn number(c: VarContext<'_>, vars: Seq<Variable>, next: u32, j: int) -> VarId {
    VarId((next + taken(c, vars, j)) as u32)
}

proof fn lemma_taken_grows(c: VarContext<'_>, vars: Seq<Variable>, j: int, k: int)
    requires
        0 <= j <= k,
    ensures
        taken(c, vars, j) <= taken(c, vars, k),
        taken(c, vars, k) <= k,
        j < k && !is_left_out(c, vars[j]) ==> taken(c, vars, j) < taken(c, vars, k),
    decreases k,
{
    if j < k {
        lemma_taken_grows(c, vars, j, k - 1);
    } else if k > 0 {
        lemma_taken_grows(c, vars, k - 1, k - 1);
    }
}

proof fn lemma_taken_at(c: VarContext<'_>, vars: Seq<Variable>, k: int, i: int) -> (j: int)
    requires
        0 <= k <= vars.len(),
        0 <= i < taken(c, vars, k),
    ensures
        0 <= j < k,
        !is_left_out(c, vars[j]),
        taken(c, vars, j) == i,
    decreases k,
{
    if i < taken(c, vars, k - 1) {
        lemma_taken_at(c, vars, k - 1, i)
    } else {
        k - 1
    }
}

proof fn lemma_no_image(vars: Seq<Variable>, like: Variable, k: int)
    requires
        like.target is None,
    ensures
        merge_vars::image_global(vars, like, k) is None,
    decreases vars.len() - k,
{
    if 0 <= k < vars.len() {
        lemma_no_image(vars, like, k + 1);
    }
}

/// The variable at `j` is a local of the function `owner`.
spec fn is_local_of(c: VarContext<'_>, vars: Seq<Variable>, owner: FnId, j: int) -> bool {
    &&& !is_left_out(c, vars[j])
    &&& merge_vars::owner_in(c, vars[j]) == Some(owner)
    &&& vars[j].param_index is None
}

/// The locals that a function gets, of the first `k` variables.
spec fn own_locals(
    c: VarContext<'_>,
    vars: Seq<Variable>,
    next: u32,
    owner: FnId,
    k: int,
) -> Seq<VarId>
    decreases k,
{
    if k <= 0 {
        seq![]
    } else if is_local_of(c, vars, owner, k - 1) {
        own_locals(c, vars, next, owner, k - 1).push(number(c, vars, next, k - 1))
    } else {
        own_locals(c, vars, next, owner, k - 1)
    }
}

/// The functions with the locals they get, of the first `k` variables.
spec fn with_locals(
    fns: Seq<FnView>,
    c: VarContext<'_>,
    vars: Seq<Variable>,
    next: u32,
    k: int,
) -> Seq<FnView> {
    fns.map_values(
        |f: FnView| FnView { locals: f.locals + own_locals(c, vars, next, f.id, k), ..f },
    )
}

proof fn lemma_with_local(
    fns: Seq<FnView>,
    c: VarContext<'_>,
    vars: Seq<Variable>,
    next: u32,
    k: int,
    owner: FnId,
)
    requires
        0 < k <= vars.len(),
        forall|p: int, q: int|
            0 <= p < q < fns.len() ==> (#[trigger] fns[p]).id != (#[trigger] fns[q]).id,
        program::holds_fn(fns, owner),
        is_local_of(c, vars, owner, k - 1),
    ensures
        merge_vars::with_local(
            with_locals(fns, c, vars, next, k - 1),
            owner,
            number(c, vars, next, k - 1),
        ) == with_locals(fns, c, vars, next, k),
{
    let before = with_locals(fns, c, vars, next, k - 1);
    let after = with_locals(fns, c, vars, next, k);
    let p = choose|p: int| 0 <= p < fns.len() && (#[trigger] fns[p]).id == owner;
    program::lemma_fn_at(before, owner, 0);
    assert(before[p].id == owner);
    let at = program::fn_at(before, owner, 0)->0;
    assert(fns[at].id == before[at].id);
    assert(at == p);
    let id = number(c, vars, next, k - 1);
    let done = merge_vars::with_local(before, owner, id);
    assert forall|i: int| 0 <= i < fns.len() implies done[i] == after[i] by {
        assert(fns[i].id == before[i].id);
        if i == p {
            assert(before[i].locals.push(id) =~= fns[i].locals + own_locals(
                c,
                vars,
                next,
                owner,
                k,
            ));
        } else {
            assert(fns[i].id != owner) by {
                if i < p {
                    assert(fns[i].id != fns[p].id);
                } else {
                    assert(fns[p].id != fns[i].id);
                }
            }
        }
    }
    assert(done =~= after);
}

proof fn lemma_no_local(
    fns: Seq<FnView>,
    c: VarContext<'_>,
    vars: Seq<Variable>,
    next: u32,
    k: int,
)
    requires
        0 < k <= vars.len(),
        forall|owner: FnId| !#[trigger] is_local_of(c, vars, owner, k - 1),
    ensures
        with_locals(fns, c, vars, next, k - 1) == with_locals(fns, c, vars, next, k),
{
    assert forall|i: int| 0 <= i < fns.len() implies with_locals(fns, c, vars, next, k - 1)[i]
        == #[trigger] with_locals(fns, c, vars, next, k)[i] by {
        assert(!is_local_of(c, vars, fns[i].id, k - 1));
    }
    assert(with_locals(fns, c, vars, next, k - 1) =~= with_locals(fns, c, vars, next, k));
}

/// The numbers that the first `k` variables get.
spec fn numbers(c: VarContext<'_>, vars: Seq<Variable>, next: u32, k: int) -> Map<u32, u32>
    decreases k,
{
    if k <= 0 {
        idmap::no_entries()
    } else if is_left_out(c, vars[k - 1]) {
        numbers(c, vars, next, k - 1)
    } else {
        numbers(c, vars, next, k - 1).insert(
            vars[k - 1].id.0,
            number(c, vars, next, k - 1).0,
        )
    }
}

/// One of the first `k` variables that are taken in has the number.
#[verifier::opaque]
spec fn has_number(c: VarContext<'_>, vars: Seq<Variable>, id: u32, k: int) -> bool {
    exists|j: int| 0 <= j < k && (#[trigger] vars[j]).id.0 == id && !is_left_out(c, vars[j])
}

/// The variable at `j` is taken in, under the number after those before it.
#[verifier::opaque]
spec fn stands_at(
    s: VarTablesView,
    r: VarTablesView,
    c: VarContext<'_>,
    vars: Seq<Variable>,
    j: int,
) -> bool {
    r.variables[s.variables.len() as int + taken(c, vars, j)] == merge_vars::placed_var(
        c,
        vars[j],
        number(c, vars, s.next_var, j),
    )
}

/// What the first configuration makes of the first `k` variables.
#[verifier::opaque]
spec fn is_first(
    s: VarTablesView,
    r: VarTablesView,
    c: VarContext<'_>,
    vars: Seq<Variable>,
    k: int,
) -> bool {
    &&& r == (VarTablesView {
        functions: with_locals(s.functions, c, vars, s.next_var, k),
        variables: r.variables,
        next_var: r.next_var,
        var_map: r.var_map,
        ..s
    })
    &&& r.next_var == s.next_var + taken(c, vars, k)
    &&& r.variables.len() == s.variables.len() + taken(c, vars, k)
    &&& r.variables.take(s.variables.len() as int) == s.variables
    &&& forall|j: int|
        0 <= j < k && !is_left_out(c, vars[j]) ==> #[trigger] stands_at(s, r, c, vars, j)
    &&& r.var_map == numbers(c, vars, s.next_var, k)
    &&& forall|id: u32| #[trigger] r.var_map.dom().contains(id) ==> has_number(c, vars, id, k)
}

proof fn lemma_unnumbered(
    s: VarTablesView,
    b: VarTablesView,
    c: VarContext<'_>,
    vars: Seq<Variable>,
    k: int,
)
    requires
        0 < k <= vars.len(),
        stand_apart(vars, c),
        is_first(s, b, c, vars, k - 1),
    ensures
        !b.var_map.dom().contains(vars[k - 1].id.0),
        b.next_var == s.next_var + taken(c, vars, k - 1),
        b.functions == with_locals(s.functions, c, vars, s.next_var, k - 1),
{
    reveal(is_first);
    let id = vars[k - 1].id.0;
    if b.var_map.dom().contains(id) {
        assert(has_number(c, vars, id, k - 1));
        reveal(has_number);
        let j = choose|j: int|
            0 <= j < k - 1 && (#[trigger] vars[j]).id.0 == id && !is_left_out(c, vars[j]);
        assert(vars[j].id != vars[k - 1].id);
    }
}

/// The first configuration takes the variable in.
proof fn lemma_new_var(
    s: VarTablesView,
    b: VarTablesView,
    c: VarContext<'_>,
    vars: Seq<Variable>,
    k: int,
)
    requires
        0 < k <= vars.len(),
        stand_apart(vars, c),
        are_new_bodies(s, c),
        c.mode == MergeMode::Full,
        c.remerged@ == Set::<u32>::empty(),
        is_first(s, b, c, vars, k - 1),
        !is_left_out(c, vars[k - 1]),
        s.next_var + vars.len() <= u32::MAX,
    ensures
        merge_vars::var_step(b, c, vars[k - 1]) == (VarTablesView {
            functions: with_locals(s.functions, c, vars, s.next_var, k),
            variables: b.variables.push(
                merge_vars::placed_var(c, vars[k - 1], VarId(b.next_var)),
            ),
            next_var: (b.next_var + 1) as u32,
            var_map: b.var_map.insert(vars[k - 1].id.0, b.next_var),
            ..b
        }),
{
    let v = vars[k - 1];
    assert(v.target is None);
    lemma_no_image(b.variables, v, 0);
    lemma_unnumbered(s, b, c, vars, k);
    lemma_taken_grows(c, vars, k - 1, k - 1);
    assert(merge_vars::extended(c, v) is None);
    assert(merge_vars::var_route(b, c, v) is New) by {
        reveal(is_left_out);
    }
    assert(number(c, vars, s.next_var, k - 1) == VarId(b.next_var));
    match merge_vars::owner_in(c, v) {
        Some(owner) => {
            if v.param_index is None {
                assert(is_local_of(c, vars, owner, k - 1));
                let f = v.fn_id->0;
                assert(c.fn_map@.dom().contains(f.0));
                lemma_with_local(s.functions, c, vars, s.next_var, k, owner);
            } else {
                lemma_no_local(s.functions, c, vars, s.next_var, k);
            }
        },
        None => lemma_no_local(s.functions, c, vars, s.next_var, k),
    }
}

proof fn lemma_first_step(
    s: VarTablesView,
    b: VarTablesView,
    r: VarTablesView,
    c: VarContext<'_>,
    vars: Seq<Variable>,
    k: int,
)
    requires
        0 < k <= vars.len(),
        stand_apart(vars, c),
        is_first(s, b, c, vars, k - 1),
        !is_left_out(c, vars[k - 1]),
        s.next_var + vars.len() <= u32::MAX,
        r == (VarTablesView {
            functions: with_locals(s.functions, c, vars, s.next_var, k),
            variables: b.variables.push(
                merge_vars::placed_var(c, vars[k - 1], VarId(b.next_var)),
            ),
            next_var: (b.next_var + 1) as u32,
            var_map: b.var_map.insert(vars[k - 1].id.0, b.next_var),
            ..b
        }),
    ensures
        is_first(s, r, c, vars, k),
{
    reveal(is_first);
    let n = s.variables.len() as int;
    let v = vars[k - 1];
    lemma_taken_grows(c, vars, k - 1, k - 1);
    assert(r.variables.take(n) =~= b.variables.take(n));
    assert forall|j: int| 0 <= j < k && !is_left_out(c, vars[j]) implies #[trigger] stands_at(
        s,
        r,
        c,
        vars,
        j,
    ) by {
        reveal(stands_at);
        if j < k - 1 {
            assert(stands_at(s, b, c, vars, j));
            lemma_taken_grows(c, vars, j, k - 1);
            assert(vars[j].id != vars[k - 1].id);
        }
    }
    assert forall|id: u32| #[trigger] r.var_map.dom().contains(id) implies has_number(
        c,
        vars,
        id,
        k,
    ) by {
        reveal(has_number);
        if id != v.id.0 {
            assert(b.var_map.dom().contains(id));
        } else {
            assert(vars[k - 1].id.0 == id);
        }
    }
}

proof fn lemma_first_left_out(
    s: VarTablesView,
    b: VarTablesView,
    c: VarContext<'_>,
    vars: Seq<Variable>,
    k: int,
)
    requires
        0 < k <= vars.len(),
        is_first(s, b, c, vars, k - 1),
        is_left_out(c, vars[k - 1]),
    ensures
        is_first(s, b, c, vars, k),
{
    reveal(is_first);
    lemma_no_local(s.functions, c, vars, s.next_var, k);
    assert forall|id: u32| #[trigger] b.var_map.dom().contains(id) implies has_number(
        c,
        vars,
        id,
        k,
    ) by {
        reveal(has_number);
        assert(has_number(c, vars, id, k - 1));
    }
}

proof fn lemma_first(s: VarTablesView, c: VarContext<'_>, vars: Seq<Variable>, k: int)
    requires
        0 <= k <= vars.len(),
        stand_apart(vars, c),
        are_new_bodies(s, c),
        c.mode == MergeMode::Full,
        c.remerged@ == Set::<u32>::empty(),
        s == opened(s),
        s.next_var + vars.len() <= u32::MAX,
    ensures
        is_first(s, merge_vars::vars_merged(s, c, vars, k), c, vars, k),
    decreases k,
{
    if k == 0 {
        reveal(is_first);
        assert(s.variables.take(s.variables.len() as int) =~= s.variables);
        assert forall|i: int| 0 <= i < s.functions.len() implies s.functions[i]
            == #[trigger] with_locals(s.functions, c, vars, s.next_var, 0)[i] by {
            assert(s.functions[i].locals + seq![] =~= s.functions[i].locals);
        }
        assert(s.functions =~= with_locals(s.functions, c, vars, s.next_var, 0));
    } else {
        lemma_first(s, c, vars, k - 1);
        let b = merge_vars::vars_merged(s, c, vars, k - 1);
        if is_left_out(c, vars[k - 1]) {
            assert(merge_vars::vars_merged(s, c, vars, k) == b) by {
                reveal(is_left_out);
            }
            lemma_first_left_out(s, b, c, vars, k);
        } else {
            lemma_new_var(s, b, c, vars, k);
            lemma_first_step(s, b, merge_vars::vars_merged(s, c, vars, k), c, vars, k);
        }
    }
}

/// Two contexts of one unit: its first configuration and another one, in which its
/// files, types and functions have the same numbers, and which extends the bodies
/// that its functions became.
pub open spec fn are_configurations(a: VarContext<'_>, b: VarContext<'_>) -> bool {
    &&& a.mode == MergeMode::Full
    &&& b.mode == MergeMode::Variant
    &&& b.scope == 0
    &&& a.map.files@ == b.map.files@
    &&& a.map.primary == b.map.primary
    &&& a.files@ == b.files@
    &&& a.type_map@ == b.type_map@
    &&& a.fn_map@ == b.fn_map@
    &&& a.dropped@ == b.dropped@
    &&& a.remerged@ == Set::<u32>::empty()
    &&& forall|id: u32| #[trigger] b.remerged@.contains(id) <==> is_body(a, id)
}

/// Some function of the unit became the one with that number.
pub open spec fn is_body(c: VarContext<'_>, id: u32) -> bool {
    exists|f: u32| #[trigger] c.fn_map@.dom().contains(f) && c.fn_map@[f] == id
}

/// What is found under the number of a variable is the variable.
#[verifier::opaque]
spec fn finds_all(
    all: Seq<Variable>,
    c: VarContext<'_>,
    vars: Seq<Variable>,
    next: u32,
) -> bool {
    forall|j: int|
        0 <= j < vars.len() && !is_left_out(c, #[trigger] vars[j]) ==> program::var_by_id(
            all,
            number(c, vars, next, j),
        ) == Some(merge_vars::placed_var(c, vars[j], number(c, vars, next, j)))
}

proof fn lemma_is_found(
    s: VarTablesView,
    r: VarTablesView,
    c: VarContext<'_>,
    vars: Seq<Variable>,
    j: int,
)
    requires
        0 <= j < vars.len(),
        !is_left_out(c, vars[j]),
        are_new_bodies(s, c),
        is_first(s, r, c, vars, vars.len() as int),
        s.next_var + vars.len() <= u32::MAX,
    ensures
        program::var_by_id(r.variables, number(c, vars, s.next_var, j)) == Some(
            merge_vars::placed_var(c, vars[j], number(c, vars, s.next_var, j)),
        ),
{
    reveal(is_first);
    reveal(stands_at);
    let n = s.variables.len() as int;
    let id = number(c, vars, s.next_var, j);
    let at = n + taken(c, vars, j);
    let k = vars.len() as int;
    lemma_taken_grows(c, vars, j, k);
    assert(stands_at(s, r, c, vars, j));
    assert(r.variables[at].id == id);
    program::lemma_var_at(r.variables, id, 0);
    let p = program::var_at(r.variables, id, 0)->0;
    if p < at {
        if p < n {
            assert(r.variables[p] == r.variables.take(n)[p]);
            assert(s.variables[p].id.0 < s.next_var);
        } else {
            let i = lemma_taken_at(c, vars, k, p - n);
            assert(stands_at(s, r, c, vars, i));
        }
    }
}

/// The note is of the local at `j`.
spec fn notes_local(
    c: VarContext<'_>,
    vars: Seq<Variable>,
    next: u32,
    e: LocalAt,
    j: int,
) -> bool {
    &&& 0 <= j < vars.len()
    &&& is_local_of(c, vars, e.owner, j)
    &&& e.span == c.map.spec_span(vars[j].span)
    &&& e.name@ == vars[j].name@
    &&& e.id == number(c, vars, next, j)
}

#[verifier::opaque]
spec fn is_note(c: VarContext<'_>, vars: Seq<Variable>, next: u32, e: LocalAt) -> bool {
    exists|j: int| #[trigger] notes_local(c, vars, next, e, j)
}

/// Some local stands at the place of the one at `j`.
#[verifier::opaque]
spec fn is_noted(
    v: Seq<LocalAt>,
    c: VarContext<'_>,
    vars: Seq<Variable>,
    owner: FnId,
    j: int,
) -> bool {
    merge_vars::local_at(v, owner, c.map.spec_span(vars[j].span), vars[j].name@, 0) is Some
}

/// The temporaries at a place, of the first `k` variables.
spec fn temp_ids(
    c: VarContext<'_>,
    vars: Seq<Variable>,
    next: u32,
    place: TempPlace,
    k: int,
) -> Seq<VarId>
    decreases k,
{
    if k <= 0 {
        seq![]
    } else if is_temp_at(c, vars, place, k - 1) {
        temp_ids(c, vars, next, place, k - 1).push(number(c, vars, next, k - 1))
    } else {
        temp_ids(c, vars, next, place, k - 1)
    }
}

spec fn is_temp_at(c: VarContext<'_>, vars: Seq<Variable>, place: TempPlace, j: int) -> bool {
    &&& is_local_of(c, vars, place.owner, j)
    &&& c.map.spec_span(vars[j].span) == place.span
    &&& merge_vars::temp_kind(vars[j].name@) == Some(place.kind)
}

proof fn lemma_temps_pushed(
    v: Seq<(TempPlace, VarId)>,
    e: (TempPlace, VarId),
    place: TempPlace,
    k: int,
)
    requires
        0 <= k <= v.len(),
    ensures
        merge_vars::temps_at(v.push(e), place, k) == merge_vars::temps_at(v, place, k),
    decreases k,
{
    if k > 0 {
        lemma_temps_pushed(v, e, place, k - 1);
        assert(v.push(e)[k - 1] == v[k - 1]);
    }
}

proof fn lemma_local_pushed(v: Seq<LocalAt>, e: LocalAt, owner: FnId, span: Span, name: Seq<char>, k: int)
    requires
        0 <= k <= v.len(),
    ensures
        merge_vars::local_at(v.push(e), owner, span, name, k) == match merge_vars::local_at(
            v,
            owner,
            span,
            name,
            k,
        ) {
            Some(id) => Some(id),
            None => if e.owner == owner && e.span == span && e.name@ == name {
                Some(e.id)
            } else {
                None
            },
        },
    decreases v.len() - k,
{
    if k < v.len() {
        assert(v.push(e)[k] == v[k]);
        if !(v[k].owner == owner && v[k].span == span && v[k].name@ == name) {
            lemma_local_pushed(v, e, owner, span, name, k + 1);
        }
    } else {
        assert(v.push(e)[k] == e);
        assert(merge_vars::local_at(v.push(e), owner, span, name, k + 1) is None);
    }
}

proof fn lemma_locals_start(
    c: VarContext<'_>,
    vars: Seq<Variable>,
    next: u32,
    owner: FnId,
    j: int,
    k: int,
)
    requires
        0 <= j <= k,
    ensures
        own_locals(c, vars, next, owner, j).is_prefix_of(own_locals(c, vars, next, owner, k)),
    decreases k,
{
    if j < k {
        lemma_locals_start(c, vars, next, owner, j, k - 1);
    }
}

/// What the notes of one body, up to its locals among the first `k` variables, add
/// to those before.
#[verifier::opaque]
spec fn is_body_noted(
    before: VarTablesView,
    after: VarTablesView,
    c: VarContext<'_>,
    vars: Seq<Variable>,
    next: u32,
    owner: FnId,
    k: int,
) -> bool {
    &&& after == (VarTablesView { locals: after.locals, temps: after.temps, ..before })
    &&& forall|i: int|
        0 <= i < after.locals.len() ==> is_note(c, vars, next, #[trigger] after.locals[i])
    &&& forall|o: FnId, j: int|
        is_noted(before.locals, c, vars, o, j) ==> #[trigger] is_noted(
            after.locals,
            c,
            vars,
            o,
            j,
        )
    &&& forall|j: int|
        0 <= j < k && is_local_of(c, vars, owner, j) && merge_vars::temp_kind(vars[j].name@) is None
            ==> #[trigger] is_noted(after.locals, c, vars, owner, j)
    &&& forall|place: TempPlace| #[trigger]
        merge_vars::temps_at(after.temps, place, after.temps.len() as int)
            == merge_vars::temps_at(before.temps, place, before.temps.len() as int) + if place.owner
            == owner {
            temp_ids(c, vars, next, place, k)
        } else {
            seq![]
        }
}

proof fn lemma_temp_noted(
    before: VarTablesView,
    b: VarTablesView,
    c: VarContext<'_>,
    vars: Seq<Variable>,
    next: u32,
    owner: FnId,
    k: int,
    kind: TempKind,
)
    requires
        0 < k <= vars.len(),
        is_body_noted(before, b, c, vars, next, owner, k - 1),
        is_local_of(c, vars, owner, k - 1),
        merge_vars::temp_kind(vars[k - 1].name@) == Some(kind),
    ensures
        is_body_noted(
            before,
            VarTablesView {
                temps: b.temps.push(
                    (
                        TempPlace { owner, span: c.map.spec_span(vars[k - 1].span), kind },
                        number(c, vars, next, k - 1),
                    ),
                ),
                ..b
            },
            c,
            vars,
            next,
            owner,
            k,
        ),
{
    reveal(is_body_noted);
    let id = number(c, vars, next, k - 1);
    let e = (TempPlace { owner, span: c.map.spec_span(vars[k - 1].span), kind }, id);
    let t = b.temps.push(e);
    let after = VarTablesView { temps: t, ..b };
    assert forall|place: TempPlace| #[trigger] merge_vars::temps_at(t, place, t.len() as int)
        == merge_vars::temps_at(before.temps, place, before.temps.len() as int) + if place.owner
        == owner {
        temp_ids(c, vars, next, place, k)
    } else {
        seq![]
    } by {
        lemma_temps_pushed(b.temps, e, place, b.temps.len() as int);
        let old = merge_vars::temps_at(b.temps, place, b.temps.len() as int);
        let first = merge_vars::temps_at(before.temps, place, before.temps.len() as int);
        assert(is_temp_at(c, vars, place, k - 1) == (e.0 == place));
        if e.0 == place {
            assert(old.push(id) =~= first + temp_ids(c, vars, next, place, k));
        }
    }
    assert forall|j: int|
        0 <= j < k && is_local_of(c, vars, owner, j) && merge_vars::temp_kind(
            vars[j].name@,
        ) is None implies #[trigger] is_noted(after.locals, c, vars, owner, j) by {
        assert(j < k - 1);
        assert(is_noted(b.locals, c, vars, owner, j));
    }
    assert forall|o: FnId, j: int| is_noted(before.locals, c, vars, o, j) implies #[trigger] is_noted(
        after.locals,
        c,
        vars,
        o,
        j,
    ) by {
        assert(is_noted(b.locals, c, vars, o, j));
    }
}

proof fn lemma_local_noted(
    before: VarTablesView,
    b: VarTablesView,
    after: VarTablesView,
    c: VarContext<'_>,
    vars: Seq<Variable>,
    next: u32,
    owner: FnId,
    k: int,
)
    requires
        0 < k <= vars.len(),
        is_body_noted(before, b, c, vars, next, owner, k - 1),
        is_local_of(c, vars, owner, k - 1),
        merge_vars::temp_kind(vars[k - 1].name@) is None,
        ({
            let v = vars[k - 1];
            let span = c.map.spec_span(v.span);
            after == if merge_vars::local_at(b.locals, owner, span, v.name@, 0) is None {
                VarTablesView {
                    locals: b.locals.push(
                        LocalAt { owner, span, name: v.name, id: number(c, vars, next, k - 1) },
                    ),
                    ..b
                }
            } else {
                b
            }
        }),
    ensures
        is_body_noted(before, after, c, vars, next, owner, k),
{
    reveal(is_body_noted);
    reveal(is_noted);
    reveal(is_note);
    let v = vars[k - 1];
    let span = c.map.spec_span(v.span);
    let e = LocalAt { owner, span, name: v.name, id: number(c, vars, next, k - 1) };
    let pushed = merge_vars::local_at(b.locals, owner, span, v.name@, 0) is None;
    assert(notes_local(c, vars, next, e, k - 1));
    assert forall|i: int| 0 <= i < after.locals.len() implies is_note(
        c,
        vars,
        next,
        #[trigger] after.locals[i],
    ) by {
        if i < b.locals.len() {
            assert(after.locals[i] == b.locals[i]);
            assert(is_note(c, vars, next, b.locals[i]));
        }
    }
    assert forall|o: FnId, j: int| is_noted(b.locals, c, vars, o, j) || o == owner && j == k
        - 1 implies #[trigger] is_noted(after.locals, c, vars, o, j) by {
        if pushed {
            lemma_local_pushed(
                b.locals,
                e,
                o,
                c.map.spec_span(vars[j].span),
                vars[j].name@,
                0,
            );
        }
    }
    assert forall|o: FnId, j: int| is_noted(before.locals, c, vars, o, j) implies #[trigger] is_noted(
        after.locals,
        c,
        vars,
        o,
        j,
    ) by {
        assert(is_noted(b.locals, c, vars, o, j));
    }
    assert forall|j: int|
        0 <= j < k && is_local_of(c, vars, owner, j) && merge_vars::temp_kind(
            vars[j].name@,
        ) is None implies #[trigger] is_noted(after.locals, c, vars, owner, j) by {
        if j < k - 1 {
            assert(is_noted(b.locals, c, vars, owner, j));
        }
    }
    assert forall|place: TempPlace| #[trigger]
        merge_vars::temps_at(after.temps, place, after.temps.len() as int)
        == merge_vars::temps_at(before.temps, place, before.temps.len() as int) + if place.owner
        == owner {
        temp_ids(c, vars, next, place, k)
    } else {
        seq![]
    } by {
        assert(!is_temp_at(c, vars, place, k - 1));
        assert(after.temps == b.temps);
    }
}

proof fn lemma_body_noted(
    before: VarTablesView,
    f: FnView,
    c: VarContext<'_>,
    vars: Seq<Variable>,
    next: u32,
    k: int,
)
    requires
        0 <= k <= vars.len(),
        f.locals == own_locals(c, vars, next, f.id, vars.len() as int),
        finds_all(before.variables, c, vars, next),
        forall|i: int|
            0 <= i < before.locals.len() ==> is_note(c, vars, next, #[trigger] before.locals[i]),
    ensures
        is_body_noted(
            before,
            merge_vars::body_noted(
                before,
                f,
                own_locals(c, vars, next, f.id, k).len() as int,
            ),
            c,
            vars,
            next,
            f.id,
            k,
        ),
    decreases k,
{
    if k == 0 {
        reveal(is_body_noted);
        assert forall|place: TempPlace| #[trigger]
            merge_vars::temps_at(before.temps, place, before.temps.len() as int)
            == merge_vars::temps_at(before.temps, place, before.temps.len() as int)
            + if place.owner == f.id {
            temp_ids(c, vars, next, place, 0)
        } else {
            seq![]
        } by {
            let own = merge_vars::temps_at(before.temps, place, before.temps.len() as int);
            assert(own + seq![] =~= own);
        }
    } else {
        lemma_body_noted(before, f, c, vars, next, k - 1);
        let q = own_locals(c, vars, next, f.id, k).len() as int;
        let owner = f.id;
        if is_local_of(c, vars, owner, k - 1) {
            let b = merge_vars::body_noted(before, f, q - 1);
            lemma_locals_start(c, vars, next, owner, k, vars.len() as int);
            let id = number(c, vars, next, k - 1);
            assert(own_locals(c, vars, next, owner, k)[q - 1] == id);
            assert(f.locals[q - 1] == id);
            assert(program::var_by_id(before.variables, id) == Some(
                merge_vars::placed_var(c, vars[k - 1], id),
            )) by {
                reveal(finds_all);
            }
            match merge_vars::temp_kind(vars[k - 1].name@) {
                Some(kind) => lemma_temp_noted(before, b, c, vars, next, owner, k, kind),
                None => lemma_local_noted(
                    before,
                    b,
                    merge_vars::body_noted(before, f, q),
                    c,
                    vars,
                    next,
                    owner,
                    k,
                ),
            }
        } else {
            reveal(is_body_noted);
            assert forall|place: TempPlace| place.owner == owner implies temp_ids(
                c,
                vars,
                next,
                place,
                k,
            ) == #[trigger] temp_ids(c, vars, next, place, k - 1) by {
                assert(!is_temp_at(c, vars, place, k - 1));
            }
        }
    }
}

/// One of the first `m` functions has the number.
spec fn has_fn(fns: Seq<FnView>, id: FnId, m: int) -> bool {
    exists|p: int| 0 <= p < m && (#[trigger] fns[p]).id == id
}

/// What the notes of the first `m` functions are.
#[verifier::opaque]
spec fn are_noted(
    base: VarTablesView,
    t: VarTablesView,
    c: VarContext<'_>,
    vars: Seq<Variable>,
    next: u32,
    m: int,
) -> bool {
    &&& t == (VarTablesView { locals: t.locals, temps: t.temps, ..base })
    &&& forall|i: int| 0 <= i < t.locals.len() ==> is_note(c, vars, next, #[trigger] t.locals[i])
    &&& forall|p: int, j: int|
        0 <= p < m && 0 <= j < vars.len() && is_local_of(c, vars, base.functions[p].id, j)
            && merge_vars::temp_kind(vars[j].name@) is None ==> #[trigger] is_noted(
            t.locals,
            c,
            vars,
            base.functions[p].id,
            j,
        )
    &&& forall|place: TempPlace| #[trigger]
        merge_vars::temps_at(t.temps, place, t.temps.len() as int) == if has_fn(
            base.functions,
            place.owner,
            m,
        ) {
            temp_ids(c, vars, next, place, vars.len() as int)
        } else {
            seq![]
        }
}

proof fn lemma_no_temps(
    c: VarContext<'_>,
    vars: Seq<Variable>,
    next: u32,
    place: TempPlace,
    k: int,
)
    requires
        !is_body(c, place.owner.0),
    ensures
        temp_ids(c, vars, next, place, k) == Seq::<VarId>::empty(),
    decreases k,
{
    if k > 0 {
        lemma_no_temps(c, vars, next, place, k - 1);
        if is_temp_at(c, vars, place, k - 1) {
            let f = vars[k - 1].fn_id->0;
            assert(c.fn_map@.dom().contains(f.0));
        }
    }
}

proof fn lemma_has_fn(fns: Seq<FnView>, id: FnId, m: int)
    requires
        0 < m <= fns.len(),
    ensures
        has_fn(fns, id, m) == (has_fn(fns, id, m - 1) || fns[m - 1].id == id),
{
    if has_fn(fns, id, m - 1) {
        let p = choose|p: int| 0 <= p < m - 1 && (#[trigger] fns[p]).id == id;
        assert(fns[p].id == id);
    }
    if fns[m - 1].id == id {
        assert(fns[m - 1].id == id);
    }
}

proof fn lemma_bodies_noted(
    base: VarTablesView,
    c: VarContext<'_>,
    vars: Seq<Variable>,
    next: u32,
    remerged: Set<u32>,
    m: int,
)
    requires
        0 <= m <= base.functions.len(),
        base.locals.len() == 0,
        base.temps.len() == 0,
        forall|id: u32| #[trigger] remerged.contains(id) <==> is_body(c, id),
        forall|p: int, q: int|
            0 <= p < q < base.functions.len() ==> (#[trigger] base.functions[p]).id != (
            #[trigger] base.functions[q]).id,
        forall|p: int|
            0 <= p < base.functions.len() && is_body(c, (#[trigger] base.functions[p]).id.0)
                ==> base.functions[p].locals == own_locals(
                c,
                vars,
                next,
                base.functions[p].id,
                vars.len() as int,
            ),
        finds_all(base.variables, c, vars, next),
    ensures
        are_noted(base, merge_vars::bodies_noted(base, remerged, m), c, vars, next, m),
    decreases m,
{
    if m == 0 {
        reveal(are_noted);
        assert forall|place: TempPlace| #[trigger]
            merge_vars::temps_at(base.temps, place, base.temps.len() as int) == if has_fn(
            base.functions,
            place.owner,
            0,
        ) {
            temp_ids(c, vars, next, place, vars.len() as int)
        } else {
            seq![]
        } by {}
    } else {
        lemma_bodies_noted(base, c, vars, next, remerged, m - 1);
        let b = merge_vars::bodies_noted(base, remerged, m - 1);
        let t = merge_vars::bodies_noted(base, remerged, m);
        let f = base.functions[m - 1];
        assert(remerged.contains(f.id.0) == is_body(c, f.id.0));
        if is_body(c, f.id.0) {
            lemma_body_step(base, b, f, c, vars, next, m);
        } else {
            lemma_other_step(base, b, f, c, vars, next, m);
        }
    }
}

proof fn lemma_body_step(
    base: VarTablesView,
    b: VarTablesView,
    f: FnView,
    c: VarContext<'_>,
    vars: Seq<Variable>,
    next: u32,
    m: int,
)
    requires
        0 < m <= base.functions.len(),
        f == base.functions[m - 1],
        forall|p: int, q: int|
            0 <= p < q < base.functions.len() ==> (#[trigger] base.functions[p]).id != (
            #[trigger] base.functions[q]).id,
        f.locals == own_locals(c, vars, next, f.id, vars.len() as int),
        finds_all(base.variables, c, vars, next),
        are_noted(base, b, c, vars, next, m - 1),
    ensures
        are_noted(
            base,
            merge_vars::body_noted(b, f, f.locals.len() as int),
            c,
            vars,
            next,
            m,
        ),
{
    reveal(are_noted);
    let n = vars.len() as int;
    let t = merge_vars::body_noted(b, f, f.locals.len() as int);
    lemma_body_noted(b, f, c, vars, next, n);
    reveal(is_body_noted);
    assert forall|p: int, j: int|
        0 <= p < m && 0 <= j < vars.len() && is_local_of(c, vars, base.functions[p].id, j)
            && merge_vars::temp_kind(vars[j].name@) is None implies #[trigger] is_noted(
        t.locals,
        c,
        vars,
        base.functions[p].id,
        j,
    ) by {
        if p < m - 1 {
            assert(is_noted(b.locals, c, vars, base.functions[p].id, j));
        }
    }
    assert forall|place: TempPlace| #[trigger]
        merge_vars::temps_at(t.temps, place, t.temps.len() as int) == if has_fn(
        base.functions,
        place.owner,
        m,
    ) {
        temp_ids(c, vars, next, place, n)
    } else {
        seq![]
    } by {
        lemma_has_fn(base.functions, place.owner, m);
        let old = merge_vars::temps_at(b.temps, place, b.temps.len() as int);
        if place.owner == f.id {
            assert(!has_fn(base.functions, place.owner, m - 1)) by {
                if has_fn(base.functions, place.owner, m - 1) {
                    let p = choose|p: int|
                        0 <= p < m - 1 && (#[trigger] base.functions[p]).id == place.owner;
                    assert(base.functions[p].id != base.functions[m - 1].id);
                }
            }
            assert(Seq::<VarId>::empty() + temp_ids(c, vars, next, place, n) =~= temp_ids(
                c,
                vars,
                next,
                place,
                n,
            ));
        } else {
            assert(old + seq![] =~= old);
        }
    }
}

proof fn lemma_other_step(
    base: VarTablesView,
    b: VarTablesView,
    f: FnView,
    c: VarContext<'_>,
    vars: Seq<Variable>,
    next: u32,
    m: int,
)
    requires
        0 < m <= base.functions.len(),
        f == base.functions[m - 1],
        !is_body(c, f.id.0),
        are_noted(base, b, c, vars, next, m - 1),
    ensures
        are_noted(base, b, c, vars, next, m),
{
    reveal(are_noted);
    let n = vars.len() as int;
    assert forall|p: int, j: int|
        0 <= p < m && 0 <= j < vars.len() && is_local_of(c, vars, base.functions[p].id, j)
            && merge_vars::temp_kind(vars[j].name@) is None implies #[trigger] is_noted(
        b.locals,
        c,
        vars,
        base.functions[p].id,
        j,
    ) by {
        if p == m - 1 {
            let g = vars[j].fn_id->0;
            assert(c.fn_map@.dom().contains(g.0));
        }
    }
    assert forall|place: TempPlace| #[trigger]
        merge_vars::temps_at(b.temps, place, b.temps.len() as int) == if has_fn(
        base.functions,
        place.owner,
        m,
    ) {
        temp_ids(c, vars, next, place, n)
    } else {
        seq![]
    } by {
        lemma_has_fn(base.functions, place.owner, m);
        if place.owner == f.id {
            lemma_no_temps(c, vars, next, place, n);
        }
    }
}

proof fn lemma_local_at(v: Seq<LocalAt>, owner: FnId, span: Span, name: Seq<char>, k: int) -> (i: int)
    requires
        0 <= k,
        merge_vars::local_at(v, owner, span, name, k) is Some,
    ensures
        k <= i < v.len(),
        v[i].owner == owner && v[i].span == span && v[i].name@ == name,
        merge_vars::local_at(v, owner, span, name, k) == Some(v[i].id),
    decreases v.len() - k,
{
    if v[k].owner == owner && v[k].span == span && v[k].name@ == name {
        k
    } else {
        lemma_local_at(v, owner, span, name, k + 1)
    }
}

/// A local is found where it stands.
proof fn lemma_local_found(
    base: VarTablesView,
    t: VarTablesView,
    c: VarContext<'_>,
    vars: Seq<Variable>,
    next: u32,
    owner: FnId,
    j: int,
)
    requires
        0 <= j < vars.len(),
        stand_apart(vars, c),
        are_noted(base, t, c, vars, next, base.functions.len() as int),
        program::holds_fn(base.functions, owner),
        is_local_of(c, vars, owner, j),
        merge_vars::temp_kind(vars[j].name@) is None,
    ensures
        merge_vars::local_at(
            t.locals,
            owner,
            c.map.spec_span(vars[j].span),
            vars[j].name@,
            0,
        ) == Some(number(c, vars, next, j)),
{
    reveal(are_noted);
    let p = choose|p: int|
        0 <= p < base.functions.len() && (#[trigger] base.functions[p]).id == owner;
    assert(is_noted(t.locals, c, vars, base.functions[p].id, j));
    reveal(is_noted);
    let i = lemma_local_at(t.locals, owner, c.map.spec_span(vars[j].span), vars[j].name@, 0);
    assert(is_note(c, vars, next, t.locals[i]));
    reveal(is_note);
    let k = choose|k: int| #[trigger] notes_local(c, vars, next, t.locals[i], k);
    let f = vars[j].fn_id->0;
    let g = vars[k].fn_id->0;
    assert(c.fn_map@[f.0] == c.fn_map@[g.0]);
    assert(f == g);
    if j < k {
        assert(!is_same_place(c, vars[j], vars[k]));
    }
    if k < j {
        assert(!is_same_place(c, vars[k], vars[j]));
    }
}

/// The temporaries that the first `k` variables are given, as they are noted.
spec fn given_upto(c: VarContext<'_>, vars: Seq<Variable>, k: int) -> Seq<
    (Option<FnId>, TempPlace),
>
    decreases k,
{
    if k <= 0 {
        seq![]
    } else {
        let before = given_upto(c, vars, k - 1);
        match temp_of(c, vars, k - 1) {
            Some(place) => before.push((vars[k - 1].fn_id, place)),
            None => before,
        }
    }
}

/// The place of the variable at `j`, where it is a temporary of a body.
spec fn temp_of(c: VarContext<'_>, vars: Seq<Variable>, j: int) -> Option<TempPlace> {
    match (merge_vars::owner_in(c, vars[j]), merge_vars::temp_kind(vars[j].name@)) {
        (Some(owner), Some(kind)) => if is_local_of(c, vars, owner, j) {
            Some(TempPlace { owner, span: c.map.spec_span(vars[j].span), kind })
        } else {
            None
        },
        _ => None,
    }
}

proof fn lemma_given_pushed(
    v: Seq<(Option<FnId>, TempPlace)>,
    e: (Option<FnId>, TempPlace),
    body: Option<FnId>,
    place: TempPlace,
    k: int,
)
    requires
        0 <= k <= v.len(),
    ensures
        merge_vars::given(v.push(e), body, place, k) == merge_vars::given(v, body, place, k),
    decreases k,
{
    if k > 0 {
        lemma_given_pushed(v, e, body, place, k - 1);
        assert(v.push(e)[k - 1] == v[k - 1]);
    }
}

proof fn lemma_given_count(
    c: VarContext<'_>,
    vars: Seq<Variable>,
    next: u32,
    f: FnId,
    place: TempPlace,
    k: int,
)
    requires
        0 <= k <= vars.len(),
        stand_apart(vars, c),
        c.fn_map@.dom().contains(f.0),
        c.fn_map@[f.0] == place.owner.0,
    ensures
        merge_vars::given(
            given_upto(c, vars, k),
            Some(f),
            place,
            given_upto(c, vars, k).len() as int,
        ) == temp_ids(c, vars, next, place, k).len(),
    decreases k,
{
    if k > 0 {
        lemma_given_count(c, vars, next, f, place, k - 1);
        let before = given_upto(c, vars, k - 1);
        if let Some(own) = temp_of(c, vars, k - 1) {
            let e = (vars[k - 1].fn_id, own);
            lemma_given_pushed(before, e, Some(f), place, before.len() as int);
            let g = vars[k - 1].fn_id->0;
            assert(c.fn_map@[g.0] == own.owner.0);
            if own == place {
                assert(c.fn_map@[g.0] == c.fn_map@[f.0]);
                assert(g == f);
            }
            assert(is_temp_at(c, vars, place, k - 1) == (own == place));
        } else {
            assert(!is_temp_at(c, vars, place, k - 1));
        }
    }
}

proof fn lemma_temps_start(
    c: VarContext<'_>,
    vars: Seq<Variable>,
    next: u32,
    place: TempPlace,
    j: int,
    k: int,
)
    requires
        0 <= j <= k,
    ensures
        temp_ids(c, vars, next, place, j).is_prefix_of(temp_ids(c, vars, next, place, k)),
    decreases k,
{
    if j < k {
        lemma_temps_start(c, vars, next, place, j, k - 1);
    }
}

/// A temporary is the next one of its place.
proof fn lemma_temp_found(
    base: VarTablesView,
    t: VarTablesView,
    c: VarContext<'_>,
    vars: Seq<Variable>,
    next: u32,
    place: TempPlace,
    j: int,
)
    requires
        0 <= j < vars.len(),
        stand_apart(vars, c),
        are_noted(base, t, c, vars, next, base.functions.len() as int),
        program::holds_fn(base.functions, place.owner),
        temp_of(c, vars, j) == Some(place),
    ensures
        ({
            let all = merge_vars::temps_at(t.temps, place, t.temps.len() as int);
            let at = merge_vars::given(
                given_upto(c, vars, j),
                vars[j].fn_id,
                place,
                given_upto(c, vars, j).len() as int,
            );
            at < all.len() && all[at as int] == number(c, vars, next, j)
        }),
{
    reveal(are_noted);
    let n = vars.len() as int;
    let p = choose|p: int|
        0 <= p < base.functions.len() && (#[trigger] base.functions[p]).id == place.owner;
    assert(has_fn(base.functions, place.owner, base.functions.len() as int)) by {
        assert(base.functions[p].id == place.owner);
    }
    let f = vars[j].fn_id->0;
    lemma_given_count(c, vars, next, f, place, j);
    assert(is_temp_at(c, vars, place, j));
    lemma_temps_start(c, vars, next, place, j + 1, n);
    let some = temp_ids(c, vars, next, place, j + 1);
    let at = temp_ids(c, vars, next, place, j).len() as int;
    assert(some[at] == number(c, vars, next, j));
    assert(temp_ids(c, vars, next, place, n)[at] == some[at]);
}

proof fn lemma_file_var_pushed(v: Seq<FileVar>, e: FileVar, span: Span, name: Seq<char>, k: int)
    requires
        0 <= k <= v.len(),
        e.scope == 0,
    ensures
        merge_vars::file_var_at(v.push(e), 0, span, name, k) == match merge_vars::file_var_at(
            v,
            0,
            span,
            name,
            k,
        ) {
            Some(id) => Some(id),
            None => if e.span == span && e.name@ == name {
                Some(e.id)
            } else {
                None
            },
        },
    decreases v.len() - k,
{
    if k < v.len() {
        assert(v.push(e)[k] == v[k]);
        if !(v[k].scope == 0 && v[k].span == span && v[k].name@ == name) {
            lemma_file_var_pushed(v, e, span, name, k + 1);
        }
    } else {
        assert(v.push(e)[k] == e);
        assert(merge_vars::file_var_at(v.push(e), 0, span, name, k + 1) is None);
    }
}

/// A variable outside functions that is found stands there.
proof fn lemma_file_vars(all: Seq<Variable>, from: int, m: int, span: Span, name: Seq<char>)
    requires
        0 <= from <= m <= all.len(),
    ensures
        match merge_vars::file_var_at(
            unit::file_vars_of(all, 0, from, m),
            0,
            span,
            name,
            0,
        ) {
            Some(id) => exists|q: int|
                from <= q < m && (#[trigger] all[q]).fn_id is None && all[q].span == span
                    && all[q].name@ == name && all[q].id == id,
            None => forall|q: int|
                from <= q < m && (#[trigger] all[q]).fn_id is None && all[q].span == span
                    ==> all[q].name@ != name,
        },
    decreases m,
{
    if m > from {
        lemma_file_vars(all, from, m - 1, span, name);
        let before = unit::file_vars_of(all, 0, from, m - 1);
        let v = all[m - 1];
        if v.fn_id is None {
            let e = FileVar { scope: 0, span: v.span, name: v.name, id: v.id };
            lemma_file_var_pushed(before, e, span, name, 0);
        }
        if let Some(id) = merge_vars::file_var_at(before, 0, span, name, 0) {
            let q = choose|q: int|
                from <= q < m - 1 && (#[trigger] all[q]).fn_id is None && all[q].span == span
                    && all[q].name@ == name && all[q].id == id;
            assert(all[q].id == id);
        }
    }
}

/// A variable outside functions is found where it stands.
proof fn lemma_file_var_found(
    s: VarTablesView,
    r: VarTablesView,
    c: VarContext<'_>,
    vars: Seq<Variable>,
    j: int,
)
    requires
        0 <= j < vars.len(),
        stand_apart(vars, c),
        is_first(s, r, c, vars, vars.len() as int),
        !is_left_out(c, vars[j]),
        vars[j].fn_id is None,
    ensures
        merge_vars::file_var_at(
            unit::file_vars_of(
                r.variables,
                0,
                s.variables.len() as int,
                r.variables.len() as int,
            ),
            0,
            c.map.spec_span(vars[j].span),
            vars[j].name@,
            0,
        ) == Some(number(c, vars, s.next_var, j)),
{
    reveal(is_first);
    reveal(stands_at);
    let n = s.variables.len() as int;
    let k = vars.len() as int;
    let span = c.map.spec_span(vars[j].span);
    let name = vars[j].name@;
    lemma_file_vars(r.variables, n, r.variables.len() as int, span, name);
    lemma_taken_grows(c, vars, j, k);
    assert(stands_at(s, r, c, vars, j));
    let at = n + taken(c, vars, j);
    assert(r.variables[at].fn_id is None && r.variables[at].span == span
        && r.variables[at].name@ == name);
    let v = unit::file_vars_of(r.variables, 0, n, r.variables.len() as int);
    let id = merge_vars::file_var_at(v, 0, span, name, 0)->0;
    let q = choose|q: int|
        n <= q < r.variables.len() && (#[trigger] r.variables[q]).fn_id is None
            && r.variables[q].span == span && r.variables[q].name@ == name && r.variables[q].id
            == id;
    let i = lemma_taken_at(c, vars, k, q - n);
    assert(stands_at(s, r, c, vars, i));
    lemma_owned(c, vars, i);
    assert(vars[i].fn_id is None);
    if i < j {
        assert(!is_same_place(c, vars[i], vars[j]));
    }
    if j < i {
        assert(!is_same_place(c, vars[j], vars[i]));
    }
}

/// A variable of a function that is taken in belongs to one of the program's.
proof fn lemma_owned(c: VarContext<'_>, vars: Seq<Variable>, j: int)
    requires
        0 <= j < vars.len(),
        stand_apart(vars, c),
        !is_left_out(c, vars[j]),
    ensures
        vars[j].fn_id is Some <==> merge_vars::owner_in(c, vars[j]) is Some,
        vars[j].fn_id matches Some(f) ==> c.fn_map@.dom().contains(f.0),
{
    reveal(is_left_out);
    assert(vars[j].fn_id matches Some(f) ==> c.dropped@.contains(f.0) || c.fn_map@.dom().contains(
        f.0,
    ));
}

/// The tables once the first configuration of a source is merged and another one
/// begins: what it added is known by where it stands, and the parameters that the
/// other one extends have their numbers.
pub open spec fn reopened(
    s: VarTablesView,
    r: VarTablesView,
    params: Map<u32, u32>,
    remerged: Set<u32>,
) -> VarTablesView {
    merge_vars::bodies_noted(
        VarTablesView {
            var_map: params,
            locals: seq![],
            temps: seq![],
            given: seq![],
            file_vars: unit::file_vars_of(
                r.variables,
                0,
                s.variables.len() as int,
                r.variables.len() as int,
            ),
            ..r
        },
        remerged,
        r.functions.len() as int,
    )
}

/// The parameters that have their numbers before the variables are merged are
/// those of the unit's functions, under the numbers that they got.
pub open spec fn are_paired(
    params: Map<u32, u32>,
    numbers: Map<u32, u32>,
    vars: Seq<Variable>,
) -> bool {
    &&& forall|id: u32| #[trigger]
        params.dom().contains(id) ==> numbers.dom().contains(id) && params[id] == numbers[id]
    &&& forall|k: int|
        0 <= k < vars.len() && numbers.dom().contains((#[trigger] vars[k]).id.0) ==> (
        params.dom().contains(vars[k].id.0) <==> vars[k].fn_id is Some && vars[k].param_index is Some)
}

/// The functions have the locals that the first configuration gave them. The
/// parameters they list may have got their numbers since.
pub open spec fn same_bodies(a: Seq<FnView>, b: Seq<FnView>) -> bool {
    &&& a.len() == b.len()
    &&& forall|p: int|
        0 <= p < a.len() ==> (#[trigger] a[p]).id == b[p].id && a[p].locals == b[p].locals
}

proof fn lemma_numbers(
    c: VarContext<'_>,
    vars: Seq<Variable>,
    next: u32,
    j: int,
    k: int,
)
    requires
        0 <= j < k <= vars.len(),
        stand_apart(vars, c),
        !is_left_out(c, vars[j]),
    ensures
        numbers(c, vars, next, k).dom().contains(vars[j].id.0),
        numbers(c, vars, next, k)[vars[j].id.0] == number(c, vars, next, j).0,
    decreases k,
{
    if j < k - 1 {
        lemma_numbers(c, vars, next, j, k - 1);
        assert(vars[j].id != vars[k - 1].id);
    }
}

proof fn lemma_not_numbered(c: VarContext<'_>, vars: Seq<Variable>, next: u32, j: int, k: int)
    requires
        0 <= k <= j < vars.len(),
        stand_apart(vars, c),
    ensures
        !numbers(c, vars, next, k).dom().contains(vars[j].id.0),
    decreases k,
{
    if k > 0 {
        lemma_not_numbered(c, vars, next, j, k - 1);
        assert(vars[k - 1].id != vars[j].id);
    }
}

proof fn lemma_left_out_is_not_numbered(
    c: VarContext<'_>,
    vars: Seq<Variable>,
    next: u32,
    j: int,
    k: int,
)
    requires
        0 <= j < vars.len(),
        0 <= k <= vars.len(),
        stand_apart(vars, c),
        is_left_out(c, vars[j]),
    ensures
        !numbers(c, vars, next, k).dom().contains(vars[j].id.0),
    decreases k,
{
    if k > 0 {
        lemma_left_out_is_not_numbered(c, vars, next, j, k - 1);
        if k - 1 < j {
            assert(vars[k - 1].id != vars[j].id);
        }
        if j < k - 1 {
            assert(vars[j].id != vars[k - 1].id);
        }
    }
}

/// What the other configuration makes of the first `k` variables.
spec fn met_again(
    t: VarTablesView,
    params: Map<u32, u32>,
    c: VarContext<'_>,
    vars: Seq<Variable>,
    next: u32,
    k: int,
) -> VarTablesView {
    VarTablesView {
        var_map: params.union_prefer_right(numbers(c, vars, next, k)),
        given: given_upto(c, vars, k),
        ..t
    }
}

proof fn lemma_route_again(
    s: VarTablesView,
    first: VarTablesView,
    fns: Seq<FnView>,
    t: VarTablesView,
    params: Map<u32, u32>,
    a: VarContext<'_>,
    b: VarContext<'_>,
    vars: Seq<Variable>,
    k: int,
)
    requires
        0 < k <= vars.len(),
        are_configurations(a, b),
        stand_apart(vars, a),
        are_new_bodies(s, a),
        is_first(s, first, a, vars, vars.len() as int),
        same_bodies(first.functions, fns),
        s.next_var + vars.len() <= u32::MAX,
        are_paired(params, numbers(a, vars, s.next_var, vars.len() as int), vars),
        are_noted(
            VarTablesView {
                var_map: params,
                locals: seq![],
                temps: seq![],
                given: seq![],
                file_vars: unit::file_vars_of(
                    first.variables,
                    0,
                    s.variables.len() as int,
                    first.variables.len() as int,
                ),
                functions: fns,
                ..first
            },
            t,
            a,
            vars,
            s.next_var,
            fns.len() as int,
        ),
    ensures
        merge_vars::var_step(
            met_again(t, params, a, vars, s.next_var, k - 1),
            b,
            vars[k - 1],
        ) == met_again(t, params, a, vars, s.next_var, k),
{
    let next = s.next_var;
    let v = vars[k - 1];
    let n = vars.len() as int;
    let now = met_again(t, params, a, vars, next, k - 1);
    let then_map = params.union_prefer_right(numbers(a, vars, next, k));
    let base = VarTablesView {
        var_map: params,
        locals: seq![],
        temps: seq![],
        given: seq![],
        file_vars: unit::file_vars_of(
            first.variables,
            0,
            s.variables.len() as int,
            first.variables.len() as int,
        ),
        functions: fns,
        ..first
    };
    assert(t.file_vars == base.file_vars && t.variables == base.variables) by {
        reveal(are_noted);
    }
    assert(v.target is None);
    lemma_no_image(now.variables, v, 0);
    assert(a.map.spec_span(v.span) == b.map.spec_span(v.span));
    assert(merge_vars::owner_in(a, v) == merge_vars::owner_in(b, v));
    if is_left_out(a, v) {
        assert(merge_vars::var_route(now, b, v) is Skipped) by {
            reveal(is_left_out);
        }
        assert(temp_of(a, vars, k - 1) is None);
    } else {
        lemma_owned(a, vars, k - 1);
        lemma_numbers(a, vars, next, k - 1, n);
        lemma_not_numbered(a, vars, next, k - 1, k - 1);
        let id = number(a, vars, next, k - 1);
        assert(then_map =~= now.var_map.insert(v.id.0, id.0));
        if v.fn_id is Some && v.param_index is Some {
            assert(params.dom().contains(v.id.0));
            assert(now.var_map.dom().contains(v.id.0));
            assert(then_map =~= now.var_map);
            assert(temp_of(a, vars, k - 1) is None);
        } else {
            assert(!params.dom().contains(v.id.0));
            assert(!now.var_map.dom().contains(v.id.0));
            let dropped_or_dep = (v.fn_id matches Some(f) && b.dropped@.contains(f.0)) || (v.storage
                == StorageClass::Local && merge_vars::is_dep(
                b.files@,
                b.map.spec_span(v.span).file,
            ));
            assert(!dropped_or_dep) by {
                reveal(is_left_out);
            }
            if v.fn_id is None {
                lemma_file_var_found(s, first, a, vars, k - 1);
                assert(merge_vars::var_route(now, b, v) == (merge_vars::VarRoute::Is { id }));
                assert(temp_of(a, vars, k - 1) is None);
            } else {
                let f = v.fn_id->0;
                let owner = merge_vars::owner_in(a, v)->0;
                assert(is_body(a, owner.0)) by {
                    assert(a.fn_map@.dom().contains(f.0));
                }
                assert(b.remerged@.contains(owner.0));
                assert(merge_vars::extended(b, v) == Some(owner));
                assert(is_local_of(a, vars, owner, k - 1));
                lemma_is_held(s, first, fns, a, vars, owner, f);
                match merge_vars::temp_kind(v.name@) {
                    None => {
                        lemma_local_found(base, t, a, vars, next, owner, k - 1);
                        assert(merge_vars::var_route(now, b, v) == (merge_vars::VarRoute::Is {
                            id,
                        }));
                        assert(temp_of(a, vars, k - 1) is None);
                    },
                    Some(kind) => {
                        let place = TempPlace { owner, span: a.map.spec_span(v.span), kind };
                        assert(temp_of(a, vars, k - 1) == Some(place));
                        assert(merge_vars::temp_place(b, v) == Some(place));
                        lemma_temp_found(base, t, a, vars, next, place, k - 1);
                        assert(merge_vars::var_route(now, b, v) == (merge_vars::VarRoute::IsTemp {
                            id,
                        }));
                    },
                }
            }
        }
    }
}

/// A body that a function of the unit became is one of the program's.
proof fn lemma_is_held(
    s: VarTablesView,
    first: VarTablesView,
    fns: Seq<FnView>,
    c: VarContext<'_>,
    vars: Seq<Variable>,
    owner: FnId,
    f: FnId,
)
    requires
        are_new_bodies(s, c),
        is_first(s, first, c, vars, vars.len() as int),
        same_bodies(first.functions, fns),
        c.fn_map@.dom().contains(f.0),
        c.fn_map@[f.0] == owner.0,
    ensures
        program::holds_fn(fns, owner),
{
    reveal(is_first);
    let p = choose|p: int| 0 <= p < s.functions.len() && (#[trigger] s.functions[p]).id == owner;
    assert(first.functions[p].id == owner);
    assert(fns[p].id == owner);
}

proof fn lemma_again(
    s: VarTablesView,
    first: VarTablesView,
    fns: Seq<FnView>,
    params: Map<u32, u32>,
    a: VarContext<'_>,
    b: VarContext<'_>,
    vars: Seq<Variable>,
    k: int,
)
    requires
        0 <= k <= vars.len(),
        are_configurations(a, b),
        stand_apart(vars, a),
        are_new_bodies(s, a),
        is_first(s, first, a, vars, vars.len() as int),
        same_bodies(first.functions, fns),
        s.next_var + vars.len() <= u32::MAX,
        are_paired(params, first.var_map, vars),
    ensures
        ({
            let t = reopened(
                s,
                VarTablesView { functions: fns, ..first },
                params,
                b.remerged@,
            );
            merge_vars::vars_merged(t, b, vars, k) == met_again(
                t,
                params,
                a,
                vars,
                s.next_var,
                k,
            )
        }),
    decreases k,
{
    let next = s.next_var;
    let r = VarTablesView { functions: fns, ..first };
    let t = reopened(s, r, params, b.remerged@);
    let base = VarTablesView {
        var_map: params,
        locals: seq![],
        temps: seq![],
        given: seq![],
        file_vars: unit::file_vars_of(
            first.variables,
            0,
            s.variables.len() as int,
            first.variables.len() as int,
        ),
        functions: fns,
        ..first
    };
    assert(are_noted(base, t, a, vars, next, fns.len() as int)) by {
        lemma_reopened(s, first, fns, a, vars, base);
        lemma_bodies_noted(base, a, vars, next, b.remerged@, fns.len() as int);
    }
    assert(first.var_map == numbers(a, vars, next, vars.len() as int)) by {
        reveal(is_first);
    }
    if k == 0 {
        assert(t.var_map == params && t.given == base.given) by {
            reveal(are_noted);
        }
        assert(params.union_prefer_right(idmap::no_entries()) =~= params);
    } else {
        lemma_again(s, first, fns, params, a, b, vars, k - 1);
        lemma_route_again(s, first, fns, t, params, a, b, vars, k);
    }
}

proof fn lemma_reopened(
    s: VarTablesView,
    first: VarTablesView,
    fns: Seq<FnView>,
    c: VarContext<'_>,
    vars: Seq<Variable>,
    base: VarTablesView,
)
    requires
        are_new_bodies(s, c),
        is_first(s, first, c, vars, vars.len() as int),
        same_bodies(first.functions, fns),
        s.next_var + vars.len() <= u32::MAX,
        base.functions == fns,
        base.variables == first.variables,
    ensures
        forall|p: int, q: int|
            0 <= p < q < base.functions.len() ==> (#[trigger] base.functions[p]).id != (
            #[trigger] base.functions[q]).id,
        forall|p: int|
            0 <= p < base.functions.len() && is_body(c, (#[trigger] base.functions[p]).id.0)
                ==> base.functions[p].locals == own_locals(
                c,
                vars,
                s.next_var,
                base.functions[p].id,
                vars.len() as int,
            ),
        finds_all(base.variables, c, vars, s.next_var),
{
    assert(finds_all(base.variables, c, vars, s.next_var)) by {
        reveal(finds_all);
        assert forall|j: int| 0 <= j < vars.len() && !is_left_out(
            c,
            #[trigger] vars[j],
        ) implies program::var_by_id(base.variables, number(c, vars, s.next_var, j)) == Some(
            merge_vars::placed_var(c, vars[j], number(c, vars, s.next_var, j)),
        ) by {
            lemma_is_found(s, first, c, vars, j);
        }
    }
    reveal(is_first);
    assert forall|p: int, q: int| 0 <= p < q < base.functions.len() implies (
    #[trigger] base.functions[p]).id != (#[trigger] base.functions[q]).id by {
        assert(first.functions[p].id == fns[p].id);
        assert(first.functions[q].id == fns[q].id);
        assert(s.functions[p].id != s.functions[q].id);
    }
    assert forall|p: int|
        0 <= p < base.functions.len() && is_body(
            c,
            (#[trigger] base.functions[p]).id.0,
        ) implies base.functions[p].locals == own_locals(
        c,
        vars,
        s.next_var,
        base.functions[p].id,
        vars.len() as int,
    ) by {
        assert(first.functions[p].id == fns[p].id);
        let f = choose|f: u32| #[trigger]
            c.fn_map@.dom().contains(f) && c.fn_map@[f] == base.functions[p].id.0;
        assert(s.functions[p].id.0 == c.fn_map@[f]);
        assert(s.functions[p].locals.len() == 0);
        assert(first.functions[p].locals =~= own_locals(
            c,
            vars,
            s.next_var,
            fns[p].id,
            vars.len() as int,
        ));
    }
}

/// A configuration that has the variables of the first one finds every one of them,
/// under the number it has, and adds none: the parameters by their names, the
/// locals and the variables outside functions by where they stand, the temporaries
/// by their order there.
pub proof fn law_a_repeated_configuration_adds_no_variable(
    s: VarTablesView,
    fns: Seq<FnView>,
    params: Map<u32, u32>,
    a: VarContext<'_>,
    b: VarContext<'_>,
    vars: Seq<Variable>,
)
    requires
        are_configurations(a, b),
        stand_apart(vars, a),
        are_new_bodies(s, a),
        s.next_var + vars.len() <= u32::MAX,
        ({
            let first = merge_vars::vars_merged(opened(s), a, vars, vars.len() as int);
            same_bodies(first.functions, fns) && are_paired(params, first.var_map, vars)
        }),
    ensures
        ({
            let first = merge_vars::vars_merged(opened(s), a, vars, vars.len() as int);
            let again = merge_vars::vars_merged(
                reopened(s, VarTablesView { functions: fns, ..first }, params, b.remerged@),
                b,
                vars,
                vars.len() as int,
            );
            again.variables == first.variables && again.functions == fns && again.next_var
                == first.next_var && again.var_map == first.var_map
        }),
{
    let o = opened(s);
    let n = vars.len() as int;
    lemma_first(o, a, vars, n);
    let first = merge_vars::vars_merged(o, a, vars, n);
    lemma_again(o, first, fns, params, a, b, vars, n);
    assert(first.var_map == numbers(a, vars, s.next_var, n)) by {
        reveal(is_first);
    }
    assert(params.union_prefer_right(first.var_map) =~= first.var_map);
    let t = reopened(o, VarTablesView { functions: fns, ..first }, params, b.remerged@);
    lemma_noted_keeps(
        VarTablesView {
            var_map: params,
            locals: seq![],
            temps: seq![],
            given: seq![],
            file_vars: unit::file_vars_of(
                first.variables,
                0,
                s.variables.len() as int,
                first.variables.len() as int,
            ),
            functions: fns,
            ..first
        },
        b.remerged@,
        fns.len() as int,
    );
    assert(t.variables == first.variables && t.functions == fns && t.next_var == first.next_var);
}

proof fn lemma_noted_keeps(s: VarTablesView, remerged: Set<u32>, k: int)
    ensures
        merge_vars::bodies_noted(s, remerged, k).variables == s.variables,
        merge_vars::bodies_noted(s, remerged, k).functions == s.functions,
        merge_vars::bodies_noted(s, remerged, k).next_var == s.next_var,
{
    merge_vars::lemma_noted_keeps_symbols(s, remerged, k);
    unit::lemma_all_noted_keeps_next(s, remerged, k);
}

/// What the first configuration makes of a parameter: it has a number, under which
/// it is found by its name, and the functions change in their locals alone.
pub proof fn lemma_parameter_is_found(
    s: VarTablesView,
    a: VarContext<'_>,
    vars: Seq<Variable>,
    j: int,
)
    requires
        0 <= j < vars.len(),
        stand_apart(vars, a),
        are_new_bodies(s, a),
        a.mode == MergeMode::Full,
        a.remerged@ == Set::<u32>::empty(),
        a.dropped@ == Set::<u32>::empty(),
        s.next_var + vars.len() <= u32::MAX,
        vars[j].storage == StorageClass::Param,
    ensures
        ({
            let first = merge_vars::vars_merged(opened(s), a, vars, vars.len() as int);
            &&& first.var_map.dom().contains(vars[j].id.0)
            &&& program::var_by_id(
                first.variables,
                VarId(first.var_map[vars[j].id.0]),
            ) matches Some(v) && v.name@ == vars[j].name@
        }),
{
    let o = opened(s);
    let n = vars.len() as int;
    lemma_first(o, a, vars, n);
    let first = merge_vars::vars_merged(o, a, vars, n);
    assert(!is_left_out(a, vars[j])) by {
        reveal(is_left_out);
    }
    lemma_is_found(o, first, a, vars, j);
    lemma_numbers(a, vars, o.next_var, j, n);
    reveal(is_first);
}

/// The functions change in their locals alone.
pub proof fn lemma_bodies_keep_parameters(s: VarTablesView, a: VarContext<'_>, vars: Seq<Variable>)
    requires
        stand_apart(vars, a),
        are_new_bodies(s, a),
        a.mode == MergeMode::Full,
        a.remerged@ == Set::<u32>::empty(),
        s.next_var + vars.len() <= u32::MAX,
    ensures
        ({
            let first = merge_vars::vars_merged(opened(s), a, vars, vars.len() as int);
            first.functions.len() == s.functions.len() && forall|p: int|
                0 <= p < s.functions.len() ==> (#[trigger] first.functions[p]).id
                    == s.functions[p].id && first.functions[p].params == s.functions[p].params
        }),
{
    lemma_first(opened(s), a, vars, vars.len() as int);
    reveal(is_first);
}

} // verus!
