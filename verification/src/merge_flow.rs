//! Merging the constraints of a unit: which of them the mode replays, and how
//! those a body repeats are dropped.

use crate::idmap;
use crate::idmap::{IdMap, IdSet};
use crate::ir::{FileId, FlowConstraint, FnId, ReturnFlow, VarId};
use crate::merge::{FileInfo, MergeMode};
use crate::merge_fns;
use crate::merge_fns::is_shared_header_function;
use crate::merge_vars;
use crate::merge_vars::is_dep_file;
use crate::program;
use crate::program::{function_index, is_internal_function, variable_index, FnView, Function, Variable};
use crate::remap;
use crate::remap::{
    flow_eq, flow_fn, flow_is_placed, flow_vars, remap_flow, remap_return_flow, return_flow_eq,
    return_flow_is_placed, FlowView, ReturnView,
};
use vstd::prelude::*;

verus! {

pub open spec fn flow_views(v: Seq<FlowConstraint>) -> Seq<FlowView> {
    v.map_values(|f: FlowConstraint| f@)
}

pub open spec fn return_views(v: Seq<ReturnFlow>) -> Seq<ReturnView> {
    v.map_values(|f: ReturnFlow| f@)
}

/// The two variables a constraint ties together.
pub open spec fn ties(f: FlowView) -> Option<(VarId, VarId)> {
    match f {
        FlowView::Store { dst, src } => Some((dst, src)),
        FlowView::Copy { dst, src } => Some((dst, src)),
        FlowView::Load { dst, src } => Some((dst, src)),
        FlowView::AddrOfVar { dst, src } => Some((dst, src)),
        FlowView::UnwrapPointer { dst, src } => Some((dst, src)),
        FlowView::GepField { dst, base, .. } => Some((dst, base)),
        _ => None,
    }
}

fn tied(f: &FlowConstraint) -> (r: Option<(VarId, VarId)>)
    ensures
        r == ties(f@),
{
    match f {
        FlowConstraint::Store { dst, src } => Some((*dst, *src)),
        FlowConstraint::Copy { dst, src } => Some((*dst, *src)),
        FlowConstraint::Load { dst, src } => Some((*dst, *src)),
        FlowConstraint::AddrOfVar { dst, src } => Some((*dst, *src)),
        FlowConstraint::UnwrapPointer { dst, src } => Some((*dst, *src)),
        FlowConstraint::GepField { dst, base, field: _, field_name: _ } => Some((*dst, *base)),
        _ => None,
    }
}

/// What the constraints of a unit are merged along with.
pub struct FlowContext<'a> {
    pub mode: MergeMode,
    pub files: &'a Vec<FileInfo>,
    pub functions: &'a Vec<Function>,
    pub variables: &'a Vec<Variable>,
    /// The variables of the unit, under its own numbers.
    pub unit_vars: &'a Vec<Variable>,
    /// The header bodies that units share.
    pub users: &'a Vec<(FnId, FileId)>,
    /// Some function of the unit is such a body.
    pub shares_headers: bool,
    pub fn_map: &'a IdMap,
    pub var_map: &'a IdMap,
    pub dropped: &'a IdSet,
}

/// The function a constraint stands or falls with is a C++ function that no
/// other unit sees.
pub open spec fn names_internal(c: FlowContext<'_>, f: FlowView) -> bool {
    match remap::fn_of(f) {
        Some(own) => match idmap::found(c.fn_map@, own.0) {
            Some(id) => program::is_internal_fn(program::fn_views(c.functions@), FnId(id)),
            None => false,
        },
        None => false,
    }
}

/// A variable of the unit belongs to such a function.
pub open spec fn is_internal_var(c: FlowContext<'_>, v: VarId) -> bool {
    match idmap::found(c.var_map@, v.0) {
        Some(id) => match program::var_by_id(c.variables@, VarId(id)) {
            Some(own) => match own.fn_id {
                Some(f) => program::is_internal_fn(program::fn_views(c.functions@), f),
                None => false,
            },
            None => false,
        },
        None => false,
    }
}

pub open spec fn has_internal_var(c: FlowContext<'_>, f: FlowView) -> bool {
    exists|k: int|
        0 <= k < remap::vars_of(f).len() && is_internal_var(c, #[trigger] remap::vars_of(f)[k])
}

/// The unit's variables outside functions.
pub open spec fn file_scope(vars: Seq<Variable>, v: VarId) -> bool {
    exists|k: int| 0 <= k < vars.len() && (#[trigger] vars[k]).id == v && vars[k].fn_id is None
}

/// A variable outside functions that a constraint on an internal function
/// speaks of.
pub open spec fn is_seed(c: FlowContext<'_>, unit: Seq<FlowView>, v: VarId) -> bool {
    file_scope(c.unit_vars@, v) && exists|k: int|
        0 <= k < unit.len() && names_internal(c, #[trigger] unit[k]) && remap::vars_of(
            unit[k],
        ).contains(v)
}

/// A constraint ties the two variables together, both outside functions.
pub open spec fn linked(c: FlowContext<'_>, unit: Seq<FlowView>, a: VarId, b: VarId) -> bool {
    &&& file_scope(c.unit_vars@, a)
    &&& file_scope(c.unit_vars@, b)
    &&& exists|k: int|
        0 <= k < unit.len() && (ties(#[trigger] unit[k]) == Some((a, b)) || ties(unit[k]) == Some(
            (b, a),
        ))
}

/// A way from a seed to `path.last()`, each variable linked to the next.
pub open spec fn is_way(c: FlowContext<'_>, unit: Seq<FlowView>, path: Seq<VarId>) -> bool {
    &&& path.len() > 0
    &&& is_seed(c, unit, path[0])
    &&& forall|i: int|
        0 <= i < path.len() - 1 ==> linked(c, unit, #[trigger] path[i], path[i + 1])
}

/// The variables outside functions whose initializers lead to an internal
/// function.
pub open spec fn initializes(c: FlowContext<'_>, unit: Seq<FlowView>, v: VarId) -> bool {
    exists|path: Seq<VarId>| #[trigger] is_way(c, unit, path) && path.last() == v
}

fn is_file_scope(vars: &Vec<Variable>, v: VarId) -> (r: bool)
    ensures
        r == file_scope(vars@, v),
{
    let mut k: usize = 0;
    while k < vars.len()
        invariant
            k <= vars@.len(),
            forall|j: int|
                0 <= j < k ==> !((#[trigger] vars@[j]).id == v && vars@[j].fn_id is None),
        decreases vars@.len() - k,
    {
        if vars[k].id == v && vars[k].fn_id.is_none() {
            return true;
        }
        k += 1;
    }
    false
}

fn flow_names_internal(c: &FlowContext<'_>, f: &FlowConstraint) -> (r: bool)
    ensures
        r == names_internal(*c, f@),
{
    match flow_fn(f) {
        Some(own) => match c.fn_map.get(own.0) {
            Some(id) => is_internal_function(c.functions, FnId(id)),
            None => false,
        },
        None => false,
    }
}

fn var_is_internal(c: &FlowContext<'_>, v: VarId) -> (r: bool)
    ensures
        r == is_internal_var(*c, v),
{
    match c.var_map.get(v.0) {
        Some(id) => match variable_index(c.variables, VarId(id)) {
            Some(k) => match c.variables[k].fn_id {
                Some(f) => is_internal_function(c.functions, f),
                None => false,
            },
            None => false,
        },
        None => false,
    }
}

fn flow_has_internal_var(c: &FlowContext<'_>, f: &FlowConstraint) -> (r: bool)
    ensures
        r == has_internal_var(*c, f@),
{
    let vars = flow_vars(f);
    let mut k: usize = 0;
    while k < vars.len()
        invariant
            k <= vars@.len(),
            vars@ == remap::vars_of(f@),
            forall|j: int|
                0 <= j < k ==> !is_internal_var(*c, #[trigger] remap::vars_of(f@)[j]),
        decreases vars@.len() - k,
    {
        assert(vars@[k as int] == remap::vars_of(f@)[k as int]);
        if var_is_internal(c, vars[k]) {
            return true;
        }
        k += 1;
    }
    false
}

/// Everything in the set is on a way from a seed.
pub open spec fn all_lead(c: FlowContext<'_>, unit: Seq<FlowView>, set: Set<u32>) -> bool {
    forall|v: VarId| set.contains(v.0) ==> #[trigger] initializes(c, unit, v)
}

proof fn lemma_seed_leads(c: FlowContext<'_>, unit: Seq<FlowView>, v: VarId)
    requires
        is_seed(c, unit, v),
    ensures
        initializes(c, unit, v),
{
    let path = seq![v];
    assert(is_way(c, unit, path));
    assert(path.last() == v);
}

proof fn lemma_link_leads(c: FlowContext<'_>, unit: Seq<FlowView>, a: VarId, b: VarId)
    requires
        initializes(c, unit, a),
        linked(c, unit, a, b),
    ensures
        initializes(c, unit, b),
{
    let path = choose|path: Seq<VarId>| #[trigger]
        is_way(c, unit, path) && path.last() == a;
    let longer = path.push(b);
    assert forall|i: int| 0 <= i < longer.len() - 1 implies linked(
        c,
        unit,
        #[trigger] longer[i],
        longer[i + 1],
    ) by {
        if i < path.len() - 1 {
            assert(longer[i] == path[i] && longer[i + 1] == path[i + 1]);
        }
    }
    assert(is_way(c, unit, longer));
    assert(longer.last() == b);
}

/// A set that holds the seeds and everything linked to what it holds, holds
/// every variable on a way.
proof fn lemma_closed_holds_ways(
    c: FlowContext<'_>,
    unit: Seq<FlowView>,
    set: Set<u32>,
    path: Seq<VarId>,
)
    requires
        forall|v: VarId| #[trigger] is_seed(c, unit, v) ==> set.contains(v.0),
        forall|a: VarId, b: VarId| #[trigger]
            linked(c, unit, a, b) && set.contains(a.0) ==> set.contains(b.0),
        is_way(c, unit, path),
    ensures
        set.contains(path.last().0),
    decreases path.len(),
{
    if path.len() > 1 {
        let shorter = path.drop_last();
        assert forall|i: int| 0 <= i < shorter.len() - 1 implies linked(
            c,
            unit,
            #[trigger] shorter[i],
            shorter[i + 1],
        ) by {
            assert(linked(c, unit, path[i], path[i + 1]));
        }
        assert(is_way(c, unit, shorter));
        lemma_closed_holds_ways(c, unit, set, shorter);
        assert(linked(c, unit, path[path.len() - 2], path[path.len() - 1]));
        assert(shorter.last() == path[path.len() - 2]);
    }
}

fn add_seeds(c: &FlowContext<'_>, unit: &Vec<FlowConstraint>) -> (r: IdSet)
    ensures
        forall|v: VarId| #[trigger] is_seed(*c, flow_views(unit@), v) <==> r@.contains(v.0),
{
    let ghost all = flow_views(unit@);
    let mut out = IdSet::new();
    let mut k: usize = 0;
    while k < unit.len()
        invariant
            k <= unit@.len(),
            all == flow_views(unit@),
            forall|v: VarId| out@.contains(v.0) ==> is_seed(*c, all, v),
            forall|j: int, v: VarId|
                0 <= j < k && names_internal(*c, #[trigger] all[j]) && #[trigger] remap::vars_of(
                    all[j],
                ).contains(v) && file_scope(c.unit_vars@, v) ==> out@.contains(v.0),
        decreases unit@.len() - k,
    {
        let f = &unit[k];
        assert(all[k as int] == f@);
        if flow_names_internal(c, f) {
            let vars = flow_vars(f);
            let mut i: usize = 0;
            while i < vars.len()
                invariant
                    i <= vars@.len(),
                    k < unit@.len(),
                    all == flow_views(unit@),
                    f@ == all[k as int],
                    names_internal(*c, f@),
                    vars@ == remap::vars_of(f@),
                    forall|v: VarId| out@.contains(v.0) ==> is_seed(*c, all, v),
                    forall|j: int, v: VarId|
                        0 <= j < k && names_internal(*c, #[trigger] all[j]) && #[trigger]
                            remap::vars_of(all[j]).contains(v) && file_scope(c.unit_vars@, v)
                            ==> out@.contains(v.0),
                    forall|j: int|
                        0 <= j < i && file_scope(c.unit_vars@, #[trigger] vars@[j])
                            ==> out@.contains(vars@[j].0),
                decreases vars@.len() - i,
            {
                if is_file_scope(c.unit_vars, vars[i]) {
                    proof {
                        assert(remap::vars_of(all[k as int]).contains(vars@[i as int]));
                        assert(is_seed(*c, all, vars@[i as int]));
                        let before = out@;
                        assert forall|v: VarId| before.insert(vars@[i as int].0).contains(
                            v.0,
                        ) implies is_seed(*c, all, v) by {
                            if v.0 == vars@[i as int].0 {
                                assert(v == vars@[i as int]);
                            }
                        }
                    }
                    out.insert(vars[i].0);
                }
                i += 1;
            }
            assert forall|v: VarId|
                #[trigger] remap::vars_of(all[k as int]).contains(v) && file_scope(
                    c.unit_vars@,
                    v,
                ) implies out@.contains(v.0) by {
                let j = choose|j: int| 0 <= j < vars@.len() && vars@[j] == v;
                assert(file_scope(c.unit_vars@, vars@[j]));
            }
        }
        k += 1;
    }
    assert forall|v: VarId| #[trigger] is_seed(*c, all, v) implies out@.contains(v.0) by {
        let j = choose|j: int|
            0 <= j < all.len() && names_internal(*c, #[trigger] all[j]) && remap::vars_of(
                all[j],
            ).contains(v);
        assert(names_internal(*c, all[j]));
    }
    out
}

/// How many of the unit's variables the set does not hold.
pub open spec fn missing(vars: Seq<Variable>, set: Set<u32>, k: int) -> nat
    decreases k,
{
    if k <= 0 {
        0
    } else {
        missing(vars, set, k - 1) + if set.contains(vars[k - 1].id.0) {
            0nat
        } else {
            1
        }
    }
}

proof fn lemma_missing(vars: Seq<Variable>, set: Set<u32>, id: u32, k: int)
    requires
        0 <= k <= vars.len(),
    ensures
        missing(vars, set.insert(id), k) <= missing(vars, set, k),
        !set.contains(id) && (exists|j: int| 0 <= j < k && (#[trigger] vars[j]).id.0 == id)
            ==> missing(vars, set.insert(id), k) < missing(vars, set, k),
    decreases k,
{
    if k > 0 {
        lemma_missing(vars, set, id, k - 1);
        if vars[k - 1].id.0 != id && exists|j: int| 0 <= j < k && (#[trigger] vars[j]).id.0 == id {
            let j = choose|j: int| 0 <= j < k && (#[trigger] vars[j]).id.0 == id;
            assert(0 <= j < k - 1);
        }
    }
}

/// One round over the constraints: whatever a link ties to a variable of the
/// set joins it.
fn spread(c: &FlowContext<'_>, unit: &Vec<FlowConstraint>, set: &mut IdSet) -> (changed: bool)
    requires
        all_lead(*c, flow_views(unit@), old(set)@),
    ensures
        all_lead(*c, flow_views(unit@), final(set)@),
        old(set)@.subset_of(final(set)@),
        changed ==> missing(c.unit_vars@, final(set)@, c.unit_vars@.len() as int) < missing(
            c.unit_vars@,
            old(set)@,
            c.unit_vars@.len() as int,
        ),
        !changed ==> final(set)@ == old(set)@ && forall|a: VarId, b: VarId| #[trigger]
            linked(*c, flow_views(unit@), a, b) && old(set)@.contains(a.0)
                ==> old(set)@.contains(b.0),
{
    let ghost all = flow_views(unit@);
    let ghost n = c.unit_vars@.len() as int;
    let ghost first = set@;
    let mut changed = false;
    let mut k: usize = 0;
    while k < unit.len()
        invariant
            k <= unit@.len(),
            all == flow_views(unit@),
            n == c.unit_vars@.len(),
            all_lead(*c, all, set@),
            first.subset_of(set@),
            changed ==> missing(c.unit_vars@, set@, n) < missing(c.unit_vars@, first, n),
            !changed ==> set@ == first && forall|j: int|
                0 <= j < k ==> match ties(#[trigger] all[j]) {
                    Some((a, b)) => file_scope(c.unit_vars@, a) && file_scope(c.unit_vars@, b)
                        ==> (set@.contains(a.0) <==> set@.contains(b.0)),
                    None => true,
                },
        decreases unit@.len() - k,
    {
        assert(all[k as int] == unit@[k as int]@);
        match tied(&unit[k]) {
            Some((a, b)) => {
                if is_file_scope(c.unit_vars, a) && is_file_scope(c.unit_vars, b) {
                    let has_a = set.contains(a.0);
                    let has_b = set.contains(b.0);
                    if (has_a || has_b) && (!has_a || !has_b) {
                        let joins = if has_a {
                            b
                        } else {
                            a
                        };
                        proof {
                            let holds = if has_a {
                                a
                            } else {
                                b
                            };
                            assert(ties(all[k as int]) == Some((a, b)));
                            assert(linked(*c, all, holds, joins));
                            assert(initializes(*c, all, holds));
                            lemma_link_leads(*c, all, holds, joins);
                            lemma_missing(c.unit_vars@, set@, joins.0, n);
                            let j = choose|j: int|
                                0 <= j < n && (#[trigger] c.unit_vars@[j]).id == joins
                                    && c.unit_vars@[j].fn_id is None;
                            assert(c.unit_vars@[j].id.0 == joins.0);
                            let before = set@;
                            assert forall|v: VarId|
                                before.insert(joins.0).contains(v.0) implies #[trigger] initializes(
                                *c,
                                all,
                                v,
                            ) by {
                                if v.0 == joins.0 {
                                    assert(v == joins);
                                }
                            }
                        }
                        set.insert(joins.0);
                        changed = true;
                    }
                }
            },
            None => {},
        }
        k += 1;
    }
    proof {
        if !changed {
            assert forall|a: VarId, b: VarId| #[trigger]
                linked(*c, all, a, b) && set@.contains(a.0) implies set@.contains(b.0) by {
                let j = choose|j: int|
                    0 <= j < all.len() && (ties(#[trigger] all[j]) == Some((a, b)) || ties(all[j])
                        == Some((b, a)));
                assert(file_scope(c.unit_vars@, a));
                assert(file_scope(c.unit_vars@, b));
            }
        }
    }
    changed
}

/// The variables outside functions whose initializers lead to an internal
/// function: those a constraint on one speaks of, and all that constraints
/// tie to them.
pub fn internal_initializers(c: &FlowContext<'_>, unit: &Vec<FlowConstraint>) -> (r: IdSet)
    ensures
        forall|v: VarId|
            r@.contains(v.0) <==> #[trigger] initializes(*c, flow_views(unit@), v),
{
    let ghost all = flow_views(unit@);
    let mut set = add_seeds(c, unit);
    proof {
        assert forall|v: VarId| set@.contains(v.0) implies #[trigger] initializes(*c, all, v) by {
            assert(is_seed(*c, all, v));
            lemma_seed_leads(*c, all, v);
        }
    }
    let mut changed = true;
    while changed
        invariant
            all == flow_views(unit@),
            all_lead(*c, all, set@),
            forall|v: VarId| #[trigger] is_seed(*c, all, v) ==> set@.contains(v.0),
            !changed ==> forall|a: VarId, b: VarId| #[trigger]
                linked(*c, all, a, b) && set@.contains(a.0) ==> set@.contains(b.0),
        decreases
            missing(c.unit_vars@, set@, c.unit_vars@.len() as int),
            if changed {
                1int
            } else {
                0
            },
    {
        changed = spread(c, unit, &mut set);
    }
    assert forall|v: VarId| #[trigger] initializes(*c, all, v) implies set@.contains(v.0) by {
        let path = choose|path: Seq<VarId>| #[trigger]
            is_way(*c, all, path) && path.last() == v;
        lemma_closed_holds_ways(*c, all, set@, path);
    }
    set
}

/// A constraint between two such variables.
pub open spec fn supports(c: FlowContext<'_>, unit: Seq<FlowView>, f: FlowView) -> bool {
    match ties(f) {
        Some((a, b)) => initializes(c, unit, a) && initializes(c, unit, b),
        None => false,
    }
}

/// A constraint that a receiving unit replays from a header it includes: it is
/// about an internal function, inside one, or initializes towards one.
pub open spec fn is_replayed(c: FlowContext<'_>, unit: Seq<FlowView>, f: FlowView) -> bool {
    has_internal_var(c, f) || names_internal(c, f) || supports(c, unit, f)
}

/// A variable of a unit that takes part in sharing header bodies belongs to one
/// that units share.
pub open spec fn is_shared_var(c: FlowContext<'_>, v: VarId) -> bool {
    c.shares_headers && exists|k: int|
        0 <= k < c.unit_vars@.len() && (#[trigger] c.unit_vars@[k]).id == v && (
        match c.unit_vars@[k].fn_id {
            Some(f) => match idmap::found(c.fn_map@, f.0) {
                Some(id) => merge_fns::is_shared(c.users@, FnId(id)),
                None => false,
            },
            None => false,
        })
}

pub open spec fn has_shared_var(c: FlowContext<'_>, f: FlowView) -> bool {
    exists|k: int|
        0 <= k < remap::vars_of(f).len() && is_shared_var(c, #[trigger] remap::vars_of(f)[k])
}

fn var_is_shared(c: &FlowContext<'_>, v: VarId) -> (r: bool)
    ensures
        r == is_shared_var(*c, v),
{
    if !c.shares_headers {
        return false;
    }
    let mut k: usize = 0;
    while k < c.unit_vars.len()
        invariant
            c.shares_headers,
            k <= c.unit_vars@.len(),
            forall|j: int|
                0 <= j < k ==> !((#[trigger] c.unit_vars@[j]).id == v && (
                match c.unit_vars@[j].fn_id {
                    Some(f) => match idmap::found(c.fn_map@, f.0) {
                        Some(id) => merge_fns::is_shared(c.users@, FnId(id)),
                        None => false,
                    },
                    None => false,
                })),
        decreases c.unit_vars@.len() - k,
    {
        let own = &c.unit_vars[k];
        if own.id == v {
            match own.fn_id {
                Some(f) => {
                    match c.fn_map.get(f.0) {
                        Some(id) => {
                            if is_shared_header_function(c.users, FnId(id)) {
                                return true;
                            }
                        },
                        None => {},
                    }
                },
                None => {},
            }
        }
        k += 1;
    }
    false
}

fn flow_has_shared_var(c: &FlowContext<'_>, f: &FlowConstraint) -> (r: bool)
    ensures
        r == has_shared_var(*c, f@),
{
    let vars = flow_vars(f);
    let mut k: usize = 0;
    while k < vars.len()
        invariant
            k <= vars@.len(),
            vars@ == remap::vars_of(f@),
            forall|j: int| 0 <= j < k ==> !is_shared_var(*c, #[trigger] remap::vars_of(f@)[j]),
        decreases vars@.len() - k,
    {
        assert(vars@[k as int] == remap::vars_of(f@)[k as int]);
        if var_is_shared(c, vars[k]) {
            return true;
        }
        k += 1;
    }
    false
}

/// The constraints of the program, and those by which repeated ones are told.
pub struct FlowTables {
    pub flow: Vec<FlowConstraint>,
    /// Every constraint of a header body that units share.
    pub header_flow: Vec<FlowConstraint>,
    /// The constraints of the unit's configurations.
    pub variant_flow: Vec<FlowConstraint>,
}

pub struct FlowTablesView {
    pub flow: Seq<FlowView>,
    pub header_flow: Seq<FlowView>,
    pub variant_flow: Seq<FlowView>,
}

impl FlowTables {
    pub open spec fn view(&self) -> FlowTablesView {
        FlowTablesView {
            flow: flow_views(self.flow@),
            header_flow: flow_views(self.header_flow@),
            variant_flow: flow_views(self.variant_flow@),
        }
    }
}

/// The constraint is merged at all: the mode takes it over, and everything it
/// speaks of has its number.
pub open spec fn is_taken(c: FlowContext<'_>, unit: Seq<FlowView>, f: FlowView) -> bool {
    (c.mode != MergeMode::SymbolsOnly || is_replayed(c, unit, f)) && remap::is_placed(
        f,
        c.fn_map@,
        c.var_map@,
    )
}

/// The tables once the constraint is merged. One of a shared header body is
/// kept once in the program, one of a configuration once in the unit.
pub open spec fn flow_step(
    s: FlowTablesView,
    c: FlowContext<'_>,
    unit: Seq<FlowView>,
    f: FlowView,
) -> FlowTablesView {
    let own = remap::flow_in(f, c.fn_map@, c.var_map@);
    if !is_taken(c, unit, f) {
        s
    } else if has_shared_var(c, f) {
        if s.header_flow.contains(own) {
            s
        } else {
            FlowTablesView {
                flow: s.flow.push(own),
                header_flow: s.header_flow.push(own),
                ..s
            }
        }
    } else if c.mode == MergeMode::Variant {
        if s.variant_flow.contains(own) {
            s
        } else {
            FlowTablesView {
                flow: s.flow.push(own),
                variant_flow: s.variant_flow.push(own),
                ..s
            }
        }
    } else {
        FlowTablesView { flow: s.flow.push(own), ..s }
    }
}

/// The tables once the first `k` constraints of the unit are merged.
pub open spec fn flow_merged(
    s: FlowTablesView,
    c: FlowContext<'_>,
    unit: Seq<FlowView>,
    k: int,
) -> FlowTablesView
    decreases k,
{
    if k <= 0 {
        s
    } else {
        flow_step(flow_merged(s, c, unit, k - 1), c, unit, unit[k - 1])
    }
}

fn holds_flow(v: &Vec<FlowConstraint>, f: &FlowConstraint) -> (r: bool)
    ensures
        r == flow_views(v@).contains(f@),
{
    let mut k: usize = 0;
    while k < v.len()
        invariant
            k <= v@.len(),
            forall|j: int| 0 <= j < k ==> #[trigger] flow_views(v@)[j] != f@,
        decreases v@.len() - k,
    {
        assert(flow_views(v@)[k as int] == v@[k as int]@);
        if flow_eq(&v[k], f) {
            return true;
        }
        k += 1;
    }
    false
}

fn push_flow(v: &mut Vec<FlowConstraint>, f: FlowConstraint)
    ensures
        flow_views(final(v)@) == flow_views(old(v)@).push(f@),
{
    v.push(f);
    assert(flow_views(v@) =~= flow_views(old(v)@).push(f@));
}

impl FlowTables {
    fn merge_constraint(
        &mut self,
        c: &FlowContext<'_>,
        unit: &Vec<FlowConstraint>,
        initializers: &IdSet,
        f: &FlowConstraint,
    )
        requires
            c.mode == MergeMode::SymbolsOnly ==> forall|v: VarId|
                initializers@.contains(v.0) <==> #[trigger] initializes(*c, flow_views(unit@), v),
        ensures
            final(self)@ == flow_step(old(self)@, *c, flow_views(unit@), f@),
    {
        if c.mode == MergeMode::SymbolsOnly {
            let supporting = match tied(f) {
                Some((a, b)) => {
                    assert(initializes(*c, flow_views(unit@), a) == initializers@.contains(a.0));
                    assert(initializes(*c, flow_views(unit@), b) == initializers@.contains(b.0));
                    initializers.contains(a.0) && initializers.contains(b.0)
                },
                None => false,
            };
            if !flow_has_internal_var(c, f) && !flow_names_internal(c, f) && !supporting {
                return;
            }
        }
        if !flow_is_placed(f, c.fn_map, c.var_map) {
            return;
        }
        let own = remap_flow(f, c.fn_map, c.var_map);
        if flow_has_shared_var(c, f) {
            if holds_flow(&self.header_flow, &own) {
                return;
            }
            push_flow(&mut self.header_flow, remap_flow(f, c.fn_map, c.var_map));
        } else if c.mode == MergeMode::Variant {
            if holds_flow(&self.variant_flow, &own) {
                return;
            }
            push_flow(&mut self.variant_flow, remap_flow(f, c.fn_map, c.var_map));
        }
        push_flow(&mut self.flow, own);
    }

    /// Merge the constraints of a unit in turn.
    pub fn merge_flow(&mut self, c: &FlowContext<'_>, unit: &Vec<FlowConstraint>)
        ensures
            final(self)@ == flow_merged(
                old(self)@,
                *c,
                flow_views(unit@),
                unit@.len() as int,
            ),
    {
        let ghost first = self@;
        let ghost all = flow_views(unit@);
        let initializers = if c.mode == MergeMode::SymbolsOnly {
            internal_initializers(c, unit)
        } else {
            IdSet::new()
        };
        let mut k: usize = 0;
        while k < unit.len()
            invariant
                k <= unit@.len(),
                all == flow_views(unit@),
                self@ == flow_merged(first, *c, all, k as int),
                c.mode == MergeMode::SymbolsOnly ==> forall|v: VarId|
                    initializers@.contains(v.0) <==> #[trigger] initializes(*c, all, v),
            decreases unit@.len() - k,
        {
            assert(all[k as int] == unit@[k as int]@);
            self.merge_constraint(c, unit, &initializers, &unit[k]);
            k += 1;
        }
    }
}

/// A configuration adds no constraint twice: what the unit's configurations
/// held before, and what this one repeats, is in the program once.
pub proof fn law_configurations_repeat_no_constraint(
    s: FlowTablesView,
    c: FlowContext<'_>,
    unit: Seq<FlowView>,
    k: int,
)
    requires
        0 <= k <= unit.len(),
        c.mode == MergeMode::Variant,
        s.variant_flow.no_duplicates(),
        s.header_flow.no_duplicates(),
    ensures
        flow_merged(s, c, unit, k).variant_flow.no_duplicates(),
        flow_merged(s, c, unit, k).header_flow.no_duplicates(),
        flow_merged(s, c, unit, k).flow.len() - s.flow.len() == flow_merged(
            s,
            c,
            unit,
            k,
        ).variant_flow.len() - s.variant_flow.len() + flow_merged(s, c, unit, k).header_flow.len()
            - s.header_flow.len(),
    decreases k,
{
    if k > 0 {
        law_configurations_repeat_no_constraint(s, c, unit, k - 1);
    }
}

/// Every merged constraint speaks of the program's own numbers: of those the
/// unit's variables and functions have.
pub proof fn law_merged_constraints_are_placed(
    s: FlowTablesView,
    c: FlowContext<'_>,
    unit: Seq<FlowView>,
    k: int,
    i: int,
)
    requires
        0 <= k <= unit.len(),
        s.flow.len() <= i < flow_merged(s, c, unit, k).flow.len(),
    ensures
        exists|j: int|
            0 <= j < k && flow_merged(s, c, unit, k).flow[i] == remap::flow_in(
                #[trigger] unit[j],
                c.fn_map@,
                c.var_map@,
            ) && remap::is_placed(unit[j], c.fn_map@, c.var_map@),
    decreases k,
{
    if k > 0 {
        let before = flow_merged(s, c, unit, k - 1);
        let after = flow_merged(s, c, unit, k);
        if i < before.flow.len() {
            law_merged_constraints_are_placed(s, c, unit, k - 1, i);
            assert(after.flow[i] == before.flow[i]);
            let j = choose|j: int|
                0 <= j < k - 1 && before.flow[i] == remap::flow_in(
                    #[trigger] unit[j],
                    c.fn_map@,
                    c.var_map@,
                ) && remap::is_placed(unit[j], c.fn_map@, c.var_map@);
            assert(after.flow[i] == remap::flow_in(unit[j], c.fn_map@, c.var_map@));
        } else {
            assert(after.flow[i] == remap::flow_in(unit[k - 1], c.fn_map@, c.var_map@));
        }
    }
}

/// What the functions of a program return.
pub struct Returns {
    pub entries: Vec<(FnId, Vec<ReturnFlow>)>,
}

pub open spec fn entry_views(v: Seq<(FnId, Vec<ReturnFlow>)>) -> Seq<(FnId, Seq<ReturnView>)> {
    v.map_values(|e: (FnId, Vec<ReturnFlow>)| (e.0, return_views(e.1@)))
}

/// The first entry of a function, from position `k`.
pub open spec fn entry_at(v: Seq<(FnId, Seq<ReturnView>)>, f: FnId, k: int) -> Option<int>
    decreases v.len() - k,
{
    if k < 0 || k >= v.len() {
        None
    } else if v[k].0 == f {
        Some(k)
    } else {
        entry_at(v, f, k + 1)
    }
}

/// The facts that have their numbers, over the program's, of the first `k`.
pub open spec fn returns_in(
    v: Seq<ReturnView>,
    fns: Map<u32, u32>,
    vars: Map<u32, u32>,
    k: int,
) -> Seq<ReturnView>
    decreases k,
{
    if k <= 0 {
        seq![]
    } else {
        let before = returns_in(v, fns, vars, k - 1);
        if remap::return_is_placed(v[k - 1], fns, vars) {
            before.push(remap::return_in(v[k - 1], fns, vars))
        } else {
            before
        }
    }
}

/// The facts with the first `k` of the others added that they do not hold.
pub open spec fn returns_joined(held: Seq<ReturnView>, more: Seq<ReturnView>, k: int) -> Seq<
    ReturnView,
>
    decreases k,
{
    if k <= 0 {
        held
    } else {
        let before = returns_joined(held, more, k - 1);
        if before.contains(more[k - 1]) {
            before
        } else {
            before.push(more[k - 1])
        }
    }
}

/// The function whose returns are merged, in the program.
pub open spec fn returning_fn(c: FlowContext<'_>, f: FnId) -> Option<FnId> {
    let fns = program::fn_views(c.functions@);
    match idmap::found(c.fn_map@, f.0) {
        Some(id) => if c.dropped@.contains(f.0) || (program::fn_by_id(fns, FnId(id)) matches Some(
            own,
        ) && merge_vars::is_dep(c.files@, own.file)) || (c.mode == MergeMode::SymbolsOnly
            && !program::is_internal_fn(fns, FnId(id))) {
            None
        } else {
            Some(FnId(id))
        },
        None => None,
    }
}

/// The entries once the returns of one function of the unit are merged. A body
/// that repeats another's repeats its returns too; those are held once.
pub open spec fn return_step(
    s: Seq<(FnId, Seq<ReturnView>)>,
    c: FlowContext<'_>,
    f: FnId,
    unit: Seq<ReturnView>,
) -> Seq<(FnId, Seq<ReturnView>)> {
    match returning_fn(c, f) {
        Some(own) => {
            let facts = returns_in(unit, c.fn_map@, c.var_map@, unit.len() as int);
            let held = match entry_at(s, own, 0) {
                Some(k) => s[k].1,
                None => seq![],
            };
            let all = if c.mode == MergeMode::Variant || merge_fns::is_shared(c.users@, own) {
                returns_joined(held, facts, facts.len() as int)
            } else {
                held + facts
            };
            match entry_at(s, own, 0) {
                Some(k) => s.update(k, (own, all)),
                None => s.push((own, all)),
            }
        },
        None => s,
    }
}

/// The entries once the returns of the first `k` functions are merged.
pub open spec fn returns_merged(
    s: Seq<(FnId, Seq<ReturnView>)>,
    c: FlowContext<'_>,
    unit: Seq<(FnId, Seq<ReturnView>)>,
    k: int,
) -> Seq<(FnId, Seq<ReturnView>)>
    decreases k,
{
    if k <= 0 {
        s
    } else {
        return_step(returns_merged(s, c, unit, k - 1), c, unit[k - 1].0, unit[k - 1].1)
    }
}

fn placed_returns(c: &FlowContext<'_>, unit: &Vec<ReturnFlow>) -> (r: Vec<ReturnFlow>)
    ensures
        return_views(r@) == returns_in(
            return_views(unit@),
            c.fn_map@,
            c.var_map@,
            unit@.len() as int,
        ),
{
    let ghost all = return_views(unit@);
    let mut out: Vec<ReturnFlow> = Vec::new();
    let mut k: usize = 0;
    assert(return_views(out@) =~= seq![]);
    while k < unit.len()
        invariant
            k <= unit@.len(),
            all == return_views(unit@),
            return_views(out@) == returns_in(all, c.fn_map@, c.var_map@, k as int),
        decreases unit@.len() - k,
    {
        assert(all[k as int] == unit@[k as int]@);
        if return_flow_is_placed(&unit[k], c.fn_map, c.var_map) {
            let ghost before = out@;
            let own = remap_return_flow(&unit[k], c.fn_map, c.var_map);
            out.push(own);
            assert(return_views(out@) =~= return_views(before).push(own@));
        }
        k += 1;
    }
    out
}

fn holds_return(v: &Vec<ReturnFlow>, f: &ReturnFlow) -> (r: bool)
    ensures
        r == return_views(v@).contains(f@),
{
    let mut k: usize = 0;
    while k < v.len()
        invariant
            k <= v@.len(),
            forall|j: int| 0 <= j < k ==> #[trigger] return_views(v@)[j] != f@,
        decreases v@.len() - k,
    {
        assert(return_views(v@)[k as int] == v@[k as int]@);
        if return_flow_eq(&v[k], f) {
            return true;
        }
        k += 1;
    }
    false
}

fn copy_return(f: &ReturnFlow) -> (r: ReturnFlow)
    ensures
        r@ == f@,
{
    match f {
        ReturnFlow::AddrOfVar { src } => ReturnFlow::AddrOfVar { src: *src },
        ReturnFlow::AddrOfFn { callee } => ReturnFlow::AddrOfFn { callee: *callee },
        ReturnFlow::Copy { src } => ReturnFlow::Copy { src: *src },
        ReturnFlow::Call { callee_name } => ReturnFlow::Call { callee_name: callee_name.clone() },
    }
}

fn add_returns(held: &mut Vec<ReturnFlow>, facts: &Vec<ReturnFlow>, once: bool)
    ensures
        return_views(final(held)@) == if once {
            returns_joined(return_views(old(held)@), return_views(facts@), facts@.len() as int)
        } else {
            return_views(old(held)@) + return_views(facts@)
        },
{
    let ghost first = return_views(held@);
    let ghost all = return_views(facts@);
    let mut k: usize = 0;
    assert(first + all.take(0) =~= first);
    while k < facts.len()
        invariant
            k <= facts@.len(),
            all == return_views(facts@),
            return_views(held@) == if once {
                returns_joined(first, all, k as int)
            } else {
                first + all.take(k as int)
            },
        decreases facts@.len() - k,
    {
        assert(all[k as int] == facts@[k as int]@);
        if !once || !holds_return(held, &facts[k]) {
            let ghost before = held@;
            held.push(copy_return(&facts[k]));
            assert(return_views(held@) =~= return_views(before).push(all[k as int]));
        }
        proof {
            assert(first + all.take(k + 1) =~= (first + all.take(k as int)).push(all[k as int]));
        }
        k += 1;
    }
    assert(all.take(k as int) =~= all);
}

impl Returns {
    pub open spec fn view(&self) -> Seq<(FnId, Seq<ReturnView>)> {
        entry_views(self.entries@)
    }

    fn find(&self, f: FnId) -> (r: Option<usize>)
        ensures
            match r {
                Some(k) => entry_at(self@, f, 0) == Some(k as int) && k < self.entries@.len(),
                None => entry_at(self@, f, 0) is None,
            },
    {
        let mut k: usize = 0;
        while k < self.entries.len()
            invariant
                k <= self.entries@.len(),
                entry_at(self@, f, 0) == entry_at(self@, f, k as int),
            decreases self.entries@.len() - k,
        {
            assert(self@[k as int].0 == self.entries@[k as int].0);
            if self.entries[k].0 == f {
                return Some(k);
            }
            k += 1;
        }
        None
    }

    fn merge_function(&mut self, c: &FlowContext<'_>, f: FnId, unit: &Vec<ReturnFlow>)
        ensures
            final(self)@ == return_step(old(self)@, *c, f, return_views(unit@)),
    {
        if c.dropped.contains(f.0) {
            return;
        }
        let own = match c.fn_map.get(f.0) {
            Some(id) => FnId(id),
            None => {
                return;
            },
        };
        match function_index(c.functions, own) {
            Some(k) => {
                assert(program::fn_views(c.functions@)[k as int] == c.functions@[k as int]@);
                if is_dep_file(c.files, c.functions[k].file) {
                    return;
                }
            },
            None => {},
        }
        if c.mode == MergeMode::SymbolsOnly && !is_internal_function(c.functions, own) {
            return;
        }
        assert(returning_fn(*c, f) == Some(own));
        let facts = placed_returns(c, unit);
        assert(return_views(facts@).len() == facts@.len());
        assert(return_views(unit@).len() == unit@.len());
        let once = c.mode == MergeMode::Variant || is_shared_header_function(c.users, own);
        let ghost before = self.entries@;
        match self.find(own) {
            Some(k) => {
                let mut held: Vec<ReturnFlow> = Vec::new();
                std::mem::swap(&mut held, &mut self.entries[k].1);
                assert(return_views(held@) == entry_views(before)[k as int].1);
                add_returns(&mut held, &facts, once);
                self.entries.set(k, (own, held));
                proof {
                    lemma_entry_at(entry_views(before), own, 0);
                    assert(self@ =~= entry_views(before).update(
                        k as int,
                        (own, return_views(held@)),
                    ));
                }
            },
            None => {
                let mut held: Vec<ReturnFlow> = Vec::new();
                assert(return_views(held@) =~= seq![]);
                add_returns(&mut held, &facts, once);
                self.entries.push((own, held));
                assert(self@ =~= entry_views(before).push((own, return_views(held@))));
            },
        }
    }

    /// Merge what the functions of a unit return.
    pub fn merge_returns(&mut self, c: &FlowContext<'_>, unit: &Vec<(FnId, Vec<ReturnFlow>)>)
        ensures
            final(self)@ == returns_merged(
                old(self)@,
                *c,
                entry_views(unit@),
                unit@.len() as int,
            ),
    {
        let ghost first = self@;
        let ghost all = entry_views(unit@);
        let mut k: usize = 0;
        while k < unit.len()
            invariant
                k <= unit@.len(),
                all == entry_views(unit@),
                self@ == returns_merged(first, *c, all, k as int),
            decreases unit@.len() - k,
        {
            assert(all[k as int] == (unit@[k as int].0, return_views(unit@[k as int].1@)));
            self.merge_function(c, unit[k].0, &unit[k].1);
            k += 1;
        }
    }
}

proof fn lemma_entry_at(v: Seq<(FnId, Seq<ReturnView>)>, f: FnId, k: int)
    requires
        0 <= k,
    ensures
        match entry_at(v, f, k) {
            Some(p) => k <= p < v.len() && v[p].0 == f,
            None => true,
        },
    decreases v.len() - k,
{
    if k < v.len() && v[k].0 != f {
        lemma_entry_at(v, f, k + 1);
    }
}

/// The constraint names variables and functions of the program only.
pub open spec fn names_held(f: FlowView, vars: Seq<Variable>, fns: Seq<FnView>) -> bool {
    &&& forall|k: int|
        0 <= k < remap::vars_of(f).len() ==> program::holds_var(
            vars,
            #[trigger] remap::vars_of(f)[k],
        )
    &&& remap::fn_of(f) matches Some(id) ==> program::holds_fn(fns, id)
}

proof fn lemma_placed_is_held(
    f: FlowView,
    fn_map: Map<u32, u32>,
    var_map: Map<u32, u32>,
    vars: Seq<Variable>,
    fns: Seq<FnView>,
)
    requires
        remap::is_placed(f, fn_map, var_map),
        program::gives_vars(var_map, vars),
        program::gives_fns(fn_map, fns),
    ensures
        names_held(remap::flow_in(f, fn_map, var_map), vars, fns),
{
    let own = remap::flow_in(f, fn_map, var_map);
    remap::law_renumbering_moves_each_endpoint(f, fn_map, var_map);
    assert forall|k: int| 0 <= k < remap::vars_of(own).len() implies program::holds_var(
        vars,
        #[trigger] remap::vars_of(own)[k],
    ) by {
        let v = remap::vars_of(f)[k];
        assert(var_map.dom().contains(v.0));
        assert(remap::vars_of(own)[k] == VarId(var_map[v.0]));
    }
}

/// Merging a unit keeps the constraints there are, and those it adds name
/// variables and functions of the program only.
pub proof fn law_added_constraints_name_the_programs(
    s: FlowTablesView,
    c: FlowContext<'_>,
    unit: Seq<FlowView>,
    k: int,
)
    requires
        0 <= k <= unit.len(),
        program::gives_vars(c.var_map@, c.variables@),
        program::gives_fns(c.fn_map@, program::fn_views(c.functions@)),
    ensures
        s.flow.is_prefix_of(flow_merged(s, c, unit, k).flow),
        forall|i: int|
            s.flow.len() <= i < flow_merged(s, c, unit, k).flow.len() ==> names_held(
                #[trigger] flow_merged(s, c, unit, k).flow[i],
                c.variables@,
                program::fn_views(c.functions@),
            ),
    decreases k,
{
    if k > 0 {
        law_added_constraints_name_the_programs(s, c, unit, k - 1);
        let before = flow_merged(s, c, unit, k - 1);
        let after = flow_merged(s, c, unit, k);
        let fns = program::fn_views(c.functions@);
        if is_taken(c, unit, unit[k - 1]) {
            lemma_placed_is_held(unit[k - 1], c.fn_map@, c.var_map@, c.variables@, fns);
        }
        assert forall|i: int| s.flow.len() <= i < after.flow.len() implies names_held(
            #[trigger] after.flow[i],
            c.variables@,
            fns,
        ) by {
            if i < before.flow.len() {
                assert(after.flow[i] == before.flow[i]);
            }
        }
    }
}

} // verus!
