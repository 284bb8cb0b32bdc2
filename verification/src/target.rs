//! Link images: which units an image links, what of them an override
//! suppresses, and each unit as the image sees it.

use crate::closure;
use crate::closure::close_over;
use crate::ir::{FileId, FlowConstraint, FnId, ReturnFlow, StorageClass, TargetId, VarId};
use crate::merge;
use crate::merge::{add_files, FileInfo};
use crate::merge_flow;
use crate::merge_vars;
use crate::merge_vars::is_dep_file;
use crate::overload::copy_indices;
use crate::program;
use crate::program::{CallRecord, FnTraits, FnView, Function, Variable};
use crate::remap;
use crate::remap::{flow_vars, FlowView};
use crate::spelling;
use crate::text::str_eq;
use crate::unit::UnitIndex;
use vstd::prelude::*;

verus! {

/// A link image: its name and the file it is linked into, the sources it is made
/// of, the images it links, and for a source that it takes some compilations of,
/// which.
#[derive(Debug, PartialEq, Eq)]
pub struct LinkSpec {
    pub name: String,
    pub output: String,
    pub sources: Vec<String>,
    pub dependencies: Vec<usize>,
    pub configurations: Vec<(String, Vec<usize>)>,
}

/// A link image of the program.
#[derive(Debug, PartialEq, Eq)]
pub struct LinkTarget {
    pub id: TargetId,
    pub name: String,
    pub output: String,
    pub sources: Vec<FileId>,
    pub dependencies: Vec<TargetId>,
}

/// The sources of an image as files; `in_deps` tells those under a dependency
/// root.
pub open spec fn source_files(spec: LinkSpec, in_deps: Seq<bool>) -> Seq<FileInfo> {
    Seq::new(
        spec.sources@.len(),
        |k: int| (FileInfo { path: spec.sources@[k], is_dep: in_deps[k] }),
    )
}

/// The record of image `index`, its sources by their numbers among the files.
pub fn link_target(
    files: &mut Vec<FileInfo>,
    spec: &LinkSpec,
    in_deps: &Vec<bool>,
    index: usize,
) -> (r: LinkTarget)
    requires
        old(files)@.len() + spec.sources@.len() <= u32::MAX,
        in_deps@.len() == spec.sources@.len(),
        index <= u32::MAX,
        forall|k: int|
            0 <= k < spec.dependencies@.len() ==> #[trigger] spec.dependencies@[k] <= u32::MAX,
    ensures
        final(files)@ == merge::with_files(old(files)@, source_files(*spec, in_deps@)),
        r.id.0 == index,
        r.name@ == spec.name@,
        r.output@ == spec.output@,
        r.sources@.len() == spec.sources@.len(),
        forall|k: int|
            0 <= k < spec.sources@.len() ==> (#[trigger] r.sources@[k]).0 == merge::path_at(
                final(files)@,
                spec.sources@[k]@,
                0,
            ) && r.sources@[k].0 < final(files)@.len(),
        r.dependencies@.len() == spec.dependencies@.len(),
        forall|k: int|
            0 <= k < spec.dependencies@.len() ==> (#[trigger] r.dependencies@[k]).0
                == spec.dependencies@[k],
{
    let mut infos: Vec<FileInfo> = Vec::new();
    let mut k: usize = 0;
    while k < spec.sources.len()
        invariant
            k <= spec.sources@.len(),
            in_deps@.len() == spec.sources@.len(),
            infos@ == source_files(*spec, in_deps@).take(k as int),
        decreases spec.sources@.len() - k,
    {
        infos.push(FileInfo { path: spec.sources[k].clone(), is_dep: in_deps[k] });
        assert(infos@ =~= source_files(*spec, in_deps@).take(k + 1));
        k += 1;
    }
    assert(infos@ =~= source_files(*spec, in_deps@));
    let sources = add_files(files, &infos);
    assert forall|i: int| 0 <= i < spec.sources@.len() implies (#[trigger] sources@[i]).0
        == merge::path_at(files@, spec.sources@[i]@, 0) by {
        assert(infos@[i].path == spec.sources@[i]);
    }
    let mut dependencies: Vec<TargetId> = Vec::new();
    let mut j: usize = 0;
    while j < spec.dependencies.len()
        invariant
            j <= spec.dependencies@.len(),
            dependencies@.len() == j,
            forall|i: int|
                0 <= i < spec.dependencies@.len() ==> #[trigger] spec.dependencies@[i] <= u32::MAX,
            forall|i: int|
                0 <= i < j ==> (#[trigger] dependencies@[i]).0 == spec.dependencies@[i],
        decreases spec.dependencies@.len() - j,
    {
        dependencies.push(TargetId(spec.dependencies[j] as u32));
        j += 1;
    }
    LinkTarget {
        id: TargetId(index as u32),
        name: spec.name.clone(),
        output: spec.output.clone(),
        sources,
        dependencies,
    }
}

/// The images each image links.
pub open spec fn links(targets: Seq<LinkSpec>) -> Seq<Seq<usize>> {
    targets.map_values(|t: LinkSpec| t.dependencies@)
}

/// Every image an image links exists.
pub open spec fn links_exist(targets: Seq<LinkSpec>) -> bool {
    closure::edges_exist(links(targets))
}

/// Image `b` is part of image `a`: itself, or linked over others.
pub open spec fn reaches(targets: Seq<LinkSpec>, a: usize, b: usize) -> bool {
    closure::reaches(links(targets), a, b)
}

/// The images that are part of an image, itself and all it links, directly or
/// through others.
pub fn linked_targets(targets: &Vec<LinkSpec>, index: usize) -> (r: Vec<bool>)
    requires
        index < targets@.len(),
        links_exist(targets@),
    ensures
        r@.len() == targets@.len(),
        forall|i: usize|
            i < targets@.len() ==> r@[i as int] == #[trigger] reaches(targets@, index, i),
{
    let mut edges: Vec<Vec<usize>> = Vec::new();
    let mut k: usize = 0;
    while k < targets.len()
        invariant
            k <= targets@.len(),
            edges@.len() == k,
            forall|j: int| 0 <= j < k ==> (#[trigger] edges@[j])@ == targets@[j].dependencies@,
        decreases targets@.len() - k,
    {
        edges.push(copy_indices(&targets[k].dependencies));
        k += 1;
    }
    assert(closure::edge_lists(edges@) =~= links(targets@));
    let starts: Vec<usize> = vec![index];
    let marks = close_over(&edges, &starts);
    assert forall|i: usize| i < targets@.len() implies marks@[i as int] == #[trigger] reaches(
        targets@,
        index,
        i,
    ) by {
        assert(marks@[i as int] == closure::reached(links(targets@), starts@, i));
        assert(starts@[0] == index);
    }
    marks
}

/// The compilations of a source that an image takes, where it names any: the
/// first entry, from position `k`.
pub open spec fn taken(v: Seq<(String, Vec<usize>)>, source: Seq<char>, k: int) -> Option<
    Seq<usize>,
>
    decreases v.len() - k,
{
    if k < 0 || k >= v.len() {
        None
    } else if v[k].0@ == source {
        Some(v[k].1@)
    } else {
        taken(v, source, k + 1)
    }
}

/// An image is made of a unit: it lists the unit's source, and takes that
/// compilation of it.
pub open spec fn is_made_of(
    target: LinkSpec,
    source: Seq<char>,
    compilation: Option<usize>,
) -> bool {
    spelling::views(target.sources@).contains(source) && match taken(
        target.configurations@,
        source,
        0,
    ) {
        Some(allowed) => compilation matches Some(c) && allowed.contains(c),
        None => true,
    }
}

/// A unit is linked into an image, by itself or by an image it links.
pub open spec fn is_member(
    targets: Seq<LinkSpec>,
    index: usize,
    source: Seq<char>,
    compilation: Option<usize>,
) -> bool {
    exists|t: usize|
        t < targets.len() && #[trigger] reaches(targets, index, t) && is_made_of(
            targets[t as int],
            source,
            compilation,
        )
}

fn lists(sources: &Vec<String>, source: &str) -> (r: bool)
    ensures
        r == spelling::views(sources@).contains(source@),
{
    let mut k: usize = 0;
    while k < sources.len()
        invariant
            k <= sources@.len(),
            forall|j: int| 0 <= j < k ==> #[trigger] spelling::views(sources@)[j] != source@,
        decreases sources@.len() - k,
    {
        assert(spelling::views(sources@)[k as int] == sources@[k as int]@);
        if str_eq(sources[k].as_str(), source) {
            return true;
        }
        k += 1;
    }
    false
}

fn holds_index(v: &Vec<usize>, i: usize) -> (r: bool)
    ensures
        r == v@.contains(i),
{
    let mut k: usize = 0;
    while k < v.len()
        invariant
            k <= v@.len(),
            forall|j: int| 0 <= j < k ==> #[trigger] v@[j] != i,
        decreases v@.len() - k,
    {
        if v[k] == i {
            assert(v@[k as int] == i);
            return true;
        }
        k += 1;
    }
    false
}

fn made_of(target: &LinkSpec, source: &str, compilation: Option<usize>) -> (r: bool)
    ensures
        r == is_made_of(*target, source@, compilation),
{
    if !lists(&target.sources, source) {
        return false;
    }
    let mut k: usize = 0;
    while k < target.configurations.len()
        invariant
            k <= target.configurations@.len(),
            spelling::views(target.sources@).contains(source@),
            taken(target.configurations@, source@, 0) == taken(
                target.configurations@,
                source@,
                k as int,
            ),
        decreases target.configurations@.len() - k,
    {
        if str_eq(target.configurations[k].0.as_str(), source) {
            return match compilation {
                Some(c) => holds_index(&target.configurations[k].1, c),
                None => false,
            };
        }
        k += 1;
    }
    true
}

/// A unit as images ask for it: its source and which compilation it is.
#[derive(Debug, PartialEq, Eq)]
pub struct UnitKey {
    pub source: String,
    pub compilation: Option<usize>,
}

pub open spec fn unit_is_member(targets: Seq<LinkSpec>, index: usize, unit: UnitKey) -> bool {
    is_member(targets, index, unit.source@, unit.compilation)
}

/// The units an image links, in order.
pub fn target_members(targets: &Vec<LinkSpec>, index: usize, units: &Vec<UnitKey>) -> (r: Vec<bool>)
    requires
        index < targets@.len(),
        links_exist(targets@),
    ensures
        r@.len() == units@.len(),
        forall|u: int|
            0 <= u < units@.len() ==> #[trigger] r@[u] == unit_is_member(
                targets@,
                index,
                units@[u],
            ),
{
    let marks = linked_targets(targets, index);
    let mut out: Vec<bool> = Vec::new();
    let mut u: usize = 0;
    while u < units.len()
        invariant
            u <= units@.len(),
            out@.len() == u,
            marks@.len() == targets@.len(),
            forall|i: usize|
                i < targets@.len() ==> marks@[i as int] == #[trigger] reaches(targets@, index, i),
            forall|j: int|
                0 <= j < u ==> #[trigger] out@[j] == unit_is_member(targets@, index, units@[j]),
        decreases units@.len() - u,
    {
        let unit = &units[u];
        let mut found = false;
        let mut t: usize = 0;
        while t < targets.len() && !found
            invariant
                t <= targets@.len(),
                u < units@.len(),
                *unit == units@[u as int],
                marks@.len() == targets@.len(),
                forall|i: usize|
                    i < targets@.len() ==> marks@[i as int] == #[trigger] reaches(
                        targets@,
                        index,
                        i,
                    ),
                found ==> unit_is_member(targets@, index, *unit),
                !found ==> forall|i: usize|
                    i < t ==> !(#[trigger] reaches(targets@, index, i) && is_made_of(
                        targets@[i as int],
                        unit.source@,
                        unit.compilation,
                    )),
            decreases targets@.len() - t,
        {
            if marks[t] && made_of(&targets[t], unit.source.as_str(), unit.compilation) {
                assert(reaches(targets@, index, t));
                found = true;
            }
            t += 1;
        }
        assert(found == unit_is_member(targets@, index, *unit));
        out.push(found);
        u += 1;
    }
    out
}

/// Some image links the unit.
pub open spec fn is_assigned(targets: Seq<LinkSpec>, unit: UnitKey) -> bool {
    exists|t: usize| t < targets.len() && #[trigger] unit_is_member(targets, t, unit)
}

/// The units that no image links. They are merged as one family of their own.
pub fn unassigned_units(targets: &Vec<LinkSpec>, units: &Vec<UnitKey>) -> (r: Vec<bool>)
    requires
        links_exist(targets@),
    ensures
        r@.len() == units@.len(),
        forall|u: int|
            0 <= u < units@.len() ==> #[trigger] r@[u] == !is_assigned(targets@, units@[u]),
{
    let mut out: Vec<bool> = Vec::new();
    while out.len() < units.len()
        invariant
            out@.len() <= units@.len(),
            forall|j: int| 0 <= j < out@.len() ==> #[trigger] out@[j],
        decreases units@.len() - out@.len(),
    {
        out.push(true);
    }
    let mut t: usize = 0;
    while t < targets.len()
        invariant
            t <= targets@.len(),
            out@.len() == units@.len(),
            links_exist(targets@),
            forall|u: int|
                0 <= u < units@.len() ==> (#[trigger] out@[u] <==> forall|i: usize|
                    i < t ==> !#[trigger] unit_is_member(targets@, i, units@[u])),
        decreases targets@.len() - t,
    {
        let members = target_members(targets, t, units);
        let ghost before = out@;
        let mut u: usize = 0;
        while u < units.len()
            invariant
                u <= units@.len(),
                t < targets@.len(),
                out@.len() == units@.len(),
                before.len() == units@.len(),
                members@.len() == units@.len(),
                forall|j: int|
                    0 <= j < units@.len() ==> #[trigger] members@[j] == unit_is_member(
                        targets@,
                        t,
                        units@[j],
                    ),
                forall|j: int| 0 <= j < u ==> #[trigger] out@[j] == (before[j] && !members@[j]),
                forall|j: int| u <= j < units@.len() ==> #[trigger] out@[j] == before[j],
            decreases units@.len() - u,
        {
            if members[u] {
                out.set(u, false);
            }
            u += 1;
        }
        t += 1;
    }
    out
}

/// An image links what the images it links do.
pub proof fn law_images_hold_what_they_link(
    targets: Seq<LinkSpec>,
    a: usize,
    b: usize,
    unit: UnitKey,
)
    requires
        closure::edge(links(targets), a, b),
        unit_is_member(targets, b, unit),
    ensures
        unit_is_member(targets, a, unit),
{
    let t = choose|t: usize|
        t < targets.len() && #[trigger] reaches(targets, b, t) && is_made_of(
            targets[t as int],
            unit.source@,
            unit.compilation,
        );
    closure::lemma_reaches_over(links(targets), a, b, t);
    assert(reaches(targets, a, t));
}

/// A global that one definition per image defines, under its own name.
pub open spec fn is_plain_global(v: Variable) -> bool {
    v.storage == StorageClass::Global && !v.is_namespaced
}

fn plain_global(v: &Variable) -> (r: bool)
    ensures
        r == is_plain_global(*v),
{
    v.storage == StorageClass::Global && !v.is_namespaced
}

/// A unit's function as an image sees it. One that an override suppresses is a
/// declaration.
pub open spec fn scoped_fn(f: FnView, target: TargetId, removed: Seq<FnId>) -> FnView {
    if removed.contains(f.id) {
        FnView {
            target: Some(target),
            traits: FnTraits { is_defined: false, ..f.traits },
            params: seq![],
            locals: seq![],
            ..f
        }
    } else {
        FnView { target: Some(target), ..f }
    }
}

/// A variable that goes with a suppressed body.
pub open spec fn goes(v: Variable, removed: Seq<FnId>) -> bool {
    v.fn_id matches Some(f) && removed.contains(f)
}

/// A weak global that a strong one of the image overrides.
pub open spec fn is_overridden(v: Variable, strong: Seq<Seq<char>>) -> bool {
    is_plain_global(v) && v.is_weak && strong.contains(v.name@)
}

pub open spec fn scoped_var(v: Variable, target: TargetId, strong: Seq<Seq<char>>) -> Variable {
    Variable {
        target: Some(target),
        is_defined: v.is_defined && !is_overridden(v, strong),
        ..v
    }
}

/// The unit's variables as an image sees them, of the first `k`.
pub open spec fn scoped_vars(
    vars: Seq<Variable>,
    target: TargetId,
    removed: Seq<FnId>,
    strong: Seq<Seq<char>>,
    k: int,
) -> Seq<Variable>
    decreases k,
{
    if k <= 0 {
        seq![]
    } else {
        let before = scoped_vars(vars, target, removed, strong, k - 1);
        if goes(vars[k - 1], removed) {
            before
        } else {
            before.push(scoped_var(vars[k - 1], target, strong))
        }
    }
}

/// The global is one of the unit's that an override suppresses.
pub open spec fn drops_global(
    vars: Seq<Variable>,
    removed: Seq<FnId>,
    strong: Seq<Seq<char>>,
    id: VarId,
) -> bool {
    exists|k: int|
        0 <= k < vars.len() && (#[trigger] vars[k]).id == id && !goes(vars[k], removed)
            && is_overridden(vars[k], strong)
}

pub open spec fn drops_some_global(
    vars: Seq<Variable>,
    removed: Seq<FnId>,
    strong: Seq<Seq<char>>,
) -> bool {
    exists|k: int|
        0 <= k < vars.len() && !goes(#[trigger] vars[k], removed) && is_overridden(vars[k], strong)
}

/// The `n`th constraint stands in a range of a suppressed body or initializer.
pub open spec fn is_excluded(
    unit: UnitIndex,
    removed: Seq<FnId>,
    strong: Seq<Seq<char>>,
    n: int,
) -> bool {
    (exists|k: int|
        0 <= k < unit.function_flow_ranges@.len() && removed.contains(
            (#[trigger] unit.function_flow_ranges@[k]).0,
        ) && unit.function_flow_ranges@[k].1 <= n < unit.function_flow_ranges@[k].2) || (exists|
        k: int,
    |
        0 <= k < unit.global_initializer_ranges@.len() && drops_global(
            unit.variables@,
            removed,
            strong,
            (#[trigger] unit.global_initializer_ranges@[k]).0,
        ) && unit.global_initializer_ranges@[k].1 <= n < unit.global_initializer_ranges@[k].2)
}

/// Every variable the constraint speaks of is one of `vars`.
pub open spec fn speaks_of(vars: Seq<Variable>, f: FlowView) -> bool {
    forall|i: int|
        0 <= i < remap::vars_of(f).len() ==> has_var(vars, #[trigger] remap::vars_of(f)[i])
}

pub open spec fn has_var(vars: Seq<Variable>, id: VarId) -> bool {
    exists|k: int| 0 <= k < vars.len() && (#[trigger] vars[k]).id == id
}

/// The constraints that stay, of the first `k`.
pub open spec fn scoped_flow(
    unit: UnitIndex,
    removed: Seq<FnId>,
    strong: Seq<Seq<char>>,
    vars: Seq<Variable>,
    k: int,
) -> Seq<FlowView>
    decreases k,
{
    if k <= 0 {
        seq![]
    } else {
        let before = scoped_flow(unit, removed, strong, vars, k - 1);
        let f = unit.flow@[k - 1]@;
        if !is_excluded(unit, removed, strong, k - 1) && speaks_of(vars, f) {
            before.push(f)
        } else {
            before
        }
    }
}

fn holds_fn(v: &Vec<FnId>, id: FnId) -> (r: bool)
    ensures
        r == v@.contains(id),
{
    let mut k: usize = 0;
    while k < v.len()
        invariant
            k <= v@.len(),
            forall|j: int| 0 <= j < k ==> #[trigger] v@[j] != id,
        decreases v@.len() - k,
    {
        if v[k] == id {
            assert(v@[k as int] == id);
            return true;
        }
        k += 1;
    }
    false
}

fn var_goes(v: &Variable, removed: &Vec<FnId>) -> (r: bool)
    ensures
        r == goes(*v, removed@),
{
    match v.fn_id {
        Some(f) => holds_fn(removed, f),
        None => false,
    }
}

fn overridden(v: &Variable, strong: &Vec<String>) -> (r: bool)
    ensures
        r == is_overridden(*v, spelling::views(strong@)),
{
    plain_global(v) && v.is_weak && lists(strong, v.name.as_str())
}

fn global_drops(vars: &Vec<Variable>, removed: &Vec<FnId>, strong: &Vec<String>, id: VarId) -> (r:
    bool)
    ensures
        r == drops_global(vars@, removed@, spelling::views(strong@), id),
{
    let mut k: usize = 0;
    while k < vars.len()
        invariant
            k <= vars@.len(),
            forall|j: int|
                0 <= j < k ==> !((#[trigger] vars@[j]).id == id && !goes(vars@[j], removed@)
                    && is_overridden(vars@[j], spelling::views(strong@))),
        decreases vars@.len() - k,
    {
        if vars[k].id == id && !var_goes(&vars[k], removed) && overridden(&vars[k], strong) {
            return true;
        }
        k += 1;
    }
    false
}

fn some_global_drops(vars: &Vec<Variable>, removed: &Vec<FnId>, strong: &Vec<String>) -> (r: bool)
    ensures
        r == drops_some_global(vars@, removed@, spelling::views(strong@)),
{
    let mut k: usize = 0;
    while k < vars.len()
        invariant
            k <= vars@.len(),
            forall|j: int|
                0 <= j < k ==> !(!goes(#[trigger] vars@[j], removed@) && is_overridden(
                    vars@[j],
                    spelling::views(strong@),
                )),
        decreases vars@.len() - k,
    {
        if !var_goes(&vars[k], removed) && overridden(&vars[k], strong) {
            return true;
        }
        k += 1;
    }
    false
}

fn excluded(unit: &UnitIndex, removed: &Vec<FnId>, strong: &Vec<String>, n: usize) -> (r: bool)
    ensures
        r == is_excluded(*unit, removed@, spelling::views(strong@), n as int),
{
    let mut k: usize = 0;
    while k < unit.function_flow_ranges.len()
        invariant
            k <= unit.function_flow_ranges@.len(),
            forall|j: int|
                0 <= j < k ==> !(removed@.contains((#[trigger] unit.function_flow_ranges@[j]).0)
                    && unit.function_flow_ranges@[j].1 <= n < unit.function_flow_ranges@[j].2),
        decreases unit.function_flow_ranges@.len() - k,
    {
        let (f, from, to) = unit.function_flow_ranges[k];
        if from <= n && n < to && holds_fn(removed, f) {
            assert(removed@.contains(unit.function_flow_ranges@[k as int].0));
            return true;
        }
        k += 1;
    }
    let mut g: usize = 0;
    while g < unit.global_initializer_ranges.len()
        invariant
            g <= unit.global_initializer_ranges@.len(),
            forall|j: int|
                0 <= j < unit.function_flow_ranges@.len() ==> !(removed@.contains(
                    (#[trigger] unit.function_flow_ranges@[j]).0,
                ) && unit.function_flow_ranges@[j].1 <= n < unit.function_flow_ranges@[j].2),
            forall|j: int|
                0 <= j < g ==> !(drops_global(
                    unit.variables@,
                    removed@,
                    spelling::views(strong@),
                    (#[trigger] unit.global_initializer_ranges@[j]).0,
                ) && unit.global_initializer_ranges@[j].1 <= n
                    < unit.global_initializer_ranges@[j].2),
        decreases unit.global_initializer_ranges@.len() - g,
    {
        let (v, from, to) = unit.global_initializer_ranges[g];
        if from <= n && n < to && global_drops(&unit.variables, removed, strong, v) {
            assert(drops_global(
                unit.variables@,
                removed@,
                spelling::views(strong@),
                unit.global_initializer_ranges@[g as int].0,
            ));
            return true;
        }
        g += 1;
    }
    false
}

fn holds_var(vars: &Vec<Variable>, id: VarId) -> (r: bool)
    ensures
        r == has_var(vars@, id),
{
    let mut k: usize = 0;
    while k < vars.len()
        invariant
            k <= vars@.len(),
            forall|j: int| 0 <= j < k ==> (#[trigger] vars@[j]).id != id,
        decreases vars@.len() - k,
    {
        if vars[k].id == id {
            return true;
        }
        k += 1;
    }
    false
}

fn all_spoken_of(vars: &Vec<Variable>, f: &FlowConstraint) -> (r: bool)
    ensures
        r == speaks_of(vars@, f@),
{
    let own = flow_vars(f);
    let mut k: usize = 0;
    while k < own.len()
        invariant
            k <= own@.len(),
            own@ == remap::vars_of(f@),
            forall|j: int| 0 <= j < k ==> has_var(vars@, #[trigger] remap::vars_of(f@)[j]),
        decreases own@.len() - k,
    {
        assert(own@[k as int] == remap::vars_of(f@)[k as int]);
        if !holds_var(vars, own[k]) {
            return false;
        }
        k += 1;
    }
    true
}

/// The calls whose bodies stay, of the first `k`.
pub open spec fn calls_kept(calls: Seq<CallRecord>, removed: Seq<FnId>, k: int) -> Seq<CallRecord>
    decreases k,
{
    if k <= 0 {
        seq![]
    } else {
        let before = calls_kept(calls, removed, k - 1);
        if removed.contains(calls[k - 1].site.caller) {
            before
        } else {
            before.push(calls[k - 1])
        }
    }
}

/// The returns of bodies that stay, of the first `k`.
pub open spec fn returns_kept(
    v: Seq<(FnId, Vec<ReturnFlow>)>,
    removed: Seq<FnId>,
    k: int,
) -> Seq<(FnId, Vec<ReturnFlow>)>
    decreases k,
{
    if k <= 0 {
        seq![]
    } else {
        let before = returns_kept(v, removed, k - 1);
        if removed.contains(v[k - 1].0) {
            before
        } else {
            before.push(v[k - 1])
        }
    }
}

fn keep_calls(calls: Vec<CallRecord>, removed: &Vec<FnId>) -> (r: Vec<CallRecord>)
    ensures
        r@ == calls_kept(calls@, removed@, calls@.len() as int),
{
    let ghost all = calls@;
    let mut out: Vec<CallRecord> = Vec::new();
    let ghost mut k: int = 0;
    for call in it: calls
        invariant
            it.seq() == all,
            k == it.index(),
            0 <= k <= all.len(),
            out@ == calls_kept(all, removed@, k),
    {
        assert(call == all[k]);
        if !holds_fn(removed, call.site.caller) {
            out.push(call);
        }
        proof {
            k = k + 1;
        }
    }
    out
}

fn keep_returns(v: Vec<(FnId, Vec<ReturnFlow>)>, removed: &Vec<FnId>) -> (r: Vec<
    (FnId, Vec<ReturnFlow>),
>)
    ensures
        r@ == returns_kept(v@, removed@, v@.len() as int),
{
    let ghost all = v@;
    let mut out: Vec<(FnId, Vec<ReturnFlow>)> = Vec::new();
    let ghost mut k: int = 0;
    for e in it: v
        invariant
            it.seq() == all,
            k == it.index(),
            0 <= k <= all.len(),
            out@ == returns_kept(all, removed@, k),
    {
        assert(e == all[k]);
        if !holds_fn(removed, e.0) {
            out.push(e);
        }
        proof {
            k = k + 1;
        }
    }
    out
}

fn scope_functions(fns: &mut Vec<Function>, target: TargetId, removed: &Vec<FnId>)
    ensures
        program::fn_views(final(fns)@) == program::fn_views(old(fns)@).map_values(
            |f: FnView| scoped_fn(f, target, removed@),
        ),
{
    let ghost first = program::fn_views(fns@);
    let mut k: usize = 0;
    while k < fns.len()
        invariant
            k <= fns@.len(),
            fns@.len() == first.len(),
            forall|j: int|
                0 <= j < k ==> (#[trigger] fns@[j])@ == scoped_fn(first[j], target, removed@),
            forall|j: int| k <= j < fns@.len() ==> (#[trigger] fns@[j])@ == first[j],
        decreases fns@.len() - k,
    {
        let ghost before = fns@;
        assert(before[k as int]@ == first[k as int]);
        let gone = holds_fn(removed, fns[k].id);
        fns[k].target = Some(target);
        if gone {
            let mut traits = fns[k].traits;
            traits.is_defined = false;
            fns[k].traits = traits;
            fns[k].params = Vec::new();
            fns[k].locals = Vec::new();
            assert(fns@[k as int].params@ =~= seq![]);
            assert(fns@[k as int].locals@ =~= seq![]);
        }
        proof {
            assert(fns@[k as int]@ == scoped_fn(first[k as int], target, removed@));
            assert forall|j: int| 0 <= j < k implies (#[trigger] fns@[j])@ == scoped_fn(
                first[j],
                target,
                removed@,
            ) by {
                assert(before[j]@ == scoped_fn(first[j], target, removed@));
            }
            assert forall|j: int| k < j < fns@.len() implies (#[trigger] fns@[j])@ == first[j] by {
                assert(before[j]@ == first[j]);
            }
        }
        k += 1;
    }
    assert(program::fn_views(fns@) =~= first.map_values(
        |f: FnView| scoped_fn(f, target, removed@),
    ));
}

fn scope_variables(
    vars: &Vec<Variable>,
    target: TargetId,
    removed: &Vec<FnId>,
    strong: &Vec<String>,
) -> (r: Vec<Variable>)
    ensures
        r@ == scoped_vars(
            vars@,
            target,
            removed@,
            spelling::views(strong@),
            vars@.len() as int,
        ),
{
    let mut out: Vec<Variable> = Vec::new();
    let mut k: usize = 0;
    while k < vars.len()
        invariant
            k <= vars@.len(),
            out@ == scoped_vars(vars@, target, removed@, spelling::views(strong@), k as int),
        decreases vars@.len() - k,
    {
        if !var_goes(&vars[k], removed) {
            let mut own = vars[k].copy();
            own.target = Some(target);
            if overridden(&vars[k], strong) {
                own.is_defined = false;
            }
            out.push(own);
        }
        k += 1;
    }
    out
}

fn scope_flow(
    unit: &UnitIndex,
    removed: &Vec<FnId>,
    strong: &Vec<String>,
    vars: &Vec<Variable>,
) -> (r: Vec<bool>)
    ensures
        r@.len() == unit.flow@.len(),
        forall|n: int|
            0 <= n < r@.len() ==> #[trigger] r@[n] == (!is_excluded(
                *unit,
                removed@,
                spelling::views(strong@),
                n,
            ) && speaks_of(vars@, unit.flow@[n]@)),
{
    let mut out: Vec<bool> = Vec::new();
    let mut n: usize = 0;
    while n < unit.flow.len()
        invariant
            n <= unit.flow@.len(),
            out@.len() == n,
            forall|j: int|
                0 <= j < n ==> #[trigger] out@[j] == (!is_excluded(
                    *unit,
                    removed@,
                    spelling::views(strong@),
                    j,
                ) && speaks_of(vars@, unit.flow@[j]@)),
        decreases unit.flow@.len() - n,
    {
        out.push(!excluded(unit, removed, strong, n) && all_spoken_of(vars, &unit.flow[n]));
        n += 1;
    }
    out
}

/// `r` is the unit as the image sees it.
pub open spec fn is_scoped(
    r: UnitIndex,
    unit: UnitIndex,
    target: TargetId,
    removed: Seq<FnId>,
    strong: Seq<Seq<char>>,
) -> bool {
    let vars = scoped_vars(unit.variables@, target, removed, strong, unit.variables@.len() as int);
    &&& program::fn_views(r.functions@) == program::fn_views(unit.functions@).map_values(
        |f: FnView| scoped_fn(f, target, removed),
    )
    &&& r.variables@ == vars
    &&& r.call_sites@ == calls_kept(unit.call_sites@, removed, unit.call_sites@.len() as int)
    &&& r.fn_returns@ == returns_kept(unit.fn_returns@, removed, unit.fn_returns@.len() as int)
    &&& merge_flow::flow_views(r.flow@) == if removed.len() > 0 || drops_some_global(
        unit.variables@,
        removed,
        strong,
    ) {
        scoped_flow(unit, removed, strong, vars, unit.flow@.len() as int)
    } else {
        merge_flow::flow_views(unit.flow@)
    }
    &&& r.function_flow_ranges@.len() == 0
    &&& r.global_initializer_ranges@.len() == 0
    &&& r == (UnitIndex {
        functions: r.functions,
        variables: r.variables,
        call_sites: r.call_sites,
        fn_returns: r.fn_returns,
        flow: r.flow,
        function_flow_ranges: r.function_flow_ranges,
        global_initializer_ranges: r.global_initializer_ranges,
        ..unit
    })
}

/// One unit as an image sees it: every symbol bound to the image, and the
/// bodies, variables and constraints that an override suppresses removed. The
/// ranges speak of the unit's own constraints and are left empty.
pub fn scope_unit(
    unit: UnitIndex,
    target: TargetId,
    removed: &Vec<FnId>,
    strong_globals: &Vec<String>,
) -> (r: UnitIndex)
    ensures
        is_scoped(r, unit, target, removed@, spelling::views(strong_globals@)),
{
    let ghost strong = spelling::views(strong_globals@);
    let vars = scope_variables(&unit.variables, target, removed, strong_globals);
    let filters = removed.len() > 0 || some_global_drops(
        &unit.variables,
        removed,
        strong_globals,
    );
    let stays = scope_flow(&unit, removed, strong_globals, &vars);
    let UnitIndex {
        own,
        compilation_index,
        files,
        classes,
        mut functions,
        internal_definitions,
        variables: _,
        call_sites,
        flow,
        function_flow_ranges: _,
        global_initializer_ranges: _,
        fn_returns,
        diagnostics,
    } = unit;
    scope_functions(&mut functions, target, removed);
    let call_sites = keep_calls(call_sites, removed);
    let fn_returns = keep_returns(fn_returns, removed);
    let ghost all = flow@;
    let count = stays.len();
    let flow = if filters {
        let mut out: Vec<FlowConstraint> = Vec::new();
        let mut n: usize = 0;
        assert(merge_flow::flow_views(out@) =~= seq![]);
        for f in it: flow
            invariant
                it.seq() == all,
                n == it.index(),
                0 <= n <= all.len(),
                all == unit.flow@,
                strong == spelling::views(strong_globals@),
                stays@.len() == all.len(),
                count == all.len(),
                forall|j: int|
                    0 <= j < stays@.len() ==> #[trigger] stays@[j] == (!is_excluded(
                        unit,
                        removed@,
                        strong,
                        j,
                    ) && speaks_of(vars@, unit.flow@[j]@)),
                merge_flow::flow_views(out@) == scoped_flow(
                    unit,
                    removed@,
                    strong,
                    vars@,
                    n as int,
                ),
        {
            assert(n < count);
            assert(f == all[n as int]);
            if stays[n] {
                let ghost before = out@;
                out.push(f);
                assert(merge_flow::flow_views(out@) =~= merge_flow::flow_views(before).push(f@));
            }
            n += 1;
        }
        out
    } else {
        flow
    };
    UnitIndex {
        own,
        compilation_index,
        files,
        classes,
        functions,
        internal_definitions,
        variables: vars,
        call_sites,
        flow,
        function_flow_ranges: Vec::new(),
        global_initializer_ranges: Vec::new(),
        fn_returns,
        diagnostics,
    }
}

/// A suppressed body leaves nothing behind: its function is a declaration
/// without variables, and neither a variable, a call nor a return is its own.
pub proof fn law_suppressed_bodies_leave_nothing(
    r: UnitIndex,
    unit: UnitIndex,
    target: TargetId,
    removed: Seq<FnId>,
    strong: Seq<Seq<char>>,
    f: FnId,
)
    requires
        is_scoped(r, unit, target, removed, strong),
        removed.contains(f),
    ensures
        forall|k: int|
            0 <= k < r.functions@.len() && (#[trigger] r.functions@[k]).id == f
                ==> !r.functions@[k].traits.is_defined && r.functions@[k].params@.len() == 0
                && r.functions@[k].locals@.len() == 0,
        forall|k: int| 0 <= k < r.variables@.len() ==> (#[trigger] r.variables@[k]).fn_id != Some(f),
        forall|k: int|
            0 <= k < r.call_sites@.len() ==> (#[trigger] r.call_sites@[k]).site.caller != f,
        forall|k: int| 0 <= k < r.fn_returns@.len() ==> (#[trigger] r.fn_returns@[k]).0 != f,
{
    let views = program::fn_views(unit.functions@);
    assert forall|k: int|
        0 <= k < r.functions@.len() && (#[trigger] r.functions@[k]).id == f implies !r.functions@[k].traits.is_defined
        && r.functions@[k].params@.len() == 0 && r.functions@[k].locals@.len() == 0 by {
        let own = program::fn_views(r.functions@)[k];
        assert(own == r.functions@[k]@);
        assert(program::fn_views(r.functions@).len() == r.functions@.len());
        assert(views.map_values(|f: FnView| scoped_fn(f, target, removed)).len() == views.len());
        assert(views.map_values(|f: FnView| scoped_fn(f, target, removed))[k] == scoped_fn(
            views[k],
            target,
            removed,
        ));
        assert(own == scoped_fn(views[k], target, removed));
    }
    lemma_vars_gone(unit.variables@, target, removed, strong, f, unit.variables@.len() as int);
    lemma_calls_gone(unit.call_sites@, removed, f, unit.call_sites@.len() as int);
    lemma_returns_gone(unit.fn_returns@, removed, f, unit.fn_returns@.len() as int);
}

proof fn lemma_vars_gone(
    vars: Seq<Variable>,
    target: TargetId,
    removed: Seq<FnId>,
    strong: Seq<Seq<char>>,
    f: FnId,
    k: int,
)
    requires
        removed.contains(f),
        k <= vars.len(),
    ensures
        forall|j: int|
            0 <= j < scoped_vars(vars, target, removed, strong, k).len() ==> (
            #[trigger] scoped_vars(vars, target, removed, strong, k)[j]).fn_id != Some(f),
    decreases k,
{
    if k > 0 {
        lemma_vars_gone(vars, target, removed, strong, f, k - 1);
    }
}

proof fn lemma_calls_gone(calls: Seq<CallRecord>, removed: Seq<FnId>, f: FnId, k: int)
    requires
        removed.contains(f),
        k <= calls.len(),
    ensures
        forall|j: int|
            0 <= j < calls_kept(calls, removed, k).len() ==> (#[trigger] calls_kept(
                calls,
                removed,
                k,
            )[j]).site.caller != f,
    decreases k,
{
    if k > 0 {
        lemma_calls_gone(calls, removed, f, k - 1);
    }
}

proof fn lemma_returns_gone(v: Seq<(FnId, Vec<ReturnFlow>)>, removed: Seq<FnId>, f: FnId, k: int)
    requires
        removed.contains(f),
        k <= v.len(),
    ensures
        forall|j: int|
            0 <= j < returns_kept(v, removed, k).len() ==> (#[trigger] returns_kept(
                v,
                removed,
                k,
            )[j]).0 != f,
    decreases k,
{
    if k > 0 {
        lemma_returns_gone(v, removed, f, k - 1);
        let before = returns_kept(v, removed, k - 1);
        let after = returns_kept(v, removed, k);
        assert forall|j: int| 0 <= j < after.len() implies (#[trigger] after[j]).0 != f by {
            if j < before.len() {
                assert(after[j] == before[j]);
                assert(before[j].0 != f);
            }
        }
    }
}

/// A strong global of the image leaves no weak one of its name defined.
pub proof fn law_strong_globals_override_weak_ones(
    vars: Seq<Variable>,
    target: TargetId,
    removed: Seq<FnId>,
    strong: Seq<Seq<char>>,
    k: int,
)
    requires
        k <= vars.len(),
    ensures
        forall|j: int|
            0 <= j < scoped_vars(vars, target, removed, strong, k).len() && is_overridden(
                #[trigger] scoped_vars(vars, target, removed, strong, k)[j],
                strong,
            ) ==> !scoped_vars(vars, target, removed, strong, k)[j].is_defined,
    decreases k,
{
    if k > 0 {
        law_strong_globals_override_weak_ones(vars, target, removed, strong, k - 1);
    }
}

/// A global that overrides weak ones of its name: it is defined, strong, and
/// the program's own code.
pub open spec fn is_strong(v: Variable, files: Seq<FileInfo>) -> bool {
    is_plain_global(v) && v.is_defined && !v.is_weak && !merge_vars::is_dep(files, v.span.file)
}

/// The names of the strong globals of a unit, of its first `k` variables.
pub open spec fn strong_names(vars: Seq<Variable>, files: Seq<FileInfo>, k: int) -> Seq<Seq<char>>
    decreases k,
{
    if k <= 0 {
        seq![]
    } else {
        let before = strong_names(vars, files, k - 1);
        if is_strong(vars[k - 1], files) {
            before.push(vars[k - 1].name@)
        } else {
            before
        }
    }
}

/// The names of the strong globals of a unit. Its files are those of the unit.
pub fn strong_globals(vars: &Vec<Variable>, files: &Vec<FileInfo>) -> (r: Vec<String>)
    ensures
        spelling::views(r@) == strong_names(vars@, files@, vars@.len() as int),
{
    let mut out: Vec<String> = Vec::new();
    let mut k: usize = 0;
    assert(spelling::views(out@) =~= seq![]);
    while k < vars.len()
        invariant
            k <= vars@.len(),
            spelling::views(out@) == strong_names(vars@, files@, k as int),
        decreases vars@.len() - k,
    {
        let v = &vars[k];
        if plain_global(v) && v.is_defined && !v.is_weak && !is_dep_file(files, v.span.file) {
            let ghost before = out@;
            out.push(v.name.clone());
            assert(spelling::views(out@) =~= spelling::views(before).push(v.name@));
        }
        k += 1;
    }
    out
}

} // verus!
