//! The choice among the definitions that an image links for one name.

use crate::ir::{FileId, FnId, Linkage};
use crate::merge::FileInfo;
use crate::merge_vars;
use crate::merge_vars::is_dep_file;
use crate::program::{FnView, Function};
use crate::text::str_eq;
use crate::unit::UnitIndex;
use vstd::prelude::*;

verus! {

/// A definition that competes for its name: the unit, its position and its
/// number there, the file it stands in, and whether it is weak.
#[derive(Debug, PartialEq, Eq)]
pub struct Contender {
    pub unit: usize,
    pub at: usize,
    pub id: FnId,
    pub origin: String,
    pub weak: bool,
}

pub struct ContenderView {
    pub unit: int,
    pub at: int,
    pub id: FnId,
    pub origin: Seq<char>,
    pub weak: bool,
}

impl View for Contender {
    type V = ContenderView;

    open spec fn view(&self) -> ContenderView {
        ContenderView {
            unit: self.unit as int,
            at: self.at as int,
            id: self.id,
            origin: self.origin@,
            weak: self.weak,
        }
    }
}

pub open spec fn contender_views(v: Seq<Contender>) -> Seq<ContenderView> {
    Seq::new(v.len(), |i: int| v[i]@)
}

/// A definition that other units see.
pub open spec fn is_offered(f: FnView) -> bool {
    f.traits.is_defined && f.traits.linkage == Linkage::External
}

/// Some unit has a weak body of that name.
pub open spec fn is_weakened(units: Seq<&UnitIndex>, name: Seq<char>) -> bool {
    exists|u: int, k: int|
        0 <= u < units.len() && 0 <= k < units[u].functions@.len() && #[trigger] weakens(
            units,
            u,
            k,
            name,
        )
}

/// Function `k` of unit `u` is a weak body of that name.
pub open spec fn weakens(units: Seq<&UnitIndex>, u: int, k: int, name: Seq<char>) -> bool {
    let f = units[u].functions@[k]@;
    is_offered(f) && f.traits.is_weak && f.name == name
}

/// Function `k` of unit `u` takes part in choosing among the definitions of its
/// name: it is defined, other units see it, it stands outside the dependency
/// roots, and some body of its name is weak.
pub open spec fn competes(units: Seq<&UnitIndex>, u: int, k: int) -> bool {
    let f = units[u].functions@[k]@;
    is_offered(f) && !merge_vars::is_dep(units[u].files@, f.file) && is_weakened(units, f.name)
}

/// The file a definition stands in.
pub open spec fn origin_of(unit: UnitIndex, file: FileId) -> Seq<char> {
    if (file.0 as int) < unit.files@.len() {
        unit.files@[file.0 as int].path@
    } else {
        unit.own.path@
    }
}

pub open spec fn contender_at(units: Seq<&UnitIndex>, u: int, k: int) -> ContenderView {
    let f = units[u].functions@[k]@;
    ContenderView {
        unit: u,
        at: k,
        id: f.id,
        origin: origin_of(*units[u], f.file),
        weak: f.traits.is_weak,
    }
}

/// The strong or the weak definitions that compete among the first `k` of unit
/// `u`.
pub open spec fn competing_in(units: Seq<&UnitIndex>, weak: bool, u: int, k: int) -> Seq<
    ContenderView,
>
    decreases k,
{
    if k <= 0 {
        Seq::empty()
    } else if competes(units, u, k - 1) && units[u].functions@[k - 1].traits.is_weak == weak {
        competing_in(units, weak, u, k - 1).push(contender_at(units, u, k - 1))
    } else {
        competing_in(units, weak, u, k - 1)
    }
}

/// The strong or the weak definitions that compete in the first `u` units.
pub open spec fn competing_upto(units: Seq<&UnitIndex>, weak: bool, u: int) -> Seq<ContenderView>
    decreases u,
{
    if u <= 0 {
        Seq::empty()
    } else {
        competing_upto(units, weak, u - 1) + competing_in(
            units,
            weak,
            u - 1,
            units[u - 1].functions@.len() as int,
        )
    }
}

/// The definitions that compete, in the order they are entered in: strong ones,
/// then weak ones, each in the order of the units.
pub open spec fn competing_of(units: Seq<&UnitIndex>) -> Seq<ContenderView> {
    competing_upto(units, false, units.len() as int) + competing_upto(
        units,
        true,
        units.len() as int,
    )
}

fn has_weak_body(units: &Vec<&UnitIndex>, name: &str) -> (r: bool)
    ensures
        r == is_weakened(units@, name@),
{
    let mut u: usize = 0;
    while u < units.len()
        invariant
            u <= units@.len(),
            forall|v: int, j: int|
                0 <= v < u && 0 <= j < units@[v].functions@.len() ==> !#[trigger] weakens(
                    units@,
                    v,
                    j,
                    name@,
                ),
        decreases units@.len() - u,
    {
        let unit: &UnitIndex = units[u];
        let mut k: usize = 0;
        while k < unit.functions.len()
            invariant
                u < units@.len(),
                *unit == *units@[u as int],
                k <= unit.functions@.len(),
                forall|v: int, j: int|
                    0 <= v < u && 0 <= j < units@[v].functions@.len() ==> !#[trigger] weakens(
                        units@,
                        v,
                        j,
                        name@,
                    ),
                forall|j: int| 0 <= j < k ==> !#[trigger] weakens(units@, u as int, j, name@),
            decreases unit.functions@.len() - k,
        {
            let f = &unit.functions[k];
            if f.traits.is_weak && f.traits.is_defined && f.traits.linkage == Linkage::External
                && str_eq(f.name.as_str(), name) {
                assert(weakens(units@, u as int, k as int, name@));
                return true;
            }
            k += 1;
        }
        u += 1;
    }
    false
}

fn origin_path(unit: &UnitIndex, file: FileId) -> (r: String)
    ensures
        r@ == origin_of(*unit, file),
{
    let at = file.0 as usize;
    if at < unit.files.len() {
        unit.files[at].path.clone()
    } else {
        unit.own.path.clone()
    }
}

fn is_competing(units: &Vec<&UnitIndex>, f: &Function, files: &Vec<FileInfo>) -> (r: bool)
    ensures
        r == (is_offered(f@) && !merge_vars::is_dep(files@, f@.file) && is_weakened(
            units@,
            f@.name,
        )),
{
    f.traits.is_defined && f.traits.linkage == Linkage::External && !is_dep_file(files, f.file)
        && has_weak_body(units, f.name.as_str())
}

fn add_competing(out: &mut Vec<Contender>, units: &Vec<&UnitIndex>, weak: bool)
    ensures
        contender_views(final(out)@) == contender_views(old(out)@) + competing_upto(
            units@,
            weak,
            units@.len() as int,
        ),
{
    let ghost first = contender_views(out@);
    let mut u: usize = 0;
    assert(first + Seq::<ContenderView>::empty() =~= first);
    while u < units.len()
        invariant
            u <= units@.len(),
            contender_views(out@) == first + competing_upto(units@, weak, u as int),
        decreases units@.len() - u,
    {
        let unit: &UnitIndex = units[u];
        let ghost before = competing_upto(units@, weak, u as int);
        let mut k: usize = 0;
        assert(before + Seq::<ContenderView>::empty() =~= before);
        while k < unit.functions.len()
            invariant
                u < units@.len(),
                *unit == *units@[u as int],
                k <= unit.functions@.len(),
                contender_views(out@) == first + (before + competing_in(
                    units@,
                    weak,
                    u as int,
                    k as int,
                )),
            decreases unit.functions@.len() - k,
        {
            let f = &unit.functions[k];
            if f.traits.is_weak == weak && is_competing(units, f, &unit.files) {
                let c = Contender {
                    unit: u,
                    at: k,
                    id: f.id,
                    origin: origin_path(unit, f.file),
                    weak,
                };
                let ghost now = contender_views(out@);
                let ghost own = c@;
                out.push(c);
                proof {
                    assert(contender_views(out@) =~= now.push(own));
                    assert(own == contender_at(units@, u as int, k as int));
                    let upto = competing_in(units@, weak, u as int, k as int);
                    assert((first + (before + upto)).push(own) =~= first + (before + upto.push(
                        own,
                    )));
                }
            }
            k += 1;
        }
        u += 1;
    }
}

/// The definitions of the units of an image that compete, in the order they are
/// entered in.
pub fn competing(units: &Vec<&UnitIndex>) -> (r: Vec<Contender>)
    ensures
        contender_views(r@) == competing_of(units@),
{
    let mut out: Vec<Contender> = Vec::new();
    assert(contender_views(out@) =~= Seq::empty());
    add_competing(&mut out, units, false);
    assert(Seq::<ContenderView>::empty() + competing_upto(units@, false, units@.len() as int)
        =~= competing_upto(units@, false, units@.len() as int));
    add_competing(&mut out, units, true);
    out
}

/// Definition `k` is suppressed. Each definition asks for its own position as a
/// number where definitions of one function get one; this one is weak and
/// joined another, which is strong or stands in another file. The
/// configurations of one weak body are no override of each other.
pub open spec fn is_silenced(all: Seq<ContenderView>, got: Seq<FnId>, k: int) -> bool {
    let g = got[k].0 as int;
    all[k].weak && g != k && !(g < k && got[g].0 == g && all[g].weak && all[g].origin
        == all[k].origin)
}

/// The definitions of a unit that are suppressed among the first `k`.
pub open spec fn silenced_in(all: Seq<ContenderView>, got: Seq<FnId>, unit: int, k: int) -> Seq<FnId>
    decreases k,
{
    if k <= 0 {
        Seq::empty()
    } else if all[k - 1].unit == unit && is_silenced(all, got, k - 1) {
        silenced_in(all, got, unit, k - 1).push(all[k - 1].id)
    } else {
        silenced_in(all, got, unit, k - 1)
    }
}

/// For each unit of an image, the definitions whose bodies another definition
/// of the image suppresses, in the order they were entered in. `got` are the
/// numbers that registration gave the definitions.
pub fn suppressed_weak_bodies(units: usize, all: &Vec<Contender>, got: &Vec<FnId>) -> (r: Vec<
    Vec<FnId>,
>)
    requires
        forall|i: int| 0 <= i < all@.len() ==> (#[trigger] all@[i]).unit < units,
        got@.len() == all@.len(),
    ensures
        r@.len() == units,
        forall|u: int|
            0 <= u < units ==> (#[trigger] r@[u])@ == silenced_in(
                contender_views(all@),
                got@,
                u,
                all@.len() as int,
            ),
{
    let ghost views = contender_views(all@);
    let mut out: Vec<Vec<FnId>> = Vec::new();
    let mut u: usize = 0;
    while u < units
        invariant
            u <= units,
            out@.len() == u,
            forall|j: int| 0 <= j < u ==> (#[trigger] out@[j])@ == Seq::<FnId>::empty(),
        decreases units - u,
    {
        out.push(Vec::new());
        u += 1;
    }
    let mut k: usize = 0;
    while k < all.len()
        invariant
            k <= all@.len(),
            views == contender_views(all@),
            got@.len() == all@.len(),
            out@.len() == units,
            forall|i: int| 0 <= i < all@.len() ==> (#[trigger] all@[i]).unit < units,
            forall|j: int|
                0 <= j < units ==> (#[trigger] out@[j])@ == silenced_in(views, got@, j, k as int),
        decreases all@.len() - k,
    {
        let c = &all[k];
        let ghost before = out@;
        let g = got[k].0 as usize;
        let joined_own = g < k && got[g].0 as usize == g && all[g].weak && str_eq(
            all[g].origin.as_str(),
            c.origin.as_str(),
        );
        let silenced = c.weak && g != k && !joined_own;
        assert(views[k as int] == c@);
        assert(silenced == is_silenced(views, got@, k as int));
        if silenced {
            let mut own: Vec<FnId> = Vec::new();
            out.set_and_swap(c.unit, &mut own);
            own.push(c.id);
            out.set(c.unit, own);
        }
        assert forall|j: int| 0 <= j < units implies (#[trigger] out@[j])@ == silenced_in(
            views,
            got@,
            j,
            k + 1,
        ) by {
            assert(before[j]@ == silenced_in(views, got@, j, k as int));
        }
        k += 1;
    }
    out
}

/// The registration answers with a definition's own number, or with that of an
/// earlier definition of the same function that got its own.
pub open spec fn is_registration(got: Seq<FnId>) -> bool {
    forall|k: int|
        0 <= k < got.len() ==> (#[trigger] got[k]).0 <= k && got[got[k].0 as int] == got[k]
}

/// A strong definition that an image chose silences every weak definition of
/// the same function that is entered after it, whatever file either stands in.
pub proof fn law_a_strong_definition_silences_weak_ones(
    all: Seq<ContenderView>,
    got: Seq<FnId>,
    j: int,
    k: int,
)
    requires
        0 <= j < k < all.len(),
        got.len() == all.len(),
        got[j].0 == j,
        !all[j].weak,
        all[k].weak,
        got[k] == got[j],
    ensures
        is_silenced(all, got, k),
{
}

/// Weak bodies that stand in one file, configurations of one body, do not
/// silence each other.
pub proof fn law_configurations_stay_together(
    all: Seq<ContenderView>,
    got: Seq<FnId>,
    j: int,
    k: int,
)
    requires
        0 <= j < k < all.len(),
        got.len() == all.len(),
        got[j].0 == j,
        all[j].weak,
        got[k] == got[j],
        all[j].origin == all[k].origin,
    ensures
        !is_silenced(all, got, k),
{
}

/// Every function that is defined in an image keeps a body: whatever definition
/// is silenced, the one it joined is not.
pub proof fn law_some_body_is_kept(all: Seq<ContenderView>, got: Seq<FnId>, k: int)
    requires
        0 <= k < all.len(),
        got.len() == all.len(),
        is_registration(got),
    ensures
        0 <= got[k].0 <= k,
        got[got[k].0 as int] == got[k],
        !is_silenced(all, got, got[k].0 as int),
{
}

/// A definition that no other competes with keeps its body.
pub proof fn law_strong_definitions_are_kept(all: Seq<ContenderView>, got: Seq<FnId>, k: int)
    requires
        0 <= k < all.len(),
        !all[k].weak,
    ensures
        !is_silenced(all, got, k),
{
}

proof fn lemma_competing_in(units: Seq<&UnitIndex>, weak: bool, u: int, k: int, i: int)
    requires
        0 <= u < units.len(),
        0 <= k <= units[u].functions@.len(),
        0 <= i < competing_in(units, weak, u, k).len(),
    ensures
        is_contender(units, competing_in(units, weak, u, k)[i]),
        competing_in(units, weak, u, k)[i].weak == weak,
    decreases k,
{
    if i < competing_in(units, weak, u, k - 1).len() {
        lemma_competing_in(units, weak, u, k - 1, i);
    }
}

proof fn lemma_competing_upto(units: Seq<&UnitIndex>, weak: bool, u: int, i: int)
    requires
        0 <= u <= units.len(),
        0 <= i < competing_upto(units, weak, u).len(),
    ensures
        is_contender(units, competing_upto(units, weak, u)[i]),
        competing_upto(units, weak, u)[i].weak == weak,
    decreases u,
{
    let before = competing_upto(units, weak, u - 1);
    if i < before.len() {
        lemma_competing_upto(units, weak, u - 1, i);
    } else {
        lemma_competing_in(
            units,
            weak,
            u - 1,
            units[u - 1].functions@.len() as int,
            i - before.len(),
        );
    }
}

/// The contender is a function of a unit that competes.
pub open spec fn is_contender(units: Seq<&UnitIndex>, c: ContenderView) -> bool {
    &&& 0 <= c.unit < units.len()
    &&& 0 <= c.at < units[c.unit].functions@.len()
    &&& competes(units, c.unit, c.at)
    &&& c == contender_at(units, c.unit, c.at)
}

/// Only definitions that compete are entered, the strong ones before the weak
/// ones.
pub proof fn law_contenders_compete(units: Seq<&UnitIndex>, i: int)
    requires
        0 <= i < competing_of(units).len(),
    ensures
        is_contender(units, competing_of(units)[i]),
        competing_of(units)[i].weak == (i >= competing_upto(
            units,
            false,
            units.len() as int,
        ).len()),
{
    let n = units.len() as int;
    let strong = competing_upto(units, false, n);
    if i < strong.len() {
        lemma_competing_upto(units, false, n, i);
    } else {
        lemma_competing_upto(units, true, n, i - strong.len());
    }
}

proof fn lemma_silenced(all: Seq<ContenderView>, got: Seq<FnId>, unit: int, k: int, id: FnId) -> (i:
    int)
    requires
        0 <= k <= all.len(),
        silenced_in(all, got, unit, k).contains(id),
    ensures
        0 <= i < k,
        all[i].unit == unit,
        all[i].id == id,
        is_silenced(all, got, i),
    decreases k,
{
    if k <= 0 {
        0
    } else {
        let before = silenced_in(all, got, unit, k - 1);
        if before.contains(id) {
            lemma_silenced(all, got, unit, k - 1, id)
        } else {
            let whole = silenced_in(all, got, unit, k);
            let at = choose|at: int| 0 <= at < whole.len() && whole[at] == id;
            if at < before.len() {
                assert(before[at] == id);
            }
            k - 1
        }
    }
}

/// Function `k` of the unit has that number, competes and is weak.
pub open spec fn is_weak_contender(units: Seq<&UnitIndex>, u: int, k: int, id: FnId) -> bool {
    0 <= k < units[u].functions@.len() && units[u].functions@[k].id == id && competes(units, u, k)
        && units[u].functions@[k].traits.is_weak
}

/// Only weak definitions that compete are silenced, whatever the registration
/// answers.
pub proof fn law_only_weak_contenders_are_silenced(
    units: Seq<&UnitIndex>,
    got: Seq<FnId>,
    u: int,
    id: FnId,
)
    requires
        got.len() == competing_of(units).len(),
        silenced_in(competing_of(units), got, u, got.len() as int).contains(id),
    ensures
        0 <= u < units.len(),
        exists|k: int| #[trigger] is_weak_contender(units, u, k, id),
{
    let all = competing_of(units);
    let i = lemma_silenced(all, got, u, all.len() as int, id);
    law_contenders_compete(units, i);
    assert(is_weak_contender(units, u, all[i].at, id));
}

/// Where no unit has a weak body, nothing is silenced.
pub proof fn law_without_weak_bodies_all_are_kept(units: Seq<&UnitIndex>, got: Seq<FnId>, u: int)
    requires
        forall|v: int, k: int|
            0 <= v < units.len() && 0 <= k < (#[trigger] units[v]).functions@.len() ==> !(
            is_offered((#[trigger] units[v].functions@[k])@)
                && units[v].functions@[k].traits.is_weak),
    ensures
        competing_of(units).len() == 0,
        silenced_in(competing_of(units), got, u, competing_of(units).len() as int).len() == 0,
{
    let all = competing_of(units);
    if all.len() > 0 {
        law_contenders_compete(units, 0);
        let c = all[0];
        let name = units[c.unit].functions@[c.at]@.name;
        let (v, k) = choose|v: int, k: int|
            0 <= v < units.len() && 0 <= k < units[v].functions@.len() && #[trigger] weakens(
                units,
                v,
                k,
                name,
            );
        assert(weakens(units, v, k, name));
        assert(is_offered(units[v].functions@[k]@));
    }
}

} // verus!
