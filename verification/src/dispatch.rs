//! Which calls are dispatched once every unit is merged, and the members they
//! reach.

use crate::calls::{CallSite, SiteView};
use crate::finalize;
use crate::finalize::{has_this_param, Overrides};
use crate::ir::{FileId, FnId, Linkage, TargetId};
use crate::methods;
use crate::methods::{method_kind_of_function, MethodKind, MethodView};
use crate::program;
use crate::overload::arity_compatible;
use crate::program::{function_index, FnView, Function, RecordView, Variable};
use crate::text::str_eq;
use vstd::prelude::*;

verus! {

/// A call of a member that may be dispatched.
#[derive(Debug, PartialEq, Eq)]
pub struct MemberCall {
    /// The position of the callee's entry.
    pub callee: usize,
    /// The class the callee is a member of.
    pub class: String,
    pub kind: MethodKind,
    /// The class that the object is seen as.
    pub root: String,
    /// The file the call stands in.
    pub from: FileId,
    /// The file that a callee no other unit sees was found in: its class is
    /// seen there, which a header can make another file than the call's.
    pub bound_in: Option<FileId>,
}

pub struct MemberCallView {
    pub callee: FnView,
    pub class: Seq<char>,
    pub kind: MethodView,
    pub root: Seq<char>,
    pub from: FileId,
    pub bound_in: Option<FileId>,
}

/// A call of a member with its texts as sequences.
pub open spec fn call_view(fns: Seq<Function>, m: MemberCall) -> MemberCallView {
    MemberCallView {
        callee: fns[m.callee as int]@,
        class: m.class@,
        kind: m.kind@,
        root: m.root@,
        from: m.from,
        bound_in: m.bound_in,
    }
}

/// The member that a call names, where it may be dispatched: one of a C++
/// class, and no constructor.
pub open spec fn member_call_of(fns: Seq<FnView>, s: SiteView) -> Option<MemberCallView> {
    match s.callee_fn_id {
        None => None,
        Some(id) => match program::fn_by_id(fns, id) {
            None => None,
            Some(f) => match methods::method_of(f.name) {
                None => None,
                Some((class, kind)) => if !f.traits.is_cpp || kind is Ctor {
                    None
                } else {
                    Some(
                        MemberCallView {
                            callee: f,
                            class,
                            kind,
                            root: match s.receiver_class {
                                Some(root) => root,
                                None => class,
                            },
                            from: s.span.file,
                            bound_in: if f.traits.linkage == Linkage::Internal {
                                Some(f.file)
                            } else {
                                None
                            },
                        },
                    )
                },
            },
        },
    }
}

/// The member that a call names, where it may be dispatched.
pub fn member_call(fns: &Vec<Function>, site: &CallSite) -> (r: Option<MemberCall>)
    ensures
        match r {
            Some(m) => {
                &&& m.callee < fns@.len()
                &&& member_call_of(program::fn_views(fns@), site@) == Some(call_view(fns@, m))
            },
            None => member_call_of(program::fn_views(fns@), site@) is None,
        },
{
    let id = match site.callee_fn_id {
        Some(id) => id,
        None => return None,
    };
    let at = match function_index(fns, id) {
        Some(at) => at,
        None => return None,
    };
    let f = &fns[at];
    let (class, kind) = match method_kind_of_function(f.name.as_str()) {
        Some(found) => found,
        None => return None,
    };
    if !f.traits.is_cpp {
        return None;
    }
    match &kind {
        MethodKind::Ctor => return None,
        _ => {},
    }
    let root = match &site.receiver_class {
        Some(root) => root.clone(),
        None => class.clone(),
    };
    let bound_in = if f.traits.linkage == Linkage::Internal {
        Some(f.file)
    } else {
        None
    };
    Some(MemberCall { callee: at, class, kind, root, from: site.span.file, bound_in })
}

/// A call that sees those files sees the function: other units do, or the call
/// sees its file.
pub open spec fn is_visible(f: FnView, seen: Seq<FileId>) -> bool {
    f.traits.linkage != Linkage::Internal || seen.contains(f.file)
}

fn is_among(files: &Vec<FileId>, file: FileId) -> (r: bool)
    ensures
        r == files@.contains(file),
{
    let mut k: usize = 0;
    while k < files.len()
        invariant
            k <= files@.len(),
            forall|j: int| 0 <= j < k ==> files@[j] != file,
        decreases files@.len() - k,
    {
        if files[k] == file {
            return true;
        }
        k += 1;
    }
    false
}

fn sees(f: &Function, seen: &Vec<FileId>) -> (r: bool)
    ensures
        r == is_visible(f@, seen@),
{
    f.traits.linkage != Linkage::Internal || is_among(seen, f.file)
}

pub open spec fn is_seen_virtual(f: FnView, name: Seq<char>, seen: Seq<FileId>) -> bool {
    f.name == name && f.traits.is_virtual && is_visible(f, seen)
}

/// A call that sees those files sees a virtual function of that name.
pub open spec fn finds_virtual(fns: Seq<FnView>, name: Seq<char>, seen: Seq<FileId>) -> bool {
    exists|i: int| 0 <= i < fns.len() && is_seen_virtual(#[trigger] fns[i], name, seen)
}

fn sees_virtual(fns: &Vec<Function>, name: &str, seen: &Vec<FileId>) -> (r: bool)
    ensures
        r == finds_virtual(program::fn_views(fns@), name@, seen@),
{
    let ghost all = program::fn_views(fns@);
    let mut k: usize = 0;
    while k < fns.len()
        invariant
            k <= fns@.len(),
            all == program::fn_views(fns@),
            forall|i: int| 0 <= i < k ==> !is_seen_virtual(#[trigger] all[i], name@, seen@),
        decreases fns@.len() - k,
    {
        let f = &fns[k];
        assert(all[k as int] == f@);
        if f.traits.is_virtual && str_eq(f.name.as_str(), name) && sees(f, seen) {
            return true;
        }
        k += 1;
    }
    false
}

/// A call of a member is dispatched: a destructor's always, else where the
/// member, or one of its name that the call sees, is virtual.
pub open spec fn is_dispatched(fns: Seq<FnView>, m: MemberCallView, seen: Seq<FileId>) -> bool {
    m.kind is Dtor || m.callee.traits.is_virtual || finds_virtual(
        fns,
        methods::member_name(m.kind, m.class),
        seen,
    )
}

/// The function is a member of one of the classes.
pub open spec fn in_hierarchy(f: FnView, kind: MethodView, classes: Seq<String>) -> bool {
    exists|k: int|
        0 <= k < classes.len() && f.name == methods::member_name(
            kind,
            (#[trigger] classes[k])@,
        )
}

fn is_in_hierarchy(f: &Function, kind: &MethodKind, classes: &Vec<String>) -> (r: bool)
    ensures
        r == in_hierarchy(f@, kind@, classes@),
{
    let mut k: usize = 0;
    while k < classes.len()
        invariant
            k <= classes@.len(),
            forall|j: int|
                0 <= j < k ==> f@.name != methods::member_name(kind@, (#[trigger] classes@[j])@),
        decreases classes@.len() - k,
    {
        if str_eq(f.name.as_str(), kind.name_on(classes[k].as_str()).as_str()) {
            assert(f@.name == methods::member_name(kind@, classes@[k as int]@));
            return true;
        }
        k += 1;
    }
    false
}

/// From a class of an anonymous namespace the member is one the call may mean:
/// the call sees it, and where it is a member of that hierarchy, sees its file.
/// Every file's anonymous namespace spells a class the same.
pub open spec fn is_seen_here(
    f: FnView,
    kind: MethodView,
    classes: Seq<String>,
    seen: Seq<FileId>,
) -> bool {
    is_visible(f, seen) && (seen.contains(f.file) || !in_hierarchy(f, kind, classes))
}

fn sees_here(f: &Function, kind: &MethodKind, classes: &Vec<String>, seen: &Vec<FileId>) -> (r:
    bool)
    ensures
        r == is_seen_here(f@, kind@, classes@, seen@),
{
    sees(f, seen) && (is_among(seen, f.file) || !is_in_hierarchy(f, kind, classes))
}

/// The functions that a call of a member of an anonymous namespace's class may
/// mean, in their order.
pub fn members_seen_here(
    fns: &Vec<Function>,
    kind: &MethodKind,
    classes: &Vec<String>,
    seen: &Vec<FileId>,
) -> (r: Vec<FnId>)
    ensures
        r@ == program::fn_views(fns@).filter(
            |f: FnView| is_seen_here(f, kind@, classes@, seen@),
        ).map_values(|f: FnView| f.id),
{
    let ghost all = program::fn_views(fns@);
    let ghost keeps = |f: FnView| is_seen_here(f, kind@, classes@, seen@);
    let ghost ids = |f: FnView| f.id;
    let mut r: Vec<FnId> = Vec::new();
    let mut k: usize = 0;
    proof {
        reveal(Seq::filter);
        assert(r@ =~= all.take(0).filter(keeps).map_values(ids));
    }
    while k < fns.len()
        invariant
            k <= fns@.len(),
            all == program::fn_views(fns@),
            keeps == (|f: FnView| is_seen_here(f, kind@, classes@, seen@)),
            ids == (|f: FnView| f.id),
            r@ == all.take(k as int).filter(keeps).map_values(ids),
        decreases fns@.len() - k,
    {
        proof {
            reveal(Seq::filter);
            assert(all.take(k + 1).drop_last() =~= all.take(k as int));
            assert(all.take(k + 1).last() == fns@[k as int]@);
        }
        let ghost before = all.take(k as int).filter(keeps);
        if sees_here(&fns[k], kind, classes, seen) {
            r.push(fns[k].id);
            assert(before.push(fns@[k as int]@).map_values(ids) =~= before.map_values(ids).push(
                fns@[k as int].id,
            ));
        }
        k += 1;
    }
    assert(all.take(k as int) =~= all);
    r
}

/// What is known of the classes that a call may be dispatched to.
#[derive(Debug, PartialEq, Eq)]
pub struct Hierarchy {
    /// The files that the call, or the file its callee was found in, sees.
    pub seen: Vec<FileId>,
    /// The class the object is seen as is one of an anonymous namespace that
    /// the call sees.
    pub anonymous: bool,
    /// That class and those under it.
    pub classes: Vec<String>,
    /// The members found for the call, each with whether, as its own file sees
    /// it, its class derives from one of `classes`.
    pub members: Vec<(FnId, bool)>,
}

/// The number of explicit parameters: of the list where there is one, else the
/// one the declaration recorded.
pub open spec fn explicit_arity(vars: Seq<Variable>, f: FnView) -> Option<nat> {
    if f.params.len() == 0 {
        match f.traits.explicit_arity {
            Some(n) => Some(n as nat),
            None => None,
        }
    } else if finalize::takes_this(vars, f) {
        Some((f.params.len() - 1) as nat)
    } else {
        Some(f.params.len())
    }
}

fn explicit_arity_of(vars: &Vec<Variable>, f: &Function) -> (r: Option<usize>)
    ensures
        match r {
            Some(n) => explicit_arity(vars@, f@) == Some(n as nat),
            None => explicit_arity(vars@, f@) is None,
        },
{
    if f.params.len() == 0 {
        match f.traits.explicit_arity {
            Some(n) => Some(n as usize),
            None => None,
        }
    } else if has_this_param(vars, f) {
        Some(f.params.len() - 1)
    } else {
        Some(f.params.len())
    }
}

/// Two arities may be one: an unrecorded one fits any.
pub open spec fn arities_fit(a: Option<nat>, b: Option<nat>) -> bool {
    a is None || b is None || a == b
}

/// A dispatched call may reach the member `t`. One that the call cannot see is
/// a member of another file's class of that name: it is reached only where its
/// class derives from the receiver's. It is in the image of the callee and may
/// take as many arguments.
pub open spec fn may_reach(
    vars: Seq<Variable>,
    m: MemberCallView,
    h: Hierarchy,
    t: FnView,
    derives: bool,
) -> bool {
    let seen = if m.bound_in is Some || h.anonymous {
        is_seen_here(t, m.kind, h.classes@, h.seen@)
    } else {
        is_visible(t, h.seen@) || (t.name != methods::member_name(m.kind, m.root)
            && methods::method_of(t.name) is Some && derives)
    };
    seen && t.target == m.callee.target && arities_fit(
        explicit_arity(vars, m.callee),
        explicit_arity(vars, t),
    )
}

fn same_image(a: Option<TargetId>, b: Option<TargetId>) -> (r: bool)
    ensures
        r == (a == b),
{
    match (a, b) {
        (Some(x), Some(y)) => x == y,
        (None, None) => true,
        _ => false,
    }
}

/// The members that a dispatched call reaches among the first `k` found, with
/// their names.
pub open spec fn reached_among(
    fns: Seq<FnView>,
    vars: Seq<Variable>,
    m: MemberCallView,
    h: Hierarchy,
    k: int,
) -> Seq<(FnId, Seq<char>)>
    decreases k,
{
    if k <= 0 {
        Seq::empty()
    } else {
        let before = reached_among(fns, vars, m, h, k - 1);
        let (id, derives) = h.members@[k - 1];
        match program::fn_by_id(fns, id) {
            Some(t) if may_reach(vars, m, h, t, derives) => before.push((id, t.name)),
            _ => before,
        }
    }
}

/// The members that a call reaches once every unit is merged: those it is
/// dispatched to, where it is a call of a C++ member, no constructor, and is
/// dispatched at all.
pub open spec fn reached_from(
    fns: Seq<FnView>,
    vars: Seq<Variable>,
    s: SiteView,
    h: Hierarchy,
) -> Seq<(FnId, Seq<char>)> {
    match member_call_of(fns, s) {
        Some(m) => if is_dispatched(fns, m, h.seen@) {
            reached_among(fns, vars, m, h, h.members@.len() as int)
        } else {
            Seq::empty()
        },
        None => Seq::empty(),
    }
}

pub open spec fn member_views(v: Seq<(FnId, String)>) -> Seq<(FnId, Seq<char>)> {
    Seq::new(v.len(), |i: int| (v[i].0, v[i].1@))
}

/// Whether a call of a member is dispatched, from the files it sees.
pub fn dispatches(fns: &Vec<Function>, m: &MemberCall, seen: &Vec<FileId>) -> (r: bool)
    requires
        m.callee < fns@.len(),
    ensures
        r == is_dispatched(program::fn_views(fns@), call_view(fns@, *m), seen@),
{
    let is_destructor = match &m.kind {
        MethodKind::Dtor => true,
        _ => false,
    };
    is_destructor || fns[m.callee].traits.is_virtual || sees_virtual(
        fns,
        m.kind.name_on(m.class.as_str()).as_str(),
        seen,
    )
}

fn reaches(
    fns: &Vec<Function>,
    vars: &Vec<Variable>,
    m: &MemberCall,
    h: &Hierarchy,
    t: &Function,
    derives: bool,
) -> (r: bool)
    requires
        m.callee < fns@.len(),
    ensures
        r == may_reach(vars@, call_view(fns@, *m), *h, t@, derives),
{
    let callee = &fns[m.callee];
    let seen = if m.bound_in.is_some() || h.anonymous {
        sees_here(t, &m.kind, &h.classes, &h.seen)
    } else {
        sees(t, &h.seen) || (derives && !str_eq(
            t.name.as_str(),
            m.kind.name_on(m.root.as_str()).as_str(),
        ) && method_kind_of_function(t.name.as_str()).is_some())
    };
    seen && same_image(t.target, callee.target) && arity_compatible(
        explicit_arity_of(vars, callee),
        explicit_arity_of(vars, t),
    )
}

/// The members that a call reaches once every unit is merged.
pub fn overrides_of(
    fns: &Vec<Function>,
    vars: &Vec<Variable>,
    site: &CallSite,
    h: &Hierarchy,
) -> (r: Overrides)
    ensures
        member_views(r.members@) == reached_from(program::fn_views(fns@), vars@, site@, *h),
{
    let mut members: Vec<(FnId, String)> = Vec::new();
    assert(member_views(members@) =~= Seq::empty());
    let m = match member_call(fns, site) {
        Some(m) => m,
        None => return Overrides { members },
    };
    if !dispatches(fns, &m, &h.seen) {
        return Overrides { members };
    }
    let ghost all = program::fn_views(fns@);
    let ghost mv = call_view(fns@, m);
    let mut k: usize = 0;
    while k < h.members.len()
        invariant
            k <= h.members@.len(),
            m.callee < fns@.len(),
            all == program::fn_views(fns@),
            mv == call_view(fns@, m),
            member_views(members@) == reached_among(all, vars@, mv, *h, k as int),
        decreases h.members@.len() - k,
    {
        let (id, derives) = h.members[k];
        match function_index(fns, id) {
            Some(at) => {
                assert(all[at as int] == fns@[at as int]@);
                if reaches(fns, vars, &m, h, &fns[at], derives) {
                    let ghost before = member_views(members@);
                    let name = fns[at].name.clone();
                    let ghost one = (id, name@);
                    members.push((id, name));
                    assert(member_views(members@) =~= before.push(one));
                }
            },
            None => {},
        }
        k += 1;
    }
    Overrides { members }
}

/// The function `t` is one that a dispatched call of `f` may reach: both are in
/// one image and may take as many arguments, and `f` is a C++ member but no
/// constructor.
pub open spec fn overrides_callee(vars: Seq<Variable>, f: FnView, t: FnView) -> bool {
    &&& f.traits.is_cpp
    &&& methods::method_of(f.name) matches Some((_, kind)) && !(kind is Ctor)
    &&& t.target == f.target
    &&& arities_fit(explicit_arity(vars, f), explicit_arity(vars, t))
}

proof fn lemma_reached(
    fns: Seq<FnView>,
    vars: Seq<Variable>,
    m: MemberCallView,
    h: Hierarchy,
    k: int,
    j: int,
)
    requires
        0 <= k <= h.members@.len(),
        0 <= j < reached_among(fns, vars, m, h, k).len(),
    ensures
        ({
            let (id, name) = reached_among(fns, vars, m, h, k)[j];
            program::fn_by_id(fns, id) matches Some(t) && t.name == name && t.target
                == m.callee.target && arities_fit(
                explicit_arity(vars, m.callee),
                explicit_arity(vars, t),
            )
        }),
    decreases k,
{
    let before = reached_among(fns, vars, m, h, k - 1);
    if j < before.len() {
        lemma_reached(fns, vars, m, h, k - 1, j);
    }
}

/// What a call reaches is a function of its callee's image that may take as
/// many arguments, and only a call of a C++ member, no constructor, reaches
/// anything.
pub proof fn law_calls_reach_overrides_only(
    fns: Seq<FnView>,
    vars: Seq<Variable>,
    s: SiteView,
    h: Hierarchy,
    j: int,
)
    requires
        0 <= j < reached_from(fns, vars, s, h).len(),
    ensures
        s.callee_fn_id is Some,
        program::fn_by_id(fns, s.callee_fn_id->0) is Some,
        program::fn_by_id(fns, reached_from(fns, vars, s, h)[j].0) is Some,
        program::fn_by_id(fns, reached_from(fns, vars, s, h)[j].0)->0.name == reached_from(
            fns,
            vars,
            s,
            h,
        )[j].1,
        overrides_callee(
            vars,
            program::fn_by_id(fns, s.callee_fn_id->0)->0,
            program::fn_by_id(fns, reached_from(fns, vars, s, h)[j].0)->0,
        ),
{
    let m = member_call_of(fns, s)->0;
    lemma_reached(fns, vars, m, h, h.members@.len() as int, j);
}

/// Every record that [`finalize::expand_virtual_overrides`] adds for what the
/// calls reach is direct, copies a call of a C++ member that is no constructor
/// but for its number and callee, and calls a function of the callee's image
/// that may take as many arguments.
pub proof fn law_added_calls_are_dispatched(
    fns: Seq<FnView>,
    vars: Seq<Variable>,
    start: finalize::Expanded,
    calls: Seq<RecordView>,
    overrides: Seq<Overrides>,
    found: Seq<Hierarchy>,
    i: int,
)
    requires
        overrides.len() == calls.len(),
        found.len() == calls.len(),
        forall|k: int|
            0 <= k < calls.len() ==> member_views((#[trigger] overrides[k]).members@)
                == reached_from(fns, vars, calls[k].site, found[k]),
        start.records.len() <= i < finalize::expand_all(
            start,
            calls,
            overrides,
            calls.len() as int,
        ).records.len(),
    ensures
        exists|k: int|
            {
                let r = finalize::expand_all(
                    start,
                    calls,
                    overrides,
                    calls.len() as int,
                ).records[i];
                &&& 0 <= k < calls.len()
                &&& r.site.callee_fn_id is Some
                &&& r == finalize::override_record(
                    #[trigger] calls[k],
                    r.site.id,
                    r.site.callee_fn_id->0,
                    r.site.callee_name,
                )
                &&& r.site.is_direct
                &&& calls[k].site.callee_fn_id is Some
                &&& program::fn_by_id(fns, calls[k].site.callee_fn_id->0) is Some
                &&& program::fn_by_id(fns, r.site.callee_fn_id->0) is Some
                &&& overrides_callee(
                    vars,
                    program::fn_by_id(fns, calls[k].site.callee_fn_id->0)->0,
                    program::fn_by_id(fns, r.site.callee_fn_id->0)->0,
                )
            },
{
    let n = calls.len() as int;
    finalize::law_expansion_adds_only_what_is_new(start, calls, overrides, n);
    let e = finalize::expand_all(start, calls, overrides, n);
    let r = e.records[i];
    assert(finalize::is_override(r, calls, overrides));
    let (k, j) = choose|k: int, j: int| #[trigger] finalize::expands(r, calls, overrides, k, j);
    assert(finalize::expands(r, calls, overrides, k, j));
    assert(member_views(overrides[k].members@)[j] == (
        overrides[k].members@[j].0,
        overrides[k].members@[j].1@,
    ));
    law_calls_reach_overrides_only(fns, vars, calls[k].site, found[k], j);
    assert(r == finalize::override_record(
        calls[k],
        r.site.id,
        r.site.callee_fn_id->0,
        r.site.callee_name,
    ));
}

/// A member that no other unit sees, that stands in a file the call does not
/// see, and whose class does not derive from the receiver's as its own file
/// sees it, is never reached: it is a member of another class of that name.
pub proof fn law_unseen_members_are_not_reached(
    vars: Seq<Variable>,
    m: MemberCallView,
    h: Hierarchy,
    t: FnView,
)
    requires
        t.traits.linkage == Linkage::Internal,
        !h.seen@.contains(t.file),
    ensures
        !may_reach(vars, m, h, t, false),
{
}

} // verus!
