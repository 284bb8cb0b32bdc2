//! Merging the functions of a unit: which of them the program already holds,
//! which join another's body, and what the rest are registered as.

use crate::idmap;
use crate::idmap::{IdMap, IdSet};
use crate::ir::{FileId, FnId, Linkage, Span, StorageClass, TypeId, VarId};
use crate::merge::{FileMap, MergeMode};
use crate::program;
use crate::program::{
    function_index, has_internal_cpp, variable_index, Definition, FnTraits, FnView, Function,
    Variable,
};
use crate::remap;
use crate::remap::remap_type;
use crate::text::{chars_of, str_eq, string_of};
use vstd::prelude::*;

verus! {

/// The parameters a function declares.
pub open spec fn arity(f: FnView) -> nat {
    match f.traits.explicit_arity {
        Some(n) => n as nat,
        None => f.params.len(),
    }
}

/// A C++ declaration that no other unit sees and that no definition joined.
pub open spec fn is_open_declaration(f: FnView) -> bool {
    f.traits.is_cpp && !f.traits.is_defined && f.traits.linkage == Linkage::Internal
}

/// Two parameters of known types agree: they are of one type, or where
/// spellings may differ, of types that may name one.
pub open spec fn params_fit(
    types: Map<u32, u32>,
    loose: Option<Seq<(TypeId, TypeId)>>,
    a: VarId,
    b: VarId,
) -> bool {
    match (idmap::found(types, a.0), idmap::found(types, b.0)) {
        (Some(x), Some(y)) => match loose {
            Some(pairs) => x == y || pairs.contains((TypeId(x), TypeId(y))),
            None => x == y,
        },
        _ => true,
    }
}

/// Every pair of parameters agrees. A side that lists none says nothing
/// against it.
pub open spec fn lists_fit(
    types: Map<u32, u32>,
    loose: Option<Seq<(TypeId, TypeId)>>,
    a: Seq<VarId>,
    b: Seq<VarId>,
) -> bool {
    a.len() == 0 || b.len() == 0 || (a.len() == b.len() && forall|i: int|
        0 <= i < a.len() ==> params_fit(types, loose, #[trigger] a[i], b[i]))
}

/// `g` may be the definition of the declaration `d`.
pub open spec fn may_define(
    types: Map<u32, u32>,
    loose: Option<Seq<(TypeId, TypeId)>>,
    d: FnView,
    g: FnView,
) -> bool {
    &&& g.traits.is_cpp && g.traits.is_defined && g.traits.linkage == Linkage::Internal
    &&& g.name == d.name
    &&& g.traits.variadic == d.traits.variadic
    &&& arity(g) == arity(d)
    &&& lists_fit(types, loose, d.params, g.params)
}

/// The one function that may define `d`.
pub open spec fn only_definition(
    fns: Seq<FnView>,
    types: Map<u32, u32>,
    loose: Option<Seq<(TypeId, TypeId)>>,
    d: FnView,
) -> Option<FnId> {
    let fitting = fns.filter(|g: FnView| may_define(types, loose, d, g));
    if fitting.len() == 1 {
        Some(fitting[0].id)
    } else {
        None
    }
}

/// The definition of a declaration that spells its parameter types another
/// way: the one with its very types, else the one whose types may name them.
pub open spec fn respelled_by(
    fns: Seq<FnView>,
    types: Map<u32, u32>,
    loose: Seq<(TypeId, TypeId)>,
    d: FnView,
) -> Option<FnId> {
    match only_definition(fns, types, None, d) {
        Some(id) => Some(id),
        None => only_definition(fns, types, Some(loose), d),
    }
}

/// The open declarations of a unit that a definition of it defines, each with
/// that definition.
pub open spec fn respelled(
    fns: Seq<FnView>,
    types: Map<u32, u32>,
    loose: Seq<(TypeId, TypeId)>,
    k: int,
) -> Seq<(FnId, FnId)>
    decreases k,
{
    if k <= 0 {
        seq![]
    } else {
        let before = respelled(fns, types, loose, k - 1);
        let d = fns[k - 1];
        if is_open_declaration(d) {
            match respelled_by(fns, types, loose, d) {
                Some(g) => before.push((d.id, g)),
                None => before,
            }
        } else {
            before
        }
    }
}

fn holds_types(pairs: &Vec<(TypeId, TypeId)>, a: TypeId, b: TypeId) -> (r: bool)
    ensures
        r == pairs@.contains((a, b)),
{
    let mut k: usize = 0;
    while k < pairs.len()
        invariant
            k <= pairs@.len(),
            forall|j: int| 0 <= j < k ==> #[trigger] pairs@[j] != (a, b),
        decreases pairs@.len() - k,
    {
        if pairs[k].0 == a && pairs[k].1 == b {
            assert(pairs@[k as int] == (a, b));
            return true;
        }
        k += 1;
    }
    false
}

pub open spec fn loose_pairs(loose: Option<&Vec<(TypeId, TypeId)>>) -> Option<
    Seq<(TypeId, TypeId)>,
> {
    match loose {
        Some(p) => Some(p@),
        None => None,
    }
}

fn fit(types: &IdMap, loose: Option<&Vec<(TypeId, TypeId)>>, a: VarId, b: VarId) -> (r: bool)
    ensures
        r == params_fit(types@, loose_pairs(loose), a, b),
{
    match (types.get(a.0), types.get(b.0)) {
        (Some(x), Some(y)) => match loose {
            Some(pairs) => x == y || holds_types(pairs, TypeId(x), TypeId(y)),
            None => x == y,
        },
        _ => true,
    }
}

fn all_fit(
    types: &IdMap,
    loose: Option<&Vec<(TypeId, TypeId)>>,
    a: &Vec<VarId>,
    b: &Vec<VarId>,
) -> (r: bool)
    ensures
        r == lists_fit(types@, loose_pairs(loose), a@, b@),
{
    if a.len() == 0 || b.len() == 0 {
        return true;
    }
    if a.len() != b.len() {
        return false;
    }
    let mut k: usize = 0;
    while k < a.len()
        invariant
            k <= a@.len(),
            a@.len() == b@.len(),
            a@.len() > 0,
            forall|i: int|
                0 <= i < k ==> params_fit(types@, loose_pairs(loose), #[trigger] a@[i], b@[i]),
        decreases a@.len() - k,
    {
        if !fit(types, loose, a[k], b[k]) {
            assert(!params_fit(types@, loose_pairs(loose), a@[k as int], b@[k as int]));
            return false;
        }
        k += 1;
    }
    true
}

fn declared_arity(f: &Function) -> (r: usize)
    ensures
        r == arity(f@),
{
    match f.traits.explicit_arity {
        Some(n) => n as usize,
        None => f.params.len(),
    }
}

fn sole_definition(
    fns: &Vec<Function>,
    types: &IdMap,
    loose: Option<&Vec<(TypeId, TypeId)>>,
    d: &Function,
) -> (r: Option<FnId>)
    ensures
        r == only_definition(program::fn_views(fns@), types@, loose_pairs(loose), d@),
{
    let ghost all = program::fn_views(fns@);
    let ghost fits = |g: FnView| may_define(types@, loose_pairs(loose), d@, g);
    let mut found: Vec<FnId> = Vec::new();
    let mut k: usize = 0;
    proof {
        reveal(Seq::filter);
    }
    while k < fns.len()
        invariant
            k <= fns@.len(),
            all == program::fn_views(fns@),
            fits == (|g: FnView| may_define(types@, loose_pairs(loose), d@, g)),
            found@ == all.take(k as int).filter(fits).map_values(|g: FnView| g.id),
        decreases fns@.len() - k,
    {
        let g = &fns[k];
        proof {
            reveal(Seq::filter);
            assert(all[k as int] == g@);
            assert(all.take(k + 1).drop_last() =~= all.take(k as int));
            assert(all.take(k + 1).last() == all[k as int]);
        }
        let takes = g.traits.is_cpp && g.traits.is_defined && g.traits.linkage
            == Linkage::Internal && str_eq(g.name.as_str(), d.name.as_str()) && g.traits.variadic
            == d.traits.variadic && declared_arity(g) == declared_arity(d) && all_fit(
            types,
            loose,
            &d.params,
            &g.params,
        );
        assert(takes == fits(g@));
        if takes {
            found.push(g.id);
        }
        k += 1;
        assert(found@ =~= all.take(k as int).filter(fits).map_values(|g: FnView| g.id));
    }
    assert(all.take(k as int) =~= all);
    if found.len() == 1 {
        assert(found@[0] == all.filter(fits)[0].id);
        Some(found[0])
    } else {
        None
    }
}

/// The unit's C++ internal-linkage declarations that another definition of the
/// unit defines, each with that definition. Such a function that is called but
/// never defined does not link, so a declaration no definition joined is
/// defined under another spelling of a parameter type. Several candidates
/// leave the declaration alone. `loose` lists the types that may name one.
pub fn respelled_declarations(
    fns: &Vec<Function>,
    param_types: &IdMap,
    loose: &Vec<(TypeId, TypeId)>,
) -> (r: Vec<(FnId, FnId)>)
    ensures
        r@ == respelled(
            program::fn_views(fns@),
            param_types@,
            loose@,
            fns@.len() as int,
        ),
{
    let ghost all = program::fn_views(fns@);
    let mut out: Vec<(FnId, FnId)> = Vec::new();
    let mut k: usize = 0;
    while k < fns.len()
        invariant
            k <= fns@.len(),
            all == program::fn_views(fns@),
            out@ == respelled(all, param_types@, loose@, k as int),
        decreases fns@.len() - k,
    {
        let d = &fns[k];
        assert(all[k as int] == d@);
        if d.traits.is_cpp && !d.traits.is_defined && d.traits.linkage == Linkage::Internal {
            let own = match sole_definition(fns, param_types, None, d) {
                Some(id) => Some(id),
                None => sole_definition(fns, param_types, Some(loose), d),
            };
            match own {
                Some(g) => out.push((d.id, g)),
                None => {},
            }
        }
        k += 1;
    }
    out
}

/// A body in a header, as the units that hold it share it.
pub struct HeaderFn {
    pub origin: Span,
    pub name: String,
    pub text: String,
    pub id: FnId,
}

/// A function by the file, name and line it stands at.
pub struct FnKey {
    pub file: FileId,
    pub name: String,
    pub line: u32,
    pub id: FnId,
}

/// A definition of the unit's first configuration, by file and name.
pub struct BaseDef {
    pub file: FileId,
    pub name: String,
    pub id: FnId,
}

/// What is known of the functions merged so far.
pub struct FnKeys {
    pub headers: Vec<HeaderFn>,
    pub lines: Vec<FnKey>,
    /// The definitions of the unit's configurations that are merged already.
    pub bases: Vec<BaseDef>,
}

/// The function that shares the header body, by the first `k` entries.
pub open spec fn header_fn(
    v: Seq<HeaderFn>,
    origin: Span,
    name: Seq<char>,
    text: Seq<char>,
    k: int,
) -> Option<FnId>
    decreases k,
{
    if k <= 0 {
        None
    } else {
        let e = v[k - 1];
        if e.origin == origin && e.name@ == name && e.text@ == text {
            Some(e.id)
        } else {
            header_fn(v, origin, name, text, k - 1)
        }
    }
}

/// The function that stands at the file, name and line, by the first `k`
/// entries; the latest entry holds.
pub open spec fn line_fn(
    v: Seq<FnKey>,
    file: FileId,
    name: Seq<char>,
    line: u32,
    k: int,
) -> Option<FnId>
    decreases k,
{
    if k <= 0 {
        None
    } else {
        let e = v[k - 1];
        if e.file == file && e.name@ == name && e.line == line {
            Some(e.id)
        } else {
            line_fn(v, file, name, line, k - 1)
        }
    }
}

fn shared_header_fn(v: &Vec<HeaderFn>, origin: Span, name: &str, text: &str) -> (r: Option<FnId>)
    ensures
        r == header_fn(v@, origin, name@, text@, v@.len() as int),
{
    let mut k: usize = v.len();
    while k > 0
        invariant
            k <= v@.len(),
            header_fn(v@, origin, name@, text@, v@.len() as int) == header_fn(
                v@,
                origin,
                name@,
                text@,
                k as int,
            ),
        decreases k,
    {
        k -= 1;
        let e = &v[k];
        if e.origin == origin && str_eq(e.name.as_str(), name) && str_eq(e.text.as_str(), text) {
            return Some(e.id);
        }
    }
    None
}

pub fn standing_fn(v: &Vec<FnKey>, file: FileId, name: &str, line: u32) -> (r: Option<FnId>)
    ensures
        r == line_fn(v@, file, name@, line, v@.len() as int),
{
    let mut k: usize = v.len();
    while k > 0
        invariant
            k <= v@.len(),
            line_fn(v@, file, name@, line, v@.len() as int) == line_fn(
                v@,
                file,
                name@,
                line,
                k as int,
            ),
        decreases k,
    {
        k -= 1;
        let e = &v[k];
        if e.file == file && str_eq(e.name.as_str(), name) && e.line == line {
            return Some(e.id);
        }
    }
    None
}

/// The type a merged function has for its parameter `i`: the one recorded with
/// the function, else its variable's.
pub open spec fn merged_param_type(vars: Seq<Variable>, base: FnView, i: int) -> Option<TypeId> {
    if i < base.param_type_ids.len() {
        Some(base.param_type_ids[i])
    } else {
        match program::var_by_id(vars, base.params[i]) {
            Some(v) => Some(v.type_id),
            None => None,
        }
    }
}

/// `base` is another configuration's body of `f`. C has no overloading, so
/// there the name is enough; two C++ functions agree on their signature, and a
/// type either side cannot resolve counts as matching.
pub open spec fn is_other_arm(
    vars: Seq<Variable>,
    types: Map<u32, u32>,
    agree: Seq<(TypeId, TypeId)>,
    base: FnView,
    f: FnView,
) -> bool {
    !(f.traits.is_cpp && base.traits.is_cpp) || (base.params.len() == f.params.len() && forall|
        i: int,
    |
        0 <= i < f.params.len() ==> arm_param_agrees(vars, types, agree, base, f, i))
}

pub open spec fn arm_param_agrees(
    vars: Seq<Variable>,
    types: Map<u32, u32>,
    agree: Seq<(TypeId, TypeId)>,
    base: FnView,
    f: FnView,
    i: int,
) -> bool {
    match (merged_param_type(vars, base, i), idmap::found(types, f.params[i].0)) {
        (Some(a), Some(b)) => a.0 == b || agree.contains((a, TypeId(b))),
        _ => true,
    }
}

/// The merged functions a definition may be another arm of.
pub open spec fn arms(
    bases: Seq<BaseDef>,
    fns: Seq<FnView>,
    vars: Seq<Variable>,
    types: Map<u32, u32>,
    agree: Seq<(TypeId, TypeId)>,
    file: FileId,
    f: FnView,
    k: int,
) -> Seq<FnId>
    decreases k,
{
    if k <= 0 {
        seq![]
    } else {
        let before = arms(bases, fns, vars, types, agree, file, f, k - 1);
        let e = bases[k - 1];
        if e.file == file && e.name@ == f.name && (match program::fn_by_id(fns, e.id) {
            Some(base) => is_other_arm(vars, types, agree, base, f),
            None => false,
        }) {
            before.push(e.id)
        } else {
            before
        }
    }
}

fn has_other_arm(
    vars: &Vec<Variable>,
    types: &IdMap,
    agree: &Vec<(TypeId, TypeId)>,
    base: &Function,
    f: &Function,
) -> (r: bool)
    ensures
        r == is_other_arm(vars@, types@, agree@, base@, f@),
{
    if !(f.traits.is_cpp && base.traits.is_cpp) {
        return true;
    }
    if base.params.len() != f.params.len() {
        return false;
    }
    let mut i: usize = 0;
    while i < f.params.len()
        invariant
            i <= f@.params.len(),
            f.traits.is_cpp && base.traits.is_cpp,
            base@.params.len() == f@.params.len(),
            forall|j: int|
                0 <= j < i ==> arm_param_agrees(vars@, types@, agree@, base@, f@, j),
        decreases f@.params.len() - i,
    {
        let existing = if i < base.param_type_ids.len() {
            Some(base.param_type_ids[i])
        } else {
            match variable_index(vars, base.params[i]) {
                Some(k) => Some(vars[k].type_id),
                None => None,
            }
        };
        assert(existing == merged_param_type(vars@, base@, i as int));
        let agrees = match (existing, types.get(f.params[i].0)) {
            (Some(a), Some(b)) => a.0 == b || holds_types(agree, a, TypeId(b)),
            _ => true,
        };
        assert(agrees == arm_param_agrees(vars@, types@, agree@, base@, f@, i as int));
        if !agrees {
            return false;
        }
        i += 1;
    }
    true
}

fn other_arms(
    bases: &Vec<BaseDef>,
    fns: &Vec<Function>,
    vars: &Vec<Variable>,
    types: &IdMap,
    agree: &Vec<(TypeId, TypeId)>,
    file: FileId,
    f: &Function,
) -> (r: Vec<FnId>)
    ensures
        r@ == arms(
            bases@,
            program::fn_views(fns@),
            vars@,
            types@,
            agree@,
            file,
            f@,
            bases@.len() as int,
        ),
{
    let mut out: Vec<FnId> = Vec::new();
    let mut k: usize = 0;
    while k < bases.len()
        invariant
            k <= bases@.len(),
            out@ == arms(
                bases@,
                program::fn_views(fns@),
                vars@,
                types@,
                agree@,
                file,
                f@,
                k as int,
            ),
        decreases bases@.len() - k,
    {
        let e = &bases[k];
        if e.file == file && str_eq(e.name.as_str(), f.name.as_str()) {
            match function_index(fns, e.id) {
                Some(p) => {
                    assert(program::fn_views(fns@)[p as int] == fns@[p as int]@);
                    if has_other_arm(vars, types, agree, &fns[p], f) {
                        out.push(e.id);
                    }
                },
                None => {},
            }
        }
        k += 1;
    }
    out
}

/// What is merged along with a unit's functions.
pub struct FnContext<'a> {
    pub mode: MergeMode,
    pub map: &'a FileMap,
    /// The program's numbers of the unit's types.
    pub type_map: &'a Vec<TypeId>,
    /// The types of the unit's parameters, in the program.
    pub param_types: &'a IdMap,
    /// The declarations that another definition of the unit defines.
    pub respelled: &'a Vec<(FnId, FnId)>,
    /// The types that are one, or cannot be told apart.
    pub agree: &'a Vec<(TypeId, TypeId)>,
}

pub open spec fn is_respelled(v: Seq<(FnId, FnId)>, id: FnId) -> bool {
    exists|k: int| 0 <= k < v.len() && (#[trigger] v[k]).0 == id
}

/// Where a function of a unit goes.
#[derive(Debug, PartialEq, Eq)]
pub enum Placement {
    /// Nowhere: another of the unit's functions stands for it, or the unit
    /// that includes it brings its own.
    Dropped,
    /// The program holds it already, body and all.
    Known { id: FnId },
    /// The program holds its declaration, and this body extends that one's.
    /// Told apart is whether it is a header body that several units share.
    Extends { id: FnId, shared: bool },
    /// The program has to take it in.
    New,
}

/// The header body's owner, where a function's body stands in a header the
/// unit includes and its text is known.
pub open spec fn shared_by(
    keys: FnKeys,
    map: FileMap,
    f: FnView,
    text: Option<Seq<char>>,
) -> Option<FnId> {
    match header_text(map, f, text) {
        Some(t) => header_fn(
            keys.headers@,
            map.spec_span(f.span),
            f.name,
            t,
            keys.headers@.len() as int,
        ),
        None => None,
    }
}

pub open spec fn header_text(map: FileMap, f: FnView, text: Option<Seq<char>>) -> Option<
    Seq<char>,
> {
    if map.spec_of(f.span.file) != map.primary {
        text
    } else {
        None
    }
}

/// The one function a configuration's definition extends, if it is one.
pub open spec fn sole(v: Seq<FnId>) -> Option<FnId> {
    if v.len() == 1 {
        Some(v[0])
    } else {
        None
    }
}

pub open spec fn placement(
    keys: FnKeys,
    fns: Seq<FnView>,
    vars: Seq<Variable>,
    c: FnContext<'_>,
    f: FnView,
    text: Option<Seq<char>>,
) -> Placement {
    let file = c.map.spec_of(f.span.file);
    let shared = shared_by(keys, *c.map, f, text);
    let standing = if program::internal_cpp(f.traits) {
        None
    } else {
        line_fn(keys.lines@, file, f.name, f.span.line, keys.lines@.len() as int)
    };
    let arm = if c.mode == MergeMode::Variant && f.traits.is_defined {
        sole(
            arms(
                keys.bases@,
                fns,
                vars,
                c.param_types@,
                c.agree@,
                file,
                f,
                keys.bases@.len() as int,
            ),
        )
    } else {
        None
    };
    if is_respelled(c.respelled@, f.id) || (c.mode == MergeMode::HeaderPreamble
        && program::internal_cpp(f.traits) && f.traits.is_defined) {
        Placement::Dropped
    } else {
        match (shared, standing, arm) {
            (Some(id), _, _) => Placement::Extends { id, shared: true },
            (None, Some(id), _) => if c.mode == MergeMode::Variant {
                Placement::Extends { id, shared: false }
            } else {
                Placement::Known { id }
            },
            (None, None, Some(id)) => Placement::Extends { id, shared: false },
            (None, None, None) => Placement::New,
        }
    }
}

fn respells(v: &Vec<(FnId, FnId)>, id: FnId) -> (r: bool)
    ensures
        r == is_respelled(v@, id),
{
    let mut k: usize = 0;
    while k < v.len()
        invariant
            k <= v@.len(),
            forall|j: int| 0 <= j < k ==> (#[trigger] v@[j]).0 != id,
        decreases v@.len() - k,
    {
        if v[k].0 == id {
            return true;
        }
        k += 1;
    }
    false
}

pub open spec fn text_of(t: Option<&str>) -> Option<Seq<char>> {
    match t {
        Some(s) => Some(s@),
        None => None,
    }
}

/// Where a function of a unit goes.
pub fn place_function(
    keys: &FnKeys,
    fns: &Vec<Function>,
    vars: &Vec<Variable>,
    c: &FnContext<'_>,
    f: &Function,
    text: Option<&str>,
) -> (r: Placement)
    ensures
        r == placement(*keys, program::fn_views(fns@), vars@, *c, f@, text_of(text)),
{
    if respells(c.respelled, f.id) {
        return Placement::Dropped;
    }
    let internal = has_internal_cpp(&f.traits);
    if c.mode == MergeMode::HeaderPreamble && internal && f.traits.is_defined {
        return Placement::Dropped;
    }
    let file = c.map.of(f.span.file);
    if file != c.map.primary {
        match text {
            Some(t) => {
                match shared_header_fn(
                    &keys.headers,
                    c.map.span(f.span),
                    f.name.as_str(),
                    t,
                ) {
                    Some(id) => {
                        return Placement::Extends { id, shared: true };
                    },
                    None => {},
                }
            },
            None => {},
        }
    }
    if !internal {
        match standing_fn(&keys.lines, file, f.name.as_str(), f.span.line) {
            Some(id) => {
                return if c.mode == MergeMode::Variant {
                    Placement::Extends { id, shared: false }
                } else {
                    Placement::Known { id }
                };
            },
            None => {},
        }
    }
    if c.mode == MergeMode::Variant && f.traits.is_defined {
        let found = other_arms(&keys.bases, fns, vars, c.param_types, c.agree, file, f);
        if found.len() == 1 {
            return Placement::Extends { id: found[0], shared: false };
        }
    }
    Placement::New
}

/// The types of a unit's parameters in the program, by the first `k` variables.
pub open spec fn param_types_of(vars: Seq<Variable>, type_map: Seq<TypeId>, k: int) -> Map<u32, u32>
    decreases k,
{
    if k <= 0 {
        idmap::no_entries()
    } else {
        let before = param_types_of(vars, type_map, k - 1);
        let v = vars[k - 1];
        if v.storage == StorageClass::Param {
            before.insert(v.id.0, remap::type_in(type_map, v.type_id).0)
        } else {
            before
        }
    }
}

/// The types of a unit's parameters in the program.
pub fn unit_param_types(vars: &Vec<Variable>, type_map: &Vec<TypeId>) -> (r: IdMap)
    ensures
        r@ == param_types_of(vars@, type_map@, vars@.len() as int),
{
    let mut out = IdMap::new();
    let mut k: usize = 0;
    while k < vars.len()
        invariant
            k <= vars@.len(),
            out@ == param_types_of(vars@, type_map@, k as int),
        decreases vars@.len() - k,
    {
        let v = &vars[k];
        if v.storage == StorageClass::Param {
            out.insert(v.id.0, remap_type(v.type_id, type_map.as_slice()).0);
        }
        k += 1;
    }
    out
}

/// The name of a unit's parameter, by its first `k` variables.
pub open spec fn param_name(vars: Seq<Variable>, id: VarId, k: int) -> Option<Seq<char>>
    decreases k,
{
    if k <= 0 {
        None
    } else {
        let v = vars[k - 1];
        if v.storage == StorageClass::Param && v.id == id {
            Some(v.name@)
        } else {
            param_name(vars, id, k - 1)
        }
    }
}

fn unit_param_name(vars: &Vec<Variable>, id: VarId) -> (r: Option<&String>)
    ensures
        match r {
            Some(n) => param_name(vars@, id, vars@.len() as int) == Some(n@),
            None => param_name(vars@, id, vars@.len() as int) is None,
        },
{
    let mut k: usize = vars.len();
    while k > 0
        invariant
            k <= vars@.len(),
            param_name(vars@, id, vars@.len() as int) == param_name(vars@, id, k as int),
        decreases k,
    {
        k -= 1;
        if vars[k].storage == StorageClass::Param && vars[k].id == id {
            return Some(&vars[k].name);
        }
    }
    None
}

/// The parameter with that name among the first `k`.
pub open spec fn param_called(
    vars: Seq<Variable>,
    params: Seq<VarId>,
    name: Seq<char>,
    k: int,
) -> Option<VarId>
    decreases k,
{
    if k <= 0 {
        None
    } else {
        let own = match program::var_by_id(vars, params[k - 1]) {
            Some(v) => v.name@ == name,
            None => false,
        };
        if own {
            Some(params[k - 1])
        } else {
            param_called(vars, params, name, k - 1)
        }
    }
}

fn find_param(vars: &Vec<Variable>, params: &Vec<VarId>, name: &str) -> (r: Option<VarId>)
    ensures
        r == param_called(vars@, params@, name@, params@.len() as int),
{
    let mut k: usize = params.len();
    while k > 0
        invariant
            k <= params@.len(),
            param_called(vars@, params@, name@, params@.len() as int) == param_called(
                vars@,
                params@,
                name@,
                k as int,
            ),
        decreases k,
    {
        k -= 1;
        match variable_index(vars, params[k]) {
            Some(p) => {
                if str_eq(vars[p].name.as_str(), name) {
                    return Some(params[k]);
                }
            },
            None => {},
        }
    }
    None
}

/// The unit's parameters paired with those of the body they extend, by name
/// and never by position: a configuration may put a parameter ahead of the
/// others.
pub open spec fn paired(
    map: Map<u32, u32>,
    unit_vars: Seq<Variable>,
    vars: Seq<Variable>,
    own: Seq<VarId>,
    merged: Seq<VarId>,
    k: int,
) -> Map<u32, u32>
    decreases k,
{
    if k <= 0 {
        map
    } else {
        let before = paired(map, unit_vars, vars, own, merged, k - 1);
        match param_name(unit_vars, own[k - 1], unit_vars.len() as int) {
            Some(name) => match param_called(vars, merged, name, merged.len() as int) {
                Some(p) => before.insert(own[k - 1].0, p.0),
                None => before,
            },
            None => before,
        }
    }
}

fn pair_params(
    map: &mut IdMap,
    unit_vars: &Vec<Variable>,
    vars: &Vec<Variable>,
    own: &Vec<VarId>,
    merged: &Vec<VarId>,
)
    ensures
        final(map)@ == paired(old(map)@, unit_vars@, vars@, own@, merged@, own@.len() as int),
{
    let ghost first = map@;
    let mut k: usize = 0;
    while k < own.len()
        invariant
            k <= own@.len(),
            map@ == paired(first, unit_vars@, vars@, own@, merged@, k as int),
        decreases own@.len() - k,
    {
        match unit_param_name(unit_vars, own[k]) {
            Some(name) => {
                match find_param(vars, merged, name.as_str()) {
                    Some(p) => map.insert(own[k].0, p.0),
                    None => {},
                }
            },
            None => {},
        }
        k += 1;
    }
}

/// What merging a unit's functions leaves for the rest of the unit.
pub struct FnMerge {
    /// The numbers of the unit's functions in the program.
    pub fn_map: IdMap,
    /// The unit's functions whose bodies are not merged.
    pub dropped: IdSet,
    /// The program's functions that list parameters under the unit's numbers.
    pub adopted: IdSet,
    /// The program's functions that a body of the unit extends.
    pub remerged: IdSet,
    /// The numbers of the unit's parameters that the program holds already.
    pub var_map: IdMap,
    /// Some function of the unit is a header body that units share.
    pub shares_headers: bool,
}

pub struct FnMergeView {
    pub fn_map: Map<u32, u32>,
    pub dropped: Set<u32>,
    pub adopted: Set<u32>,
    pub remerged: Set<u32>,
    pub var_map: Map<u32, u32>,
    pub shares_headers: bool,
}

/// Before the first function of a unit has its place.
pub open spec fn nothing_settled() -> FnMergeView {
    FnMergeView {
        fn_map: idmap::no_entries(),
        dropped: Set::empty(),
        adopted: Set::empty(),
        remerged: Set::empty(),
        var_map: idmap::no_entries(),
        shares_headers: false,
    }
}

/// A user of a header body: the function and the unit that includes it.
pub open spec fn with_user(users: Seq<(FnId, FileId)>, id: FnId, unit: FileId) -> Seq<
    (FnId, FileId),
> {
    if users.contains((id, unit)) {
        users
    } else {
        users.push((id, unit))
    }
}

fn add_user(users: &mut Vec<(FnId, FileId)>, id: FnId, unit: FileId)
    ensures
        final(users)@ == with_user(old(users)@, id, unit),
{
    let mut k: usize = 0;
    while k < users.len()
        invariant
            k <= users@.len(),
            users@ == old(users)@,
            forall|j: int| 0 <= j < k ==> #[trigger] users@[j] != (id, unit),
        decreases users@.len() - k,
    {
        if users[k].0 == id && users[k].1 == unit {
            assert(users@[k as int] == (id, unit));
            return;
        }
        k += 1;
    }
    users.push((id, unit));
}

/// Some unit shares the function as a header body.
pub open spec fn is_shared(users: Seq<(FnId, FileId)>, id: FnId) -> bool {
    exists|k: int| 0 <= k < users.len() && (#[trigger] users[k]).0 == id
}

/// Whether some unit shares the function as a header body.
pub fn is_shared_header_function(users: &Vec<(FnId, FileId)>, id: FnId) -> (r: bool)
    ensures
        r == is_shared(users@, id),
{
    let mut k: usize = 0;
    while k < users.len()
        invariant
            k <= users@.len(),
            forall|j: int| 0 <= j < k ==> (#[trigger] users@[j]).0 != id,
        decreases users@.len() - k,
    {
        if users[k].0 == id {
            return true;
        }
        k += 1;
    }
    false
}

impl FnMerge {
    pub open spec fn view(&self) -> FnMergeView {
        FnMergeView {
            fn_map: self.fn_map@,
            dropped: self.dropped@,
            adopted: self.adopted@,
            remerged: self.remerged@,
            var_map: self.var_map@,
            shares_headers: self.shares_headers,
        }
    }

    pub fn new() -> (r: FnMerge)
        ensures
            r@ == nothing_settled(),
    {
        FnMerge {
            fn_map: IdMap::new(),
            dropped: IdSet::new(),
            adopted: IdSet::new(),
            remerged: IdSet::new(),
            var_map: IdMap::new(),
            shares_headers: false,
        }
    }

    /// Note where a function goes that the program does not have to take in.
    /// One that extends a body is merged into it, its parameters into those of
    /// the same name; one the program knows contributes nothing more.
    pub fn settle(
        &mut self,
        users: &mut Vec<(FnId, FileId)>,
        fns: &Vec<Function>,
        vars: &Vec<Variable>,
        unit_vars: &Vec<Variable>,
        map: &FileMap,
        f: &Function,
        place: &Placement,
    )
        ensures
            final(self)@ == settled(
                old(self)@,
                program::fn_views(fns@),
                vars@,
                unit_vars@,
                f@,
                *place,
            ),
            final(users)@ == match *place {
                Placement::Extends { id, shared: true } => with_user(old(users)@, id, map.primary),
                _ => old(users)@,
            },
    {
        match place {
            Placement::Dropped => {
                self.dropped.insert(f.id.0);
            },
            Placement::Known { id } => {
                self.fn_map.insert(f.id.0, id.0);
                self.dropped.insert(f.id.0);
            },
            Placement::Extends { id, shared } => {
                self.fn_map.insert(f.id.0, id.0);
                self.remerged.insert(id.0);
                if *shared {
                    add_user(users, *id, map.primary);
                    self.shares_headers = true;
                }
                match function_index(fns, *id) {
                    Some(k) => {
                        assert(program::fn_views(fns@)[k as int] == fns@[k as int]@);
                        pair_params(&mut self.var_map, unit_vars, vars, &f.params, &fns[k].params);
                    },
                    None => {},
                }
            },
            Placement::New => {},
        }
    }
}

pub open spec fn settled(
    s: FnMergeView,
    fns: Seq<FnView>,
    vars: Seq<Variable>,
    unit_vars: Seq<Variable>,
    f: FnView,
    place: Placement,
) -> FnMergeView {
    match place {
        Placement::Dropped => FnMergeView { dropped: s.dropped.insert(f.id.0), ..s },
        Placement::Known { id } => FnMergeView {
            fn_map: s.fn_map.insert(f.id.0, id.0),
            dropped: s.dropped.insert(f.id.0),
            ..s
        },
        Placement::Extends { id, shared } => FnMergeView {
            fn_map: s.fn_map.insert(f.id.0, id.0),
            remerged: s.remerged.insert(id.0),
            shares_headers: s.shares_headers || shared,
            var_map: match program::fn_by_id(fns, id) {
                Some(base) => paired(
                    s.var_map,
                    unit_vars,
                    vars,
                    f.params,
                    base.params,
                    f.params.len() as int,
                ),
                None => s.var_map,
            },
            ..s
        },
        Placement::New => s,
    }
}

/// A function as the program takes it in: under its own number and files, and
/// without its body where that stands in a dependency's header.
pub open spec fn entry_of(
    f: FnView,
    id: FnId,
    map: FileMap,
    type_map: Seq<TypeId>,
    is_dep: bool,
) -> FnView {
    FnView {
        id,
        traits: FnTraits { is_defined: f.traits.is_defined && !is_dep, ..f.traits },
        return_type: remap::type_in(type_map, f.return_type),
        locals: if is_dep {
            seq![]
        } else {
            f.locals
        },
        span: map.spec_span(f.span),
        end_line: if is_dep {
            f.span.line
        } else {
            f.end_line
        },
        file: map.spec_of(f.span.file),
        tu: Some(map.primary),
        ..f
    }
}

/// The types of a function's parameters in the program. One whose variable
/// was not lowered is of the unknown type, which matches any.
pub open spec fn incoming_types(
    params: Seq<VarId>,
    types: Map<u32, u32>,
    unknown: TypeId,
) -> Seq<TypeId> {
    params.map_values(
        |p: VarId|
            match idmap::found(types, p.0) {
                Some(t) => TypeId(t),
                None => unknown,
            },
    )
}

/// What the program's table is asked to register for a new function: the
/// entry, whose parameters are still the unit's, and their types.
pub fn new_entry(
    c: &FnContext<'_>,
    f: &Function,
    id: FnId,
    is_dep: bool,
    unknown: TypeId,
) -> (r: (Function, Vec<TypeId>))
    ensures
        r.0@ == entry_of(f@, id, *c.map, c.type_map@, is_dep),
        r.1@ == incoming_types(f.params@, c.param_types@, unknown),
{
    let mut entry = f.copy();
    entry.id = id;
    entry.span = c.map.span(f.span);
    entry.file = c.map.of(f.span.file);
    entry.tu = Some(c.map.primary);
    entry.return_type = remap_type(f.return_type, c.type_map.as_slice());
    if is_dep {
        let mut traits = f.traits;
        traits.is_defined = false;
        entry.traits = traits;
        entry.end_line = f.span.line;
        entry.locals = Vec::new();
        assert(entry.locals@ =~= seq![]);
    }
    let mut types: Vec<TypeId> = Vec::new();
    let mut k: usize = 0;
    while k < f.params.len()
        invariant
            k <= f.params@.len(),
            types@ == incoming_types(f.params@, c.param_types@, unknown).take(k as int),
        decreases f.params@.len() - k,
    {
        let own = match c.param_types.get(f.params[k].0) {
            Some(t) => TypeId(t),
            None => unknown,
        };
        types.push(own);
        k += 1;
        assert(types@ =~= incoming_types(f.params@, c.param_types@, unknown).take(k as int));
    }
    assert(incoming_types(f.params@, c.param_types@, unknown).take(k as int)
        =~= incoming_types(f.params@, c.param_types@, unknown));
    assert(entry@ == entry_of(f@, id, *c.map, c.type_map@, is_dep));
    (entry, types)
}

/// What the program's table answered: the number the function has now, and
/// whether that entry lists the parameters it was handed.
#[derive(Debug, Clone, Copy, PartialEq, Eq, Structural)]
pub struct Registered {
    pub id: FnId,
    pub owns_params: bool,
}

pub open spec fn entered(
    s: FnMergeView,
    map: FileMap,
    f: FnView,
    text: Option<Seq<char>>,
    got: Registered,
) -> FnMergeView {
    FnMergeView {
        fn_map: s.fn_map.insert(f.id.0, got.id.0),
        adopted: if got.owns_params {
            s.adopted.insert(got.id.0)
        } else {
            s.adopted
        },
        shares_headers: s.shares_headers || header_text(map, f, text) is Some,
        ..s
    }
}

impl FnMerge {
    /// Note the number a new function got. Its body is shared from here on
    /// where it stands in a header, and a function other units can see is
    /// known by where it stands. A unit that is a preamble hands the
    /// definition text on; a final program needs none.
    pub fn enter(
        &mut self,
        keys: &mut FnKeys,
        users: &mut Vec<(FnId, FileId)>,
        kept: &mut Vec<Definition>,
        c: &FnContext<'_>,
        f: &Function,
        text: Option<&str>,
        got: Registered,
    )
        ensures
            final(self)@ == entered(old(self)@, *c.map, f@, text_of(text), got),
            final(keys).bases@ == old(keys).bases@,
            match header_text(*c.map, f@, text_of(text)) {
                Some(t) => {
                    &&& final(keys).headers@.len() == old(keys).headers@.len() + 1
                    &&& final(keys).headers@.drop_last() == old(keys).headers@
                    &&& final(keys).headers@.last().origin == c.map.spec_span(f.span)
                    &&& final(keys).headers@.last().name@ == f.name@
                    &&& final(keys).headers@.last().text@ == t
                    &&& final(keys).headers@.last().id == got.id
                    &&& final(users)@ == with_user(old(users)@, got.id, c.map.primary)
                },
                None => final(keys).headers@ == old(keys).headers@ && final(users)@ == old(
                    users,
                )@,
            },
            if program::internal_cpp(f.traits) {
                final(keys).lines@ == old(keys).lines@
            } else {
                &&& final(keys).lines@.len() == old(keys).lines@.len() + 1
                &&& final(keys).lines@.drop_last() == old(keys).lines@
                &&& final(keys).lines@.last().file == c.map.spec_of(f.span.file)
                &&& final(keys).lines@.last().name@ == f.name@
                &&& final(keys).lines@.last().line == f.span.line
                &&& final(keys).lines@.last().id == got.id
            },
            match text_of(text) {
                Some(t) if c.mode == MergeMode::SymbolsOnly => {
                    &&& final(kept)@.len() == old(kept)@.len() + 1
                    &&& final(kept)@.drop_last() == old(kept)@
                    &&& final(kept)@.last().id == got.id
                    &&& final(kept)@.last().text@ == t
                },
                _ => final(kept)@ == old(kept)@,
            },
    {
        if got.owns_params {
            self.adopted.insert(got.id.0);
        }
        self.fn_map.insert(f.id.0, got.id.0);
        match text {
            Some(t) => {
                if c.mode == MergeMode::SymbolsOnly {
                    kept.push(Definition { id: got.id, text: string_of(&chars_of(t)) });
                    assert(kept@.drop_last() =~= old(kept)@);
                }
                if c.map.of(f.span.file) != c.map.primary {
                    keys.headers.push(
                        HeaderFn {
                            origin: c.map.span(f.span),
                            name: f.name.clone(),
                            text: string_of(&chars_of(t)),
                            id: got.id,
                        },
                    );
                    assert(keys.headers@.drop_last() =~= old(keys).headers@);
                    add_user(users, got.id, c.map.primary);
                    self.shares_headers = true;
                }
            },
            None => {},
        }
        if !has_internal_cpp(&f.traits) {
            keys.lines.push(
                FnKey {
                    file: c.map.of(f.span.file),
                    name: f.name.clone(),
                    line: f.span.line,
                    id: got.id,
                },
            );
            assert(keys.lines@.drop_last() =~= old(keys).lines@);
        }
    }
}

/// A function other units can see is taken in once: where it stands again, in
/// whatever unit, the program knows it.
pub proof fn law_visible_functions_are_taken_in_once(
    keys: FnKeys,
    fns: Seq<FnView>,
    vars: Seq<Variable>,
    c: FnContext<'_>,
    f: FnView,
    text: Option<Seq<char>>,
)
    requires
        !program::internal_cpp(f.traits),
        keys.lines@.len() > 0,
        keys.lines@.last().file == c.map.spec_of(f.span.file),
        keys.lines@.last().name@ == f.name,
        keys.lines@.last().line == f.span.line,
        !is_respelled(c.respelled@, f.id),
    ensures
        match placement(keys, fns, vars, c, f, text) {
            Placement::Known { id } => id == keys.lines@.last().id,
            Placement::Extends { id, shared } => shared || id == keys.lines@.last().id,
            _ => false,
        },
{
}

/// A configuration never takes in a second definition of a C function: the
/// one definition its file has under that name is the other arm.
pub proof fn law_arms_of_a_c_function_are_one(
    keys: FnKeys,
    fns: Seq<FnView>,
    vars: Seq<Variable>,
    c: FnContext<'_>,
    f: FnView,
)
    requires
        c.mode == MergeMode::Variant,
        f.traits.is_defined,
        !f.traits.is_cpp,
        !is_respelled(c.respelled@, f.id),
        keys.bases@.len() == 1,
        keys.bases@[0].file == c.map.spec_of(f.span.file),
        keys.bases@[0].name@ == f.name,
        program::fn_by_id(fns, keys.bases@[0].id) is Some,
    ensures
        placement(keys, fns, vars, c, f, None) is Extends,
{
    reveal_with_fuel(arms, 2);
}

/// Where a function stands, by which later units find it.
pub struct KeyView {
    pub file: FileId,
    pub name: Seq<char>,
    pub line: u32,
    pub id: FnId,
}

pub open spec fn key_views(v: Seq<FnKey>) -> Seq<KeyView> {
    v.map_values(|e: FnKey| KeyView { file: e.file, name: e.name@, line: e.line, id: e.id })
}

/// The numbers of a unit's functions, the respelled declarations among the
/// first `k` pairs under those of their definitions.
pub open spec fn map_respelled(map: Map<u32, u32>, pairs: Seq<(FnId, FnId)>, k: int) -> Map<
    u32,
    u32,
>
    decreases k,
{
    if k <= 0 {
        map
    } else {
        let before = map_respelled(map, pairs, k - 1);
        match idmap::found(before, pairs[k - 1].1.0) {
            Some(id) => before.insert(pairs[k - 1].0.0, id),
            None => before,
        }
    }
}

/// The declarations among the first `k` pairs that stand in the file of their
/// definition. Those are shared with the units that include the file; one in
/// another file is this unit's own affair.
pub open spec fn keys_respelled(
    map: Map<u32, u32>,
    pairs: Seq<(FnId, FnId)>,
    fns: Seq<FnView>,
    files: FileMap,
    k: int,
) -> Seq<KeyView>
    decreases k,
{
    if k <= 0 {
        seq![]
    } else {
        let before = keys_respelled(map, pairs, fns, files, k - 1);
        let pair = pairs[k - 1];
        match (
            idmap::found(map_respelled(map, pairs, k - 1), pair.1.0),
            program::fn_by_id(fns, pair.0),
            program::fn_by_id(fns, pair.1),
        ) {
            (Some(id), Some(d), Some(g)) => if d.span.file == g.span.file {
                before.push(
                    KeyView {
                        file: files.spec_of(d.span.file),
                        name: d.name,
                        line: d.span.line,
                        id: FnId(id),
                    },
                )
            } else {
                before
            },
            _ => before,
        }
    }
}

/// The unit's merge, and what is known of functions, once the respelled
/// declarations have the numbers of their definitions.
pub open spec fn are_respelled(
    keys: FnKeys,
    keys_after: FnKeys,
    merge: FnMergeView,
    merge_after: FnMergeView,
    fns: Seq<FnView>,
    pairs: Seq<(FnId, FnId)>,
    files: FileMap,
) -> bool {
    &&& merge_after == (FnMergeView {
        fn_map: map_respelled(merge.fn_map, pairs, pairs.len() as int),
        ..merge
    })
    &&& key_views(keys_after.lines@) == key_views(keys.lines@) + keys_respelled(
        merge.fn_map,
        pairs,
        fns,
        files,
        pairs.len() as int,
    )
    &&& keys_after.headers@ == keys.headers@
    &&& keys_after.bases@ == keys.bases@
}

impl FnMerge {
    /// Give the respelled declarations the numbers of their definitions.
    pub fn join_respelled(
        &mut self,
        keys: &mut FnKeys,
        fns: &Vec<Function>,
        pairs: &Vec<(FnId, FnId)>,
        files: &FileMap,
    )
        ensures
            are_respelled(
                *old(keys),
                *final(keys),
                old(self)@,
                final(self)@,
                program::fn_views(fns@),
                pairs@,
                *files,
            ),
    {
        let ghost all = program::fn_views(fns@);
        let ghost first = self@;
        let ghost lines = key_views(keys.lines@);
        let mut k: usize = 0;
        assert(lines + seq![] =~= lines);
        while k < pairs.len()
            invariant
                k <= pairs@.len(),
                all == program::fn_views(fns@),
                self@ == (FnMergeView {
                    fn_map: map_respelled(first.fn_map, pairs@, k as int),
                    ..first
                }),
                key_views(keys.lines@) == lines + keys_respelled(
                    first.fn_map,
                    pairs@,
                    all,
                    *files,
                    k as int,
                ),
                keys.headers@ == old(keys).headers@,
                keys.bases@ == old(keys).bases@,
            decreases pairs@.len() - k,
        {
            let (d, g) = pairs[k];
            let ghost so_far = keys_respelled(first.fn_map, pairs@, all, *files, k as int);
            match self.fn_map.get(g.0) {
                Some(id) => {
                    self.fn_map.insert(d.0, id);
                    match (function_index(fns, d), function_index(fns, g)) {
                        (Some(p), Some(q)) => {
                            assert(all[p as int] == fns@[p as int]@);
                            assert(all[q as int] == fns@[q as int]@);
                            if fns[p].span.file == fns[q].span.file {
                                let ghost before = keys.lines@;
                                let e = FnKey {
                                    file: files.of(fns[p].span.file),
                                    name: fns[p].name.clone(),
                                    line: fns[p].span.line,
                                    id: FnId(id),
                                };
                                let ghost v = KeyView {
                                    file: e.file,
                                    name: e.name@,
                                    line: e.line,
                                    id: e.id,
                                };
                                keys.lines.push(e);
                                assert(key_views(keys.lines@) =~= key_views(before).push(v));
                                assert(lines + so_far.push(v) =~= (lines + so_far).push(v));
                            }
                        },
                        _ => {},
                    }
                },
                None => {},
            }
            k += 1;
        }
    }
}

proof fn lemma_param_is_held(vars: Seq<Variable>, params: Seq<VarId>, name: Seq<char>, k: int)
    requires
        0 <= k <= params.len(),
        param_called(vars, params, name, k) is Some,
    ensures
        program::holds_var(vars, param_called(vars, params, name, k)->0),
    decreases k,
{
    let own = match program::var_by_id(vars, params[k - 1]) {
        Some(v) => v.name@ == name,
        None => false,
    };
    if own {
        program::lemma_var_is_held(vars, params[k - 1], 0);
    } else {
        lemma_param_is_held(vars, params, name, k - 1);
    }
}

proof fn lemma_paired_are_held(
    map: Map<u32, u32>,
    unit_vars: Seq<Variable>,
    vars: Seq<Variable>,
    own: Seq<VarId>,
    merged: Seq<VarId>,
    k: int,
)
    requires
        0 <= k <= own.len(),
        program::gives_vars(map, vars),
    ensures
        program::gives_vars(paired(map, unit_vars, vars, own, merged, k), vars),
    decreases k,
{
    if k > 0 {
        lemma_paired_are_held(map, unit_vars, vars, own, merged, k - 1);
        if let Some(name) = param_name(unit_vars, own[k - 1], unit_vars.len() as int) {
            if param_called(vars, merged, name, merged.len() as int) is Some {
                lemma_param_is_held(vars, merged, name, merged.len() as int);
            }
        }
    }
}

pub proof fn lemma_settled_is_held(
    s: FnMergeView,
    fns: Seq<FnView>,
    vars: Seq<Variable>,
    unit_vars: Seq<Variable>,
    f: FnView,
    place: Placement,
)
    requires
        program::gives_fns(s.fn_map, fns),
        program::gives_vars(s.var_map, vars),
        place matches Placement::Known { id } ==> program::holds_fn(fns, id),
        place matches Placement::Extends { id, .. } ==> program::holds_fn(fns, id),
    ensures
        program::gives_fns(settled(s, fns, vars, unit_vars, f, place).fn_map, fns),
        program::gives_vars(settled(s, fns, vars, unit_vars, f, place).var_map, vars),
{
    if let Placement::Extends { id, .. } = place {
        if let Some(base) = program::fn_by_id(fns, id) {
            lemma_paired_are_held(
                s.var_map,
                unit_vars,
                vars,
                f.params,
                base.params,
                f.params.len() as int,
            );
        }
    }
}

/// Every function that is known by where it stands, or by its text, is one of
/// the program's.
pub open spec fn knows_held(keys: FnKeys, fns: Seq<FnView>) -> bool {
    &&& forall|i: int|
        0 <= i < keys.headers@.len() ==> program::holds_fn(fns, (#[trigger] keys.headers@[i]).id)
    &&& forall|i: int|
        0 <= i < keys.lines@.len() ==> program::holds_fn(fns, (#[trigger] keys.lines@[i]).id)
    &&& forall|i: int|
        0 <= i < keys.bases@.len() ==> program::holds_fn(fns, (#[trigger] keys.bases@[i]).id)
}

proof fn lemma_header_is_known(
    v: Seq<HeaderFn>,
    origin: Span,
    name: Seq<char>,
    text: Seq<char>,
    k: int,
)
    requires
        0 <= k <= v.len(),
        header_fn(v, origin, name, text, k) is Some,
    ensures
        exists|i: int|
            0 <= i < v.len() && Some((#[trigger] v[i]).id) == header_fn(v, origin, name, text, k),
    decreases k,
{
    let e = v[k - 1];
    if !(e.origin == origin && e.name@ == name && e.text@ == text) {
        lemma_header_is_known(v, origin, name, text, k - 1);
    }
}

pub proof fn lemma_line_is_known(v: Seq<FnKey>, file: FileId, name: Seq<char>, line: u32, k: int)
    requires
        0 <= k <= v.len(),
        line_fn(v, file, name, line, k) is Some,
    ensures
        exists|i: int|
            0 <= i < v.len() && Some((#[trigger] v[i]).id) == line_fn(v, file, name, line, k),
    decreases k,
{
    let e = v[k - 1];
    if !(e.file == file && e.name@ == name && e.line == line) {
        lemma_line_is_known(v, file, name, line, k - 1);
    }
}

proof fn lemma_arms_are_known(
    bases: Seq<BaseDef>,
    fns: Seq<FnView>,
    vars: Seq<Variable>,
    types: Map<u32, u32>,
    agree: Seq<(TypeId, TypeId)>,
    file: FileId,
    f: FnView,
    k: int,
    j: int,
)
    requires
        0 <= k <= bases.len(),
        0 <= j < arms(bases, fns, vars, types, agree, file, f, k).len(),
    ensures
        exists|i: int|
            0 <= i < bases.len() && (#[trigger] bases[i]).id == arms(
                bases,
                fns,
                vars,
                types,
                agree,
                file,
                f,
                k,
            )[j],
    decreases k,
{
    let before = arms(bases, fns, vars, types, agree, file, f, k - 1);
    if j < before.len() {
        lemma_arms_are_known(bases, fns, vars, types, agree, file, f, k - 1, j);
    } else {
        assert(bases[k - 1].id == arms(bases, fns, vars, types, agree, file, f, k)[j]);
    }
}

/// Where a function goes into one that the program holds, that one is the
/// program's.
pub proof fn law_placements_are_the_programs(
    keys: FnKeys,
    fns: Seq<FnView>,
    vars: Seq<Variable>,
    c: FnContext<'_>,
    f: FnView,
    text: Option<Seq<char>>,
)
    requires
        knows_held(keys, fns),
    ensures
        placement(keys, fns, vars, c, f, text) matches Placement::Known { id }
            ==> program::holds_fn(fns, id),
        placement(keys, fns, vars, c, f, text) matches Placement::Extends { id, .. }
            ==> program::holds_fn(fns, id),
{
    let file = c.map.spec_of(f.span.file);
    if let Some(t) = header_text(*c.map, f, text) {
        let n = keys.headers@.len() as int;
        if header_fn(keys.headers@, c.map.spec_span(f.span), f.name, t, n) is Some {
            lemma_header_is_known(keys.headers@, c.map.spec_span(f.span), f.name, t, n);
        }
    }
    let n = keys.lines@.len() as int;
    if line_fn(keys.lines@, file, f.name, f.span.line, n) is Some {
        lemma_line_is_known(keys.lines@, file, f.name, f.span.line, n);
    }
    let m = keys.bases@.len() as int;
    let found = arms(keys.bases@, fns, vars, c.param_types@, c.agree@, file, f, m);
    if found.len() == 1 {
        lemma_arms_are_known(keys.bases@, fns, vars, c.param_types@, c.agree@, file, f, m, 0);
    }
}

proof fn lemma_respelled_map_is_held(
    map: Map<u32, u32>,
    pairs: Seq<(FnId, FnId)>,
    fns: Seq<FnView>,
    k: int,
)
    requires
        program::gives_fns(map, fns),
    ensures
        program::gives_fns(map_respelled(map, pairs, k), fns),
    decreases k,
{
    if k > 0 {
        lemma_respelled_map_is_held(map, pairs, fns, k - 1);
        let before = map_respelled(map, pairs, k - 1);
        let id = pairs[k - 1].1.0;
        if idmap::found(before, id) is Some {
            assert(before.dom().contains(id));
        }
    }
}

proof fn lemma_respelled_keys_are_held(
    map: Map<u32, u32>,
    pairs: Seq<(FnId, FnId)>,
    unit: Seq<FnView>,
    files: FileMap,
    fns: Seq<FnView>,
    k: int,
)
    requires
        program::gives_fns(map, fns),
    ensures
        forall|i: int|
            0 <= i < keys_respelled(map, pairs, unit, files, k).len() ==> program::holds_fn(
                fns,
                (#[trigger] keys_respelled(map, pairs, unit, files, k)[i]).id,
            ),
    decreases k,
{
    if k > 0 {
        lemma_respelled_keys_are_held(map, pairs, unit, files, fns, k - 1);
        lemma_respelled_map_is_held(map, pairs, fns, k - 1);
        let known = map_respelled(map, pairs, k - 1);
        let before = keys_respelled(map, pairs, unit, files, k - 1);
        let after = keys_respelled(map, pairs, unit, files, k);
        let id = pairs[k - 1].1.0;
        assert forall|i: int| 0 <= i < after.len() implies program::holds_fn(
            fns,
            (#[trigger] after[i]).id,
        ) by {
            if i < before.len() {
                assert(after[i] == before[i]);
            } else {
                assert(known.dom().contains(id));
            }
        }
    }
}

/// Declarations that take the numbers of their definitions take the program's.
pub proof fn law_respelled_declarations_become_the_programs(
    keys: FnKeys,
    keys_after: FnKeys,
    merge: FnMergeView,
    merge_after: FnMergeView,
    unit: Seq<FnView>,
    pairs: Seq<(FnId, FnId)>,
    files: FileMap,
    fns: Seq<FnView>,
)
    requires
        are_respelled(keys, keys_after, merge, merge_after, unit, pairs, files),
        knows_held(keys, fns),
        program::gives_fns(merge.fn_map, fns),
    ensures
        knows_held(keys_after, fns),
        program::gives_fns(merge_after.fn_map, fns),
{
    let n = pairs.len() as int;
    lemma_respelled_map_is_held(merge.fn_map, pairs, fns, n);
    lemma_respelled_keys_are_held(merge.fn_map, pairs, unit, files, fns, n);
    let more = keys_respelled(merge.fn_map, pairs, unit, files, n);
    let m = keys.lines@.len() as int;
    let all = key_views(keys_after.lines@);
    assert(key_views(keys.lines@).len() == m);
    assert(all.len() == keys_after.lines@.len());
    assert forall|i: int| 0 <= i < keys_after.lines@.len() implies program::holds_fn(
        fns,
        (#[trigger] keys_after.lines@[i]).id,
    ) by {
        assert(all[i].id == keys_after.lines@[i].id);
        if i < m {
            assert(all[i] == key_views(keys.lines@)[i]);
            assert(program::holds_fn(fns, keys.lines@[i].id));
        } else {
            assert(all[i] == more[i - m]);
        }
    }
}

} // verus!
