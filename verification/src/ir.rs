//! What lowering a unit yields: types, functions, variables, call sites and
//! the constraints by which values flow between them.

use crate::text::{chars_of, str_eq, string_of};
use vstd::prelude::*;

verus! {

#[derive(Debug, Clone, Copy, PartialEq, Eq, Structural)]
pub struct FnId(pub u32);

#[derive(Debug, Clone, Copy, PartialEq, Eq, Structural)]
pub struct VarId(pub u32);

#[derive(Debug, Clone, Copy, PartialEq, Eq, Structural)]
pub struct TypeId(pub u32);

#[derive(Debug, Clone, Copy, PartialEq, Eq, Structural)]
pub struct FileId(pub u32);

#[derive(Debug, Clone, Copy, PartialEq, Eq, Structural)]
pub struct FieldId(pub u32);

#[derive(Debug, Clone, Copy, PartialEq, Eq, Structural)]
pub struct TargetId(pub u32);

/// Where something stands in the original sources.
#[derive(Debug, Clone, Copy, PartialEq, Eq, Structural)]
pub struct Span {
    pub file: FileId,
    pub line: u32,
    pub col: u32,
}

#[derive(Debug, Clone, Copy, PartialEq, Eq, Structural)]
pub enum Linkage {
    External,
    Internal,
}

#[derive(Debug, Clone, Copy, PartialEq, Eq, Structural)]
pub enum StorageClass {
    Global,
    FileStatic,
    FnStatic,
    Local,
    Param,
}

/// The arithmetic family of a type, as far as overloads are told apart by it.
#[derive(Debug, Clone, Copy, PartialEq, Eq, Structural)]
pub enum ScalarKind {
    Bool,
    Char,
    Short,
    Int,
    Long,
    LongLong,
    Float,
    Double,
    Aggregate,
}

/// The shape of a type.
#[derive(Debug, PartialEq, Eq)]
pub enum TypeDesc {
    Void,
    Bool,
    Char,
    Short,
    Int,
    Long,
    LongLong,
    Float,
    Double,
    Unknown,
    Ptr(Box<TypeDesc>),
    Array { elem: Box<TypeDesc>, size: Option<u64> },
    FnPtr { ret: Box<TypeDesc>, params: Vec<TypeDesc> },
    Struct { name: String, fields: Vec<(String, TypeDesc)> },
    Union { name: String, fields: Vec<(String, TypeDesc)> },
}

/// The shape of a type, with its texts and lists as sequences.
pub enum DescView {
    Void,
    Bool,
    Char,
    Short,
    Int,
    Long,
    LongLong,
    Float,
    Double,
    Unknown,
    Ptr(Box<DescView>),
    Array { elem: Box<DescView>, size: Option<u64> },
    FnPtr { ret: Box<DescView>, params: Seq<DescView> },
    Struct { name: Seq<char>, fields: Seq<(Seq<char>, DescView)> },
    Union { name: Seq<char>, fields: Seq<(Seq<char>, DescView)> },
}

impl TypeDesc {
    pub open spec fn view(&self) -> DescView
        decreases self,
    {
        match self {
            TypeDesc::Void => DescView::Void,
            TypeDesc::Bool => DescView::Bool,
            TypeDesc::Char => DescView::Char,
            TypeDesc::Short => DescView::Short,
            TypeDesc::Int => DescView::Int,
            TypeDesc::Long => DescView::Long,
            TypeDesc::LongLong => DescView::LongLong,
            TypeDesc::Float => DescView::Float,
            TypeDesc::Double => DescView::Double,
            TypeDesc::Unknown => DescView::Unknown,
            TypeDesc::Ptr(x) => DescView::Ptr(Box::new(x.view())),
            TypeDesc::Array { elem, size } => DescView::Array {
                elem: Box::new(elem.view()),
                size: *size,
            },
            TypeDesc::FnPtr { ret, params } => DescView::FnPtr {
                ret: Box::new(ret.view()),
                params: desc_views(params@),
            },
            TypeDesc::Struct { name, fields } => DescView::Struct {
                name: name@,
                fields: field_views(fields@),
            },
            TypeDesc::Union { name, fields } => DescView::Union {
                name: name@,
                fields: field_views(fields@),
            },
        }
    }
}

pub open spec fn desc_views(v: Seq<TypeDesc>) -> Seq<DescView>
    decreases v,
{
    if v.len() == 0 {
        Seq::empty()
    } else {
        desc_views(v.drop_last()).push(v.last().view())
    }
}

pub open spec fn field_views(v: Seq<(String, TypeDesc)>) -> Seq<(Seq<char>, DescView)>
    decreases v,
{
    if v.len() == 0 {
        Seq::empty()
    } else {
        field_views(v.drop_last()).push((v.last().0@, v.last().1.view()))
    }
}

proof fn lemma_desc_views(v: Seq<TypeDesc>)
    ensures
        desc_views(v).len() == v.len(),
        forall|i: int| 0 <= i < v.len() ==> #[trigger] desc_views(v)[i] == v[i]@,
    decreases v.len(),
{
    if v.len() > 0 {
        lemma_desc_views(v.drop_last());
    }
}

pub proof fn lemma_field_list_views(v: Seq<(String, TypeDesc)>)
    ensures
        field_views(v).len() == v.len(),
        forall|i: int| 0 <= i < v.len() ==> #[trigger] field_views(v)[i] == (v[i].0@, v[i].1@),
    decreases v.len(),
{
    if v.len() > 0 {
        lemma_field_list_views(v.drop_last());
    }
}

/// Two field lists that agree position by position.
pub open spec fn same_fields(f: Seq<(String, TypeDesc)>, g: Seq<(String, TypeDesc)>) -> bool {
    &&& f.len() == g.len()
    &&& forall|i: int|
        0 <= i < f.len() ==> (#[trigger] f[i]).0@ == g[i].0@ && f[i].1@ == g[i].1@
}

fn fields_eq(f: &Vec<(String, TypeDesc)>, g: &Vec<(String, TypeDesc)>) -> (r: bool)
    ensures
        r == same_fields(f@, g@),
    decreases f,
{
    if f.len() != g.len() {
        return false;
    }
    let mut i: usize = 0;
    while i < f.len()
        invariant
            f@.len() == g@.len(),
            i <= f@.len(),
            forall|j: int|
                0 <= j < i ==> (#[trigger] f@[j]).0@ == g@[j].0@ && f@[j].1@ == g@[j].1@,
        decreases f@.len() - i,
    {
        let a = &f[i];
        let b = &g[i];
        assert(decreases_to!(f => f@[i as int].1));
        if !str_eq(a.0.as_str(), b.0.as_str()) || !desc_eq(&a.1, &b.1) {
            assert(!(f@[i as int].0@ == g@[i as int].0@ && f@[i as int].1@ == g@[i as int].1@));
            return false;
        }
        i += 1;
    }
    true
}

fn descs_eq(p: &Vec<TypeDesc>, q: &Vec<TypeDesc>) -> (r: bool)
    ensures
        r == (p@.len() == q@.len() && forall|i: int|
            0 <= i < p@.len() ==> (#[trigger] p@[i])@ == q@[i]@),
    decreases p,
{
    if p.len() != q.len() {
        return false;
    }
    let mut i: usize = 0;
    while i < p.len()
        invariant
            p@.len() == q@.len(),
            i <= p@.len(),
            forall|j: int| 0 <= j < i ==> (#[trigger] p@[j])@ == q@[j]@,
        decreases p@.len() - i,
    {
        assert(decreases_to!(p => p@[i as int]));
        if !desc_eq(&p[i], &q[i]) {
            assert(p@[i as int]@ != q@[i as int]@);
            return false;
        }
        i += 1;
    }
    true
}

proof fn lemma_struct_views(a: TypeDesc, b: TypeDesc)
    ensures
        match (a, b) {
            (TypeDesc::Struct { name: m, fields: f }, TypeDesc::Struct { name: n, fields: g }) => {
                (a@ == b@) <==> (m@ == n@ && same_fields(f@, g@))
            },
            (TypeDesc::Union { name: m, fields: f }, TypeDesc::Union { name: n, fields: g }) => {
                (a@ == b@) <==> (m@ == n@ && same_fields(f@, g@))
            },
            _ => true,
        },
{
    match (a, b) {
        (TypeDesc::Struct { name: m, fields: f }, TypeDesc::Struct { name: n, fields: g }) => {
            lemma_field_views(f@, g@);
        },
        (TypeDesc::Union { name: m, fields: f }, TypeDesc::Union { name: n, fields: g }) => {
            lemma_field_views(f@, g@);
        },
        _ => {},
    }
}

proof fn lemma_field_views(f: Seq<(String, TypeDesc)>, g: Seq<(String, TypeDesc)>)
    ensures
        (field_views(f) == field_views(g)) <==> same_fields(f, g),
{
    let x = field_views(f);
    let y = field_views(g);
    lemma_field_list_views(f);
    lemma_field_list_views(g);
    if same_fields(f, g) {
        assert forall|i: int| 0 <= i < x.len() implies x[i] == y[i] by {
            assert(f[i].0@ == g[i].0@);
        }
        assert(x =~= y);
    }
    if x == y {
        assert forall|i: int| 0 <= i < f.len() implies (#[trigger] f[i]).0@ == g[i].0@ && f[i].1@
            == g[i].1@ by {
            assert(x[i] == y[i]);
        }
    }
}

proof fn lemma_fn_views(a: TypeDesc, b: TypeDesc)
    ensures
        match (a, b) {
            (TypeDesc::FnPtr { ret: x, params: p }, TypeDesc::FnPtr { ret: y, params: q }) => {
                (a@ == b@) <==> (x@ == y@ && p@.len() == q@.len() && forall|i: int|
                    0 <= i < p@.len() ==> (#[trigger] p@[i])@ == q@[i]@)
            },
            _ => true,
        },
{
    match (a, b) {
        (TypeDesc::FnPtr { ret: x, params: p }, TypeDesc::FnPtr { ret: y, params: q }) => {
            let u = desc_views(p@);
            let v = desc_views(q@);
            lemma_desc_views(p@);
            lemma_desc_views(q@);
            if p@.len() == q@.len() && forall|i: int|
                0 <= i < p@.len() ==> (#[trigger] p@[i])@ == q@[i]@ {
                assert forall|i: int| 0 <= i < u.len() implies u[i] == v[i] by {
                    assert(p@[i]@ == q@[i]@);
                }
                assert(u =~= v);
            }
            if u == v {
                assert forall|i: int| 0 <= i < p@.len() implies (#[trigger] p@[i])@ == q@[i]@ by {
                    assert(u[i] == v[i]);
                }
            }
        },
        _ => {},
    }
}

/// Whether two types are one.
pub fn desc_eq(a: &TypeDesc, b: &TypeDesc) -> (r: bool)
    ensures
        r == (a@ == b@),
    decreases a,
{
    proof {
        lemma_struct_views(*a, *b);
        lemma_fn_views(*a, *b);
    }
    match (a, b) {
        (TypeDesc::Void, TypeDesc::Void) => true,
        (TypeDesc::Bool, TypeDesc::Bool) => true,
        (TypeDesc::Char, TypeDesc::Char) => true,
        (TypeDesc::Short, TypeDesc::Short) => true,
        (TypeDesc::Int, TypeDesc::Int) => true,
        (TypeDesc::Long, TypeDesc::Long) => true,
        (TypeDesc::LongLong, TypeDesc::LongLong) => true,
        (TypeDesc::Float, TypeDesc::Float) => true,
        (TypeDesc::Double, TypeDesc::Double) => true,
        (TypeDesc::Unknown, TypeDesc::Unknown) => true,
        (TypeDesc::Ptr(x), TypeDesc::Ptr(y)) => desc_eq(x, y),
        (TypeDesc::Array { elem: x, size: m }, TypeDesc::Array { elem: y, size: n }) => *m == *n
            && desc_eq(x, y),
        (TypeDesc::FnPtr { ret: x, params: p }, TypeDesc::FnPtr { ret: y, params: q }) => desc_eq(
            x,
            y,
        ) && descs_eq(p, q),
        (TypeDesc::Struct { name: m, fields: f }, TypeDesc::Struct { name: n, fields: g }) => str_eq(
            m.as_str(),
            n.as_str(),
        ) && fields_eq(f, g),
        (TypeDesc::Union { name: m, fields: f }, TypeDesc::Union { name: n, fields: g }) => str_eq(
            m.as_str(),
            n.as_str(),
        ) && fields_eq(f, g),
        _ => false,
    }
}

/// A function type that lists no parameters.
pub fn fn_ptr_to(ret: TypeDesc) -> (r: TypeDesc)
    ensures
        r@ == (DescView::FnPtr { ret: Box::new(ret@), params: Seq::empty() }),
{
    let r = TypeDesc::FnPtr { ret: Box::new(ret), params: Vec::new() };
    proof {
        lemma_desc_views(r->FnPtr_params@);
        assert(desc_views(r->FnPtr_params@) =~= Seq::empty());
    }
    r
}

/// A class known by its name alone.
pub fn struct_named(name: String) -> (r: TypeDesc)
    ensures
        r@ == (DescView::Struct { name: name@, fields: Seq::empty() }),
{
    let r = TypeDesc::Struct { name, fields: Vec::new() };
    proof {
        lemma_field_list_views(r->Struct_fields@);
        assert(field_views(r->Struct_fields@) =~= Seq::empty());
    }
    r
}

/// A union known by its name alone.
pub fn union_named(name: String) -> (r: TypeDesc)
    ensures
        r@ == (DescView::Union { name: name@, fields: Seq::empty() }),
{
    let r = TypeDesc::Union { name, fields: Vec::new() };
    proof {
        lemma_field_list_views(r->Union_fields@);
        assert(field_views(r->Union_fields@) =~= Seq::empty());
    }
    r
}

/// How values flow.
#[derive(Debug, PartialEq, Eq)]
pub enum FlowConstraint {
    Copy { dst: VarId, src: VarId },
    AddrOfVar { dst: VarId, src: VarId },
    AddrOfFn { dst: VarId, callee: FnId },
    Load { dst: VarId, src: VarId },
    Store { dst: VarId, src: VarId },
    UnwrapPointer { dst: VarId, src: VarId },
    GepField { dst: VarId, base: VarId, field: FieldId, field_name: String },
    ArrayFnMember { array: VarId, callee: FnId },
    CallReturn { dst: VarId, callee_name: String, caller: Option<FnId> },
    CallReturnIndirect { dst: VarId, callee_var: VarId },
    NewHeap { dst: VarId },
    StringConst { dst: VarId, value: String },
}

/// What a function may return.
#[derive(Debug, PartialEq, Eq)]
pub enum ReturnFlow {
    AddrOfVar { src: VarId },
    AddrOfFn { callee: FnId },
    Copy { src: VarId },
    Call { callee_name: String },
}

pub fn copy_fields(fields: &Vec<(String, TypeDesc)>) -> (r: Vec<(String, TypeDesc)>)
    ensures
        field_views(r@) == field_views(fields@),
    decreases fields,
{
    let mut out: Vec<(String, TypeDesc)> = Vec::new();
    let mut k: usize = 0;
    while k < fields.len()
        invariant
            k <= fields@.len(),
            out@.len() == k,
            forall|j: int|
                0 <= j < k ==> (#[trigger] out@[j]).0@ == fields@[j].0@ && out@[j].1@
                    == fields@[j].1@,
        decreases fields@.len() - k,
    {
        assert(decreases_to!(fields => fields@[k as int].1));
        let name = string_of(&chars_of(fields[k].0.as_str()));
        let desc = copy_desc(&fields[k].1);
        out.push((name, desc));
        k += 1;
    }
    proof {
        lemma_field_views(out@, fields@);
    }
    out
}

fn copy_descs(descs: &Vec<TypeDesc>) -> (r: Vec<TypeDesc>)
    ensures
        desc_views(r@) == desc_views(descs@),
    decreases descs,
{
    let mut out: Vec<TypeDesc> = Vec::new();
    let mut k: usize = 0;
    while k < descs.len()
        invariant
            k <= descs@.len(),
            out@.len() == k,
            forall|j: int| 0 <= j < k ==> (#[trigger] out@[j])@ == descs@[j]@,
        decreases descs@.len() - k,
    {
        assert(decreases_to!(descs => descs@[k as int]));
        out.push(copy_desc(&descs[k]));
        k += 1;
    }
    proof {
        lemma_desc_views(out@);
        lemma_desc_views(descs@);
        assert(desc_views(out@) =~= desc_views(descs@));
    }
    out
}

/// The same type once more.
pub fn copy_desc(d: &TypeDesc) -> (r: TypeDesc)
    ensures
        r@ == d@,
    decreases d,
{
    match d {
        TypeDesc::Void => TypeDesc::Void,
        TypeDesc::Bool => TypeDesc::Bool,
        TypeDesc::Char => TypeDesc::Char,
        TypeDesc::Short => TypeDesc::Short,
        TypeDesc::Int => TypeDesc::Int,
        TypeDesc::Long => TypeDesc::Long,
        TypeDesc::LongLong => TypeDesc::LongLong,
        TypeDesc::Float => TypeDesc::Float,
        TypeDesc::Double => TypeDesc::Double,
        TypeDesc::Unknown => TypeDesc::Unknown,
        TypeDesc::Ptr(x) => TypeDesc::Ptr(Box::new(copy_desc(x))),
        TypeDesc::Array { elem, size } => TypeDesc::Array {
            elem: Box::new(copy_desc(elem)),
            size: *size,
        },
        TypeDesc::FnPtr { ret, params } => TypeDesc::FnPtr {
            ret: Box::new(copy_desc(ret)),
            params: copy_descs(params),
        },
        TypeDesc::Struct { name, fields } => TypeDesc::Struct {
            name: string_of(&chars_of(name.as_str())),
            fields: copy_fields(fields),
        },
        TypeDesc::Union { name, fields } => TypeDesc::Union {
            name: string_of(&chars_of(name.as_str())),
            fields: copy_fields(fields),
        },
    }
}

} // verus!
