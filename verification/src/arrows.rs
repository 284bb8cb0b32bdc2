//! The object behind an arrow: what `operator->` yields, followed through
//! wrappers, and what a dereference yields.

use crate::hierarchy;
use crate::ir::{copy_desc, desc_eq, struct_named, DescView, TypeDesc};
use crate::lookup;
use crate::lookup::ClassIndex;
use crate::methods;
use crate::methods::{MethodKind, MethodView};
use crate::naming;
use crate::normalize;
use crate::normalize::{arguments_stripped, is_std_smart_ptr_name, sanitize_type_name};
use crate::spelling;
use crate::spelling::{position, template_arguments, template_tail};
use crate::text;
use crate::text::{append, chars_of, part, same, str_eq, string_of, trimmed};
use crate::types;
use vstd::prelude::*;

verus! {

/// Longest `operator->` chain followed before giving up. Real wrappers nest
/// one deep, occasionally two; the cap only bounds a chain that a partial
/// index has made circular.
pub const MAX_ARROW_DEPTH: usize = 8;

/// What a class's `operator->` returns.
#[derive(Debug, PartialEq, Eq)]
pub struct ArrowReturn {
    pub class_name: String,
    pub target: TypeDesc,
    /// The parameter of the class template that the return type is.
    pub parameter: Option<usize>,
    /// The return type is a pointer to the target.
    pub pointer: bool,
}

/// The class that a type names, under its pointer layers.
pub open spec fn class_spelling(d: DescView) -> Option<Seq<char>>
    decreases d,
{
    match d {
        DescView::Struct { name, .. } => Some(name),
        DescView::Ptr(inner) => class_spelling(*inner),
        _ => None,
    }
}

/// The class a type names, its template arguments kept.
pub fn class_spelling_of_desc(desc: &TypeDesc) -> (r: Option<String>)
    ensures
        match r {
            Some(name) => class_spelling(desc@) == Some(name@),
            None => class_spelling(desc@) is None,
        },
    decreases desc,
{
    match desc {
        TypeDesc::Struct { name, fields: _ } => Some(string_of(&chars_of(name.as_str()))),
        TypeDesc::Ptr(inner) => class_spelling_of_desc(inner),
        _ => None,
    }
}

/// A template instantiation whose class body is not in the index.
pub open spec fn undefined_wrapper(x: ClassIndex, name: Seq<char>, cls: Seq<char>) -> bool {
    name.contains('<') && !x.spec_defined(cls) && text::trim(spelling::tail_of(name)).len() == 0
}

/// A template instantiation whose class body is not in the tree (absent, or
/// only forward-declared), and so a candidate for the argument guess. A nested
/// type of one (`Outer<A>::Inner`, an iterator) is a type of its own, not a
/// wrapper around `A`.
pub fn is_undefined_wrapper(index: &ClassIndex, name: &str, cls: &[char]) -> (r: bool)
    ensures
        r == undefined_wrapper(*index, name@, cls@),
{
    let s = chars_of(name);
    let has_list = position(&s, '<').is_some();
    assert(has_list == s@.contains('<'));
    has_list && !index.is_defined(cls) && trimmed(
        &chars_of(template_tail(name).as_str()),
    ).len() == 0
}

/// The member that an arrow calls.
pub open spec fn arrow_kind() -> MethodView {
    MethodView::Named("operator->"@)
}

/// The first of the classes, from position `k`, that declares the arrow.
pub open spec fn arrow_owner(x: ClassIndex, order: Seq<Seq<char>>, k: int) -> Option<Seq<char>>
    decreases order.len() - k,
{
    if k < 0 || k >= order.len() {
        None
    } else if x.spec_members(methods::member_name(arrow_kind(), order[k])).len() > 0 {
        Some(order[k])
    } else {
        arrow_owner(x, order, k + 1)
    }
}

/// What one fact says the arrow of `cls` yields, with these arguments.
pub open spec fn fact_target(
    fact: ArrowReturn,
    cls: Seq<char>,
    args: Seq<Seq<char>>,
) -> Option<DescView> {
    let base = match fact.parameter {
        Some(i) => if fact.class_name@ == cls && i < args.len() {
            Some(types::class_desc(args[i as int]))
        } else {
            None
        },
        None => Some(fact.target@),
    };
    match base {
        Some(d) => Some(
            if fact.pointer {
                DescView::Ptr(Box::new(d))
            } else {
                d
            },
        ),
        None => None,
    }
}

/// The fact is about `cls` or about the class that declares its arrow.
pub open spec fn applies(fact: ArrowReturn, cls: Seq<char>, owner: Option<Seq<char>>) -> bool {
    fact.class_name@ == cls || owner == Some(fact.class_name@)
}

/// What the first `k` facts agree on.
pub enum Agreed {
    /// None of them applies.
    Silent,
    On(DescView),
    /// One names nothing, or two disagree.
    Broken,
}

pub open spec fn agreed_upto(
    facts: Seq<ArrowReturn>,
    cls: Seq<char>,
    owner: Option<Seq<char>>,
    args: Seq<Seq<char>>,
    k: int,
) -> Agreed
    decreases k,
{
    if k <= 0 || k > facts.len() {
        Agreed::Silent
    } else {
        let before = agreed_upto(facts, cls, owner, args, k - 1);
        if !applies(facts[k - 1], cls, owner) {
            before
        } else {
            match (before, fact_target(facts[k - 1], cls, args)) {
                (Agreed::Silent, Some(d)) => Agreed::On(d),
                (Agreed::On(first), Some(d)) => if first == d {
                    Agreed::On(d)
                } else {
                    Agreed::Broken
                },
                _ => Agreed::Broken,
            }
        }
    }
}

/// The class behind the one argument of an undefined wrapper.
pub open spec fn held_argument(x: ClassIndex, name: Seq<char>) -> Option<Seq<char>> {
    let args = spelling::arguments_of(name);
    if args.len() != 1 {
        None
    } else {
        match lookup::class_named(x, normalize::without_arguments(args[0])) {
            Some(head) => match args[0].index_of_first('<') {
                Some(at) => Some(head + args[0].skip(at)),
                None => Some(head),
            },
            None => None,
        }
    }
}

/// What an arrow on a class without any recorded return yields.
pub open spec fn unrecorded_arrow(
    x: ClassIndex,
    name: Seq<char>,
    cls: Seq<char>,
    is_declared: bool,
) -> Option<Seq<char>> {
    let args = spelling::arguments_of(name);
    if is_declared {
        None
    } else if normalize::smart_ptr_name(cls) {
        if args.len() > 0 {
            Some(normalize::bare_type(args[0]))
        } else {
            None
        }
    } else if name.contains('<') && !x.spec_defined(cls) {
        None
    } else {
        Some(name)
    }
}

/// The class that an arrow on a value of the type yields, in full.
pub open spec fn arrow_target(
    x: ClassIndex,
    facts: Seq<ArrowReturn>,
    desc: DescView,
    seen: Seq<Seq<char>>,
    fuel: nat,
) -> Option<Seq<char>>
    decreases fuel,
{
    if fuel == 0 {
        None
    } else {
        match desc {
            DescView::Ptr(inner) => class_spelling(*inner),
            DescView::Struct { name, .. } => {
                let cls = normalize::without_arguments(name);
                if undefined_wrapper(x, name, cls) && !normalize::smart_ptr_name(cls) {
                    if x.spec_members(cls + "::operator->"@).len() > 0 {
                        None
                    } else {
                        held_argument(x, name)
                    }
                } else if seen.contains(name) {
                    None
                } else {
                    let owner = arrow_owner(x, hierarchy::ancestry(x, cls), 0);
                    match agreed_upto(
                        facts,
                        cls,
                        owner,
                        spelling::arguments_of(name),
                        facts.len() as int,
                    ) {
                        Agreed::Silent => unrecorded_arrow(x, name, cls, owner is Some),
                        Agreed::On(next) => arrow_target(
                            x,
                            facts,
                            next,
                            seen.push(name),
                            (fuel - 1) as nat,
                        ),
                        Agreed::Broken => None,
                    }
                }
            },
            _ => None,
        }
    }
}

fn find_arrow_owner(index: &ClassIndex, cls: &[char]) -> (r: Option<Vec<char>>)
    ensures
        lookup::opt_chars(r) == arrow_owner(*index, hierarchy::ancestry(*index, cls@), 0),
{
    let order = index.classes_upward(cls);
    let ghost all = naming::piece_views(order@);
    let kind = MethodKind::Named(string_of(&chars_of("operator->")));
    let mut k: usize = 0;
    while k < order.len()
        invariant
            k <= order@.len(),
            all == naming::piece_views(order@),
            all == hierarchy::ancestry(*index, cls@),
            kind@ == arrow_kind(),
            arrow_owner(*index, all, 0) == arrow_owner(*index, all, k as int),
        decreases order@.len() - k,
    {
        assert(all[k as int] == order@[k as int]@);
        let name = kind.name_on(string_of(&order[k]).as_str());
        if index.functions_named(name.as_str()).len() > 0 {
            let own = part(&order[k], 0, order[k].len());
            assert(own@ =~= order@[k as int]@);
            return Some(own);
        }
        k += 1;
    }
    None
}

fn target_of_fact(fact: &ArrowReturn, cls: &[char], args: &Vec<String>) -> (r: Option<TypeDesc>)
    ensures
        match r {
            Some(d) => fact_target(*fact, cls@, spelling::views(args@)) == Some(d@),
            None => fact_target(*fact, cls@, spelling::views(args@)) is None,
        },
{
    let base = match fact.parameter {
        Some(i) => {
            if !same(&chars_of(fact.class_name.as_str()), cls) || i >= args.len() {
                return None;
            }
            assert(spelling::views(args@)[i as int] == args@[i as int]@);
            struct_named(string_of(&chars_of(args[i].as_str())))
        },
        None => copy_desc(&fact.target),
    };
    if fact.pointer {
        Some(TypeDesc::Ptr(Box::new(base)))
    } else {
        Some(base)
    }
}

/// What the facts that apply agree on: nothing applies, one type, or no
/// agreement.
fn agreed_target(
    facts: &Vec<ArrowReturn>,
    cls: &[char],
    owner: &Option<Vec<char>>,
    args: &Vec<String>,
) -> (r: Result<Option<TypeDesc>, ()>)
    ensures
        match (
            r,
            agreed_upto(
                facts@,
                cls@,
                lookup::opt_chars(*owner),
                spelling::views(args@),
                facts@.len() as int,
            ),
        ) {
            (Ok(None), Agreed::Silent) => true,
            (Ok(Some(d)), Agreed::On(e)) => d@ == e,
            (Err(_), Agreed::Broken) => true,
            _ => false,
        },
{
    let ghost list = spelling::views(args@);
    let ghost own = lookup::opt_chars(*owner);
    let mut next: Option<TypeDesc> = None;
    let mut broken = false;
    let mut k: usize = 0;
    while k < facts.len()
        invariant
            k <= facts@.len(),
            list == spelling::views(args@),
            own == lookup::opt_chars(*owner),
            match agreed_upto(facts@, cls@, own, list, k as int) {
                Agreed::Silent => !broken && next is None,
                Agreed::On(d) => !broken && next is Some && next->0@ == d,
                Agreed::Broken => broken,
            },
        decreases facts@.len() - k,
    {
        let fact = &facts[k];
        let spelled = chars_of(fact.class_name.as_str());
        let owned = match owner {
            Some(o) => same(o, &spelled),
            None => false,
        };
        if same(&spelled, cls) || owned {
            assert(applies(facts@[k as int], cls@, own));
            match target_of_fact(fact, cls, args) {
                Some(d) => {
                    let agrees = match &next {
                        Some(first) => desc_eq(first, &d),
                        None => true,
                    };
                    if agrees {
                        next = Some(d);
                    } else {
                        broken = true;
                    }
                },
                None => {
                    broken = true;
                },
            }
        } else {
            assert(!applies(facts@[k as int], cls@, own));
        }
        k += 1;
    }
    if broken {
        Err(())
    } else {
        Ok(next)
    }
}

fn held_by_wrapper(index: &ClassIndex, name: &str) -> (r: Option<Vec<char>>)
    ensures
        lookup::opt_chars(r) == held_argument(*index, name@),
{
    let args = template_arguments(name);
    assert(args@.len() == spelling::views(args@).len());
    if args.len() != 1 {
        return None;
    }
    let arg = chars_of(args[0].as_str());
    assert(arg@ == spelling::views(args@)[0]);
    match index.declared_class_name(&arguments_stripped(&arg)) {
        Some(mut head) => {
            match position(&arg, '<') {
                Some(at) => {
                    let list = part(&arg, at, arg.len());
                    assert(list@ =~= arg@.skip(at as int));
                    append(&mut head, &list);
                },
                None => {},
            }
            Some(head)
        },
        None => None,
    }
}

fn arrow_unrecorded(index: &ClassIndex, name: &str, cls: &[char], is_declared: bool) -> (r: Option<
    Vec<char>,
>)
    ensures
        lookup::opt_chars(r) == unrecorded_arrow(*index, name@, cls@, is_declared),
{
    if is_declared {
        return None;
    }
    let args = template_arguments(name);
    assert(args@.len() == spelling::views(args@).len());
    if is_std_smart_ptr_name(string_of(cls).as_str()) {
        return if args.len() > 0 {
            assert(args@[0]@ == spelling::views(args@)[0]);
            Some(chars_of(sanitize_type_name(args[0].as_str()).as_str()))
        } else {
            None
        };
    }
    let s = chars_of(name);
    let has_list = position(&s, '<').is_some();
    assert(has_list == s@.contains('<'));
    if has_list && !index.is_defined(cls) {
        None
    } else {
        Some(s)
    }
}

fn is_seen(seen: &Vec<String>, name: &str) -> (r: bool)
    ensures
        r == spelling::views(seen@).contains(name@),
{
    let mut k: usize = 0;
    while k < seen.len()
        invariant
            k <= seen@.len(),
            forall|j: int| 0 <= j < k ==> #[trigger] spelling::views(seen@)[j] != name@,
        decreases seen@.len() - k,
    {
        assert(spelling::views(seen@)[k as int] == seen@[k as int]@);
        if str_eq(seen[k].as_str(), name) {
            return true;
        }
        k += 1;
    }
    false
}

pub open spec fn spec_arrow_receiver(
    x: ClassIndex,
    facts: Seq<ArrowReturn>,
    desc: DescView,
) -> Option<Seq<char>> {
    arrow_target(x, facts, desc, seq![], (MAX_ARROW_DEPTH + 1) as nat)
}

/// The class `p->m` looks `m` up on, given `p`'s declared type, its template
/// arguments kept. A raw pointer is the built-in arrow: the pointee's class. A
/// class value is the overloaded one: what its declared `operator->` returns,
/// followed again while that is itself a class, a few links with cycles cut.
/// `None` where the chain names no class: overloads that disagree, a return
/// type the index cannot name, a cycle.
pub fn resolve_operator_arrow_receiver(
    index: &ClassIndex,
    facts: &Vec<ArrowReturn>,
    desc: TypeDesc,
) -> (r: Option<String>)
    ensures
        match r {
            Some(name) => spec_arrow_receiver(*index, facts@, desc@) == Some(name@),
            None => spec_arrow_receiver(*index, facts@, desc@) is None,
        },
{
    let mut current = desc;
    let mut seen: Vec<String> = Vec::new();
    let mut left: usize = MAX_ARROW_DEPTH + 1;
    assert(spelling::views(seen@) =~= seq![]);
    while left > 0
        invariant
            spec_arrow_receiver(*index, facts@, desc@) == arrow_target(
                *index,
                facts@,
                current@,
                spelling::views(seen@),
                left as nat,
            ),
        decreases left,
    {
        let name = match &current {
            TypeDesc::Ptr(inner) => {
                return class_spelling_of_desc(inner);
            },
            TypeDesc::Struct { name, fields: _ } => string_of(&chars_of(name.as_str())),
            _ => {
                return None;
            },
        };
        let spelled = chars_of(name.as_str());
        let cls = arguments_stripped(&spelled);
        if is_undefined_wrapper(index, name.as_str(), &cls) && !is_std_smart_ptr_name(
            string_of(&cls).as_str(),
        ) {
            let mut op = part(&cls, 0, cls.len());
            assert(op@ =~= cls@);
            append(&mut op, &chars_of("::operator->"));
            if index.functions_named(string_of(&op).as_str()).len() > 0 {
                return None;
            }
            return match held_by_wrapper(index, name.as_str()) {
                Some(held) => Some(string_of(&held)),
                None => None,
            };
        }
        if is_seen(&seen, name.as_str()) {
            return None;
        }
        let owner = find_arrow_owner(index, &cls);
        let args = template_arguments(name.as_str());
        match agreed_target(facts, &cls, &owner, &args) {
            Err(_) => {
                return None;
            },
            Ok(None) => {
                return match arrow_unrecorded(index, name.as_str(), &cls, owner.is_some()) {
                    Some(own) => Some(string_of(&own)),
                    None => None,
                };
            },
            Ok(Some(next)) => {
                let ghost before = spelling::views(seen@);
                let ghost own = name@;
                seen.push(name);
                assert(spelling::views(seen@) =~= before.push(own));
                current = next;
            },
        }
        left -= 1;
    }
    None
}

pub open spec fn spec_arrow_class(x: ClassIndex, facts: Seq<ArrowReturn>, desc: DescView) -> Option<
    Seq<char>,
> {
    match spec_arrow_receiver(x, facts, desc) {
        Some(name) => Some(
            if text::ends_with(text::trim_end(name), ">"@) {
                normalize::without_arguments(name)
            } else {
                name
            },
        ),
        None => None,
    }
}

/// The class `p->m` looks `m` up on, as the index holds it.
pub fn resolve_operator_arrow(
    index: &ClassIndex,
    facts: &Vec<ArrowReturn>,
    desc: TypeDesc,
) -> (r: Option<String>)
    ensures
        match r {
            Some(name) => spec_arrow_class(*index, facts@, desc@) == Some(name@),
            None => spec_arrow_class(*index, facts@, desc@) is None,
        },
{
    match resolve_operator_arrow_receiver(index, facts, desc) {
        Some(name) => {
            let s = chars_of(name.as_str());
            if text::ends(&text::trimmed_end(&s), &chars_of(">")) {
                Some(string_of(&arguments_stripped(&s)))
            } else {
                Some(name)
            }
        },
        None => None,
    }
}

/// The class declares an arrow, by a recorded return or by a member.
pub open spec fn has_arrow(x: ClassIndex, facts: Seq<ArrowReturn>, cls: Seq<char>) -> bool {
    (exists|k: int| 0 <= k < facts.len() && (#[trigger] facts[k]).class_name@ == cls)
        || arrow_owner(x, hierarchy::ancestry(x, cls), 0) is Some
}

/// Whether `cls` declares `operator->`, in this unit's symbols or in a fact
/// merged from a header unit.
pub fn declares_arrow(index: &ClassIndex, facts: &Vec<ArrowReturn>, cls: &[char]) -> (r: bool)
    ensures
        r == has_arrow(*index, facts@, cls@),
{
    let wanted = string_of(cls);
    let mut k: usize = 0;
    while k < facts.len()
        invariant
            k <= facts@.len(),
            wanted@ == cls@,
            forall|j: int| 0 <= j < k ==> (#[trigger] facts@[j]).class_name@ != cls@,
        decreases facts@.len() - k,
    {
        if str_eq(facts[k].class_name.as_str(), wanted.as_str()) {
            return true;
        }
        k += 1;
    }
    find_arrow_owner(index, cls).is_some()
}

/// What dereferencing a value of the type yields.
pub open spec fn dereferenced(x: ClassIndex, facts: Seq<ArrowReturn>, desc: DescView) -> Option<
    DescView,
> {
    match desc {
        DescView::Ptr(inner) => Some(*inner),
        DescView::Struct { name, .. } => {
            let cls = normalize::without_arguments(name);
            if undefined_wrapper(x, name, cls) || has_arrow(x, facts, cls)
                || normalize::smart_ptr_name(cls) {
                match spec_arrow_class(x, facts, desc) {
                    Some(own) => Some(types::class_desc(own)),
                    None => None,
                }
            } else {
                None
            }
        },
        _ => None,
    }
}

/// What `*e` yields. A pointer dereferences to its pointee. A smart pointer
/// dereferences through its `operator->`: its `operator*` names the same
/// pointee, so `(*sp).m()` looks `m` up where `sp->m()` does. Any other class
/// value has an `operator*` this index does not follow.
pub fn deref_desc(index: &ClassIndex, facts: &Vec<ArrowReturn>, desc: TypeDesc) -> (r: Option<
    TypeDesc,
>)
    ensures
        match r {
            Some(d) => dereferenced(*index, facts@, desc@) == Some(d@),
            None => dereferenced(*index, facts@, desc@) is None,
        },
{
    let wraps = match &desc {
        TypeDesc::Ptr(inner) => {
            return Some(copy_desc(inner));
        },
        TypeDesc::Struct { name, fields: _ } => {
            let cls = arguments_stripped(&chars_of(name.as_str()));
            is_undefined_wrapper(index, name.as_str(), &cls) || declares_arrow(index, facts, &cls)
                || is_std_smart_ptr_name(string_of(&cls).as_str())
        },
        _ => {
            return None;
        },
    };
    if !wraps {
        return None;
    }
    match resolve_operator_arrow(index, facts, desc) {
        Some(name) => Some(struct_named(name)),
        None => None,
    }
}

/// A member call through `p->m` and one through `(*p).m` look `m` up on the
/// same class, for a pointer to a class and for every wrapper.
pub proof fn law_arrow_and_dereference_agree(
    x: ClassIndex,
    facts: Seq<ArrowReturn>,
    desc: DescView,
)
    requires
        dereferenced(x, facts, desc) is Some,
        desc matches DescView::Ptr(inner) ==> *inner is Struct && !text::ends_with(
            text::trim_end(class_spelling(*inner)->0),
            ">"@,
        ),
    ensures
        class_spelling(dereferenced(x, facts, desc)->0) == spec_arrow_class(x, facts, desc),
{
}

} // verus!
