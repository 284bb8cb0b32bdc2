//! Receivers of member calls: smart-pointer factories and upgrades, template
//! arguments a receiver substitutes, and which types can type a receiver.

use crate::ir::{copy_desc, desc_eq, struct_named, DescView, TypeDesc};
use crate::lookup;
use crate::lookup::ClassIndex;
use crate::normalize;
use crate::normalize::{
    arguments_stripped, bare_type_chars, drop_prefix, is_std_smart_ptr_name, last_segment_chars,
};
use crate::arrows;
use crate::arrows::is_undefined_wrapper;
use crate::scope::NameScope;
use crate::spelling;
use crate::spelling::{position, split_pointer_suffix, template_arguments};
use crate::templates::TemplateReturn;
use crate::text;
use crate::text::{append, chars_of, ends, part, same, str_eq, string_of, trimmed};
use crate::types;
use vstd::prelude::*;

verus! {

/// The scope brings `std::name` in under its bare name.
pub open spec fn brings_std(s: NameScope, name: Seq<char>) -> bool {
    (exists|k: int|
        0 <= k < s.using_nss@.len() && (#[trigger] s.using_nss@[k])@ == "std"@) || (exists|k: int|
        0 <= k < s.using_name_imports@.len() && (#[trigger] s.using_name_imports@[k]).0@ == name
            && s.using_name_imports@[k].1@ == "std::"@ + name)
}

/// The smart pointer that the factory called `raw` makes.
pub open spec fn factory_of(s: NameScope, raw: Seq<char>) -> Option<Seq<char>> {
    let name = normalize::after_prefix(raw, "::"@);
    if name == "std::make_shared"@ || name == "make_shared"@ && brings_std(s, name) {
        Some("std::shared_ptr"@)
    } else if name == "std::make_unique"@ || name == "make_unique"@ && brings_std(s, name) {
        Some("std::unique_ptr"@)
    } else {
        None
    }
}

impl NameScope {
    fn brings_from_std(&self, name: &str) -> (r: bool)
        ensures
            r == brings_std(*self, name@),
    {
        let mut k: usize = 0;
        while k < self.using_nss.len()
            invariant
                k <= self.using_nss@.len(),
                forall|j: int| 0 <= j < k ==> (#[trigger] self.using_nss@[j])@ != "std"@,
            decreases self.using_nss@.len() - k,
        {
            if str_eq(self.using_nss[k].as_str(), "std") {
                return true;
            }
            k += 1;
        }
        let mut whole = chars_of("std::");
        append(&mut whole, &chars_of(name));
        let wanted = string_of(&whole);
        let mut i: usize = 0;
        while i < self.using_name_imports.len()
            invariant
                i <= self.using_name_imports@.len(),
                wanted@ == "std::"@ + name@,
                forall|j: int| 0 <= j < self.using_nss@.len() ==> (#[trigger] self.using_nss@[j])@ != "std"@,
                forall|j: int|
                    0 <= j < i ==> !((#[trigger] self.using_name_imports@[j]).0@ == name@
                        && self.using_name_imports@[j].1@ == wanted@),
            decreases self.using_name_imports@.len() - i,
        {
            if str_eq(self.using_name_imports[i].0.as_str(), name) && str_eq(
                self.using_name_imports[i].1.as_str(),
                wanted.as_str(),
            ) {
                return true;
            }
            i += 1;
        }
        false
    }

    /// The smart pointer the factory a call spells `name` returns:
    /// `std::make_shared`, `::std::make_shared`, or a bare `make_shared` that
    /// `using namespace std;` or `using std::make_shared;` brings into scope.
    pub fn smart_ptr_factory(&self, name: &str) -> (r: Option<&'static str>)
        ensures
            match r {
                Some(wrapper) => factory_of(*self, name@) == Some(wrapper@),
                None => factory_of(*self, name@) is None,
            },
    {
        let own = string_of(&drop_prefix(&chars_of(name), &chars_of("::")));
        let bare = own.as_str();
        if str_eq(bare, "std::make_shared") || str_eq(bare, "make_shared") && self.brings_from_std(
            bare,
        ) {
            return Some("std::shared_ptr");
        }
        if str_eq(bare, "std::make_unique") || str_eq(bare, "make_unique") && self.brings_from_std(
            bare,
        ) {
            return Some("std::unique_ptr");
        }
        None
    }
}

/// The strong pointer that `method` on a weak pointer of class `cls` yields.
pub open spec fn upgraded(cls: Seq<char>, method: Seq<char>) -> Option<Seq<char>> {
    let last = normalize::last_segment(cls);
    let outer = cls.take(cls.len() - last.len());
    if last == "weak_ptr"@ && method == "lock"@ {
        Some(outer + "shared_ptr"@)
    } else if last == "wptr"@ && method == "promote"@ {
        Some(outer + "sptr"@)
    } else {
        None
    }
}

/// The strong pointer `method` on a weak pointer typed `name` yields, spelled
/// in the weak pointer's own scope. Only for a wrapper whose body is not in
/// the tree: a declared one has members of its own to look up.
pub fn weak_ptr_upgrade(index: &ClassIndex, name: &str, method: &str) -> (r: Option<String>)
    ensures
        match r {
            Some(strong) => arrows::undefined_wrapper(
                *index,
                name@,
                normalize::without_arguments(name@),
            ) && upgraded(normalize::without_arguments(name@), method@) == Some(strong@),
            None => !arrows::undefined_wrapper(
                *index,
                name@,
                normalize::without_arguments(name@),
            ) || upgraded(normalize::without_arguments(name@), method@) is None,
        },
{
    let cls = arguments_stripped(&chars_of(name));
    if !is_undefined_wrapper(index, name, &cls) {
        return None;
    }
    let last = last_segment_chars(&cls);
    let spelled = string_of(&last);
    proof {
        lemma_last_segment_len(cls@);
    }
    let outer = part(&cls, 0, cls.len() - last.len());
    assert(outer@ =~= cls@.take(cls@.len() - last@.len()));
    if str_eq(spelled.as_str(), "weak_ptr") && str_eq(method, "lock") {
        let mut out = outer;
        append(&mut out, &chars_of("shared_ptr"));
        return Some(string_of(&out));
    }
    if str_eq(spelled.as_str(), "wptr") && str_eq(method, "promote") {
        let mut out = outer;
        append(&mut out, &chars_of("sptr"));
        return Some(string_of(&out));
    }
    None
}

proof fn lemma_last_segment_len(s: Seq<char>)
    ensures
        normalize::last_segment(s).len() <= s.len(),
{
    reveal_strlit("::");
    text::lemma_find_last(s, "::"@, s.len() as int);
}

/// The argument of a smart pointer without its qualifiers.
pub open spec fn unqualified(arg: Seq<char>) -> Seq<char> {
    let bare = normalize::after_prefix(text::trim(arg), "const "@);
    if text::ends_with(bare, " const"@) {
        text::trim(bare.take(bare.len() - " const"@.len()))
    } else {
        text::trim(bare)
    }
}

pub open spec fn spec_held(s: NameScope, x: ClassIndex, arg: Seq<char>) -> Option<Seq<char>> {
    let own = unqualified(arg);
    match s.spec_class_seen(x, normalize::without_arguments(own)) {
        Some(class) => match own.index_of_first('<') {
            Some(at) => Some(class + own.skip(at)),
            None => Some(class),
        },
        None => None,
    }
}

impl NameScope {
    /// The class a smart pointer's template argument names from this scope,
    /// cv-qualifiers dropped and template arguments kept (`const Box<int>`
    /// holds `ns::Box<int>`).
    pub fn held_class(&self, index: &ClassIndex, arg: &str) -> (r: Option<String>)
        ensures
            match r {
                Some(class) => spec_held(*self, *index, arg@) == Some(class@),
                None => spec_held(*self, *index, arg@) is None,
            },
    {
        let bare = drop_prefix(&trimmed(&chars_of(arg)), &chars_of("const "));
        let tail = chars_of(" const");
        let own = if ends(&bare, &tail) {
            let cut = part(&bare, 0, bare.len() - tail.len());
            assert(cut@ =~= bare@.take(bare@.len() - tail@.len()));
            trimmed(&cut)
        } else {
            trimmed(&bare)
        };
        match self.class_seen_from(index, &arguments_stripped(&own)) {
            Some(mut class) => {
                match position(&own, '<') {
                    Some(at) => {
                        let list = part(&own, at, own.len());
                        assert(list@ =~= own@.skip(at as int));
                        append(&mut class, &list);
                    },
                    None => {},
                }
                Some(string_of(&class))
            },
            None => None,
        }
    }

    pub open spec fn spec_receiver_type(&self, x: ClassIndex, d: DescView) -> Option<DescView>
        decreases d,
    {
        match d {
            DescView::Ptr(inner) => match self.spec_receiver_type(x, *inner) {
                Some(own) => Some(DescView::Ptr(Box::new(own))),
                None => None,
            },
            DescView::Struct { name, .. } => if normalize::smart_ptr_name(
                normalize::without_arguments(name),
            ) && self.held_ambiguously(x, name) {
                None
            } else {
                Some(d)
            },
            DescView::Union { .. } => Some(d),
            DescView::FnPtr { .. } => Some(d),
            _ => None,
        }
    }

    /// The argument of a smart pointer names no class as written, while the
    /// scopes here name another by it.
    pub open spec fn held_ambiguously(&self, x: ClassIndex, name: Seq<char>) -> bool {
        let args = spelling::arguments_of(name);
        args.len() > 0 && {
            let held = normalize::without_arguments(text::trim(args[0]));
            lookup::class_named(x, held) is None && (self.spec_class_seen(x, held) matches Some(
                seen,
            ) && seen != held)
        }
    }

    fn is_held_ambiguously(&self, index: &ClassIndex, name: &str) -> (r: bool)
        ensures
            r == self.held_ambiguously(*index, name@),
    {
        let args = template_arguments(name);
        assert(args@.len() == spelling::views(args@).len());
        if args.len() == 0 {
            return false;
        }
        assert(args@[0]@ == spelling::views(args@)[0]);
        let held = arguments_stripped(&trimmed(&chars_of(args[0].as_str())));
        if index.declared_class_name(&held).is_some() {
            return false;
        }
        match self.class_seen_from(index, &held) {
            Some(seen) => !same(&seen, &held),
            None => false,
        }
    }

    /// The type where it can type a receiver: a class, union or function
    /// pointer under its pointer layers. A scalar can be the stand-in lowering
    /// gives a type name it could not resolve. A standard smart pointer whose
    /// argument names no class as written, while the scopes here name one by
    /// it, is left untyped rather than guessed.
    pub fn receiver_type(&self, index: &ClassIndex, desc: &TypeDesc) -> (r: Option<TypeDesc>)
        ensures
            match r {
                Some(d) => self.spec_receiver_type(*index, desc@) == Some(d@),
                None => self.spec_receiver_type(*index, desc@) is None,
            },
        decreases desc,
    {
        match desc {
            TypeDesc::Ptr(inner) => match self.receiver_type(index, inner) {
                Some(own) => Some(TypeDesc::Ptr(Box::new(own))),
                None => None,
            },
            TypeDesc::Struct { name, fields: _ } => {
                let cls = string_of(&arguments_stripped(&chars_of(name.as_str())));
                if is_std_smart_ptr_name(cls.as_str()) && self.is_held_ambiguously(
                    index,
                    name.as_str(),
                ) {
                    None
                } else {
                    Some(copy_desc(desc))
                }
            },
            TypeDesc::Union { name: _, fields: _ } => Some(copy_desc(desc)),
            TypeDesc::FnPtr { ret: _, params: _ } => Some(copy_desc(desc)),
            _ => None,
        }
    }
}

/// The one value that all candidates name: none where there is no candidate,
/// one names nothing, or two disagree.
pub open spec fn agreed_on(candidates: Seq<Option<DescView>>) -> Option<DescView> {
    if candidates.len() > 0 && candidates[0] is Some && forall|k: int|
        0 <= k < candidates.len() ==> #[trigger] candidates[k] == candidates[0] {
        candidates[0]
    } else {
        None
    }
}

pub open spec fn opt_descs(v: Seq<Option<TypeDesc>>) -> Seq<Option<DescView>> {
    v.map_values(
        |d: Option<TypeDesc>|
            match d {
                Some(t) => Some(t@),
                None => None,
            },
    )
}

/// The one type a candidate set agrees on: nothing when it is empty, when a
/// candidate names no type, or when two candidates disagree. A partial match
/// is no evidence for one of several.
pub fn agreed(candidates: &Vec<Option<TypeDesc>>) -> (r: Option<TypeDesc>)
    ensures
        match r {
            Some(d) => agreed_on(opt_descs(candidates@)) == Some(d@),
            None => agreed_on(opt_descs(candidates@)) is None,
        },
{
    let ghost all = opt_descs(candidates@);
    if candidates.len() == 0 {
        return None;
    }
    let first = match &candidates[0] {
        Some(d) => d,
        None => {
            assert(all[0] is None);
            return None;
        },
    };
    assert(all[0] == Some(first@));
    let mut k: usize = 0;
    while k < candidates.len()
        invariant
            k <= candidates@.len(),
            candidates@.len() > 0,
            all == opt_descs(candidates@),
            all[0] == Some(first@),
            forall|j: int| 0 <= j < k ==> #[trigger] all[j] == all[0],
        decreases candidates@.len() - k,
    {
        let is_same = match &candidates[k] {
            Some(d) => desc_eq(d, first),
            None => false,
        };
        assert(is_same == (all[k as int] == all[0]));
        if !is_same {
            return None;
        }
        k += 1;
    }
    Some(copy_desc(first))
}

/// A base that a class spells with template arguments.
#[derive(Debug, PartialEq, Eq)]
pub struct TemplateBase {
    pub spelling: String,
    /// Where the base was declared, which its arguments are looked up in.
    pub declaration_scope: String,
    /// The arguments depend on a parameter of a template around.
    pub is_dependent: bool,
}

/// The template bases of a class, from position `k` of the table.
pub open spec fn template_bases_from(
    table: Seq<(String, Vec<TemplateBase>)>,
    cls: Seq<char>,
    k: int,
) -> Seq<TemplateBase>
    decreases table.len() - k,
{
    if k < 0 || k >= table.len() {
        seq![]
    } else if table[k].0@ == cls {
        table[k].1@
    } else {
        template_bases_from(table, cls, k + 1)
    }
}

/// The first of the bases, from position `k`, that names the class `owner`.
pub open spec fn base_naming(bases: Seq<TemplateBase>, owner: Seq<char>, k: int) -> Option<
    TemplateBase,
>
    decreases bases.len() - k,
{
    if k < 0 || k >= bases.len() {
        None
    } else if normalize::without_arguments(bases[k].spelling@) == owner {
        Some(bases[k])
    } else {
        base_naming(bases, owner, k + 1)
    }
}

/// The number of `*` in a pointer suffix.
pub open spec fn stars(s: Seq<char>) -> nat
    decreases s.len(),
{
    if s.len() == 0 {
        0
    } else if s.last() == '*' {
        stars(s.drop_last()) + 1
    } else {
        stars(s.drop_last())
    }
}

/// A class under that many pointers.
pub open spec fn pointed(d: DescView, depth: nat) -> DescView
    decreases depth,
{
    if depth == 0 {
        d
    } else {
        DescView::Ptr(Box::new(pointed(d, (depth - 1) as nat)))
    }
}

pub(crate) fn count_stars(s: &[char]) -> (r: usize)
    ensures
        r == stars(s@),
        r <= s@.len(),
{
    let mut n: usize = 0;
    let mut k: usize = 0;
    assert(s@.take(0) =~= seq![]);
    while k < s.len()
        invariant
            k <= s@.len(),
            n <= k,
            n == stars(s@.take(k as int)),
        decreases s@.len() - k,
    {
        proof {
            assert(s@.take(k + 1).drop_last() =~= s@.take(k as int));
            assert(s@.take(k + 1).last() == s@[k as int]);
        }
        if s[k] == '*' {
            n += 1;
        }
        k += 1;
    }
    assert(s@.take(k as int) =~= s@);
    n
}

/// The type under that many more pointer layers.
pub fn pointer_layers(desc: TypeDesc, depth: usize) -> (r: TypeDesc)
    ensures
        r@ == pointed(desc@, depth as nat),
{
    let mut out = desc;
    let mut k: usize = 0;
    while k < depth
        invariant
            k <= depth,
            out@ == pointed(desc@, k as nat),
        decreases depth - k,
    {
        out = TypeDesc::Ptr(Box::new(out));
        k += 1;
    }
    out
}

/// What a fact substitutes from the arguments, where the argument's class is
/// the one that `held` names for it.
pub open spec fn substituted(
    args: Seq<Seq<char>>,
    fact: TemplateReturn,
    held: Option<Seq<char>>,
) -> Option<DescView> {
    match fact.parameter {
        Some(i) => if i < args.len() {
            let (base, suffix) = spelling::pointer_split(text::trim(args[i as int]));
            let own = normalize::bare_type(base);
            let name = match held {
                Some(cls) => Some(cls),
                None => if normalize::smart_ptr_name(normalize::without_arguments(own)) {
                    Some(own)
                } else {
                    None
                },
            };
            match name {
                Some(cls) => Some(
                    pointed(types::class_desc(cls), stars(suffix) + fact.pointer_depth as nat),
                ),
                None => None,
            }
        } else {
            None
        },
        None => None,
    }
}

/// The class that an argument spells, without pointers and qualifiers: what a
/// substitution looks up.
pub fn argument_class(arg: &str) -> (r: String)
    ensures
        r@ == normalize::bare_type(spelling::pointer_split(text::trim(arg@)).0),
{
    let (base, _) = split_pointer_suffix(arg);
    string_of(&bare_type_chars(&chars_of(base.as_str())))
}

/// One fact substituted: the template argument at the parameter position it
/// records, under the pointer layers the argument spells plus the ones the
/// declaration adds. `held` is the class that the argument names where it was
/// declared; an argument naming none is no receiver type, a standard smart
/// pointer aside.
pub fn substituted_parameter(args: &Vec<String>, fact: &TemplateReturn, held: Option<&str>) -> (r:
    Option<TypeDesc>)
    requires
        forall|k: int| 0 <= k < args@.len() ==> (#[trigger] args@[k])@.len() + fact.pointer_depth
            <= usize::MAX,
    ensures
        match r {
            Some(d) => substituted(spelling::views(args@), *fact, opt_text(held)) == Some(d@),
            None => substituted(spelling::views(args@), *fact, opt_text(held)) is None,
        },
{
    let i = match fact.parameter {
        Some(i) => i,
        None => {
            return None;
        },
    };
    if i >= args.len() {
        return None;
    }
    let arg = args[i].as_str();
    assert(arg@ == spelling::views(args@)[i as int]);
    let (base, suffix) = split_pointer_suffix(arg);
    let own = bare_type_chars(&chars_of(base.as_str()));
    let name = match held {
        Some(cls) => string_of(&chars_of(cls)),
        None => {
            let cls = string_of(&arguments_stripped(&own));
            if is_std_smart_ptr_name(cls.as_str()) {
                string_of(&own)
            } else {
                return None;
            }
        },
    };
    let spelled = chars_of(suffix.as_str());
    proof {
        lemma_suffix_len(text::trim(arg@));
        text::lemma_trim_shrinks(arg@);
    }
    let depth = count_stars(&spelled) + fact.pointer_depth;
    Some(pointer_layers(struct_named(name), depth))
}

proof fn lemma_suffix_len(rest: Seq<char>)
    ensures
        spelling::pointer_split(rest).1.len() <= rest.len(),
    decreases rest.len(),
{
    spelling::lemma_cv_stripped_shrinks(rest);
    text::lemma_trim_end_is_prefix(spelling::cv_stripped(rest));
    let bare = text::trim_end(spelling::cv_stripped(rest));
    if bare.len() > 0 && (bare.last() == '*' || bare.last() == '&') {
        lemma_suffix_len(bare.drop_last());
    }
}

pub open spec fn opt_text(s: Option<&str>) -> Option<Seq<char>> {
    match s {
        Some(t) => Some(t@),
        None => None,
    }
}

} // verus!
