//! The name, the owner and the lookup scope of a function definition, and the
//! scope its body is lowered in.

use crate::declarator;
use crate::declarator::{
    conversion_keyword_error, find_function_declarator, parse_declarator_name,
};
use crate::lookup;
use crate::lookup::ClassIndex;
use crate::members;
use crate::members::member_short_name;
use crate::naming;
use crate::naming::{scope_part, split_segments};
use crate::scope;
use crate::scope::NameScope;
use crate::spelling;
use crate::syntax::SyntaxTree;
use crate::text;
use crate::text::{append, begins, chars_of, holds, part, rfind, str_eq, string_of};
use vstd::prelude::*;

verus! {

/// The first error child of `n`, from position `k`, that ends at or before
/// `at`.
pub open spec fn error_before(t: SyntaxTree, n: int, at: int, k: int) -> Option<usize>
    decreases t.children(n).len() - k,
{
    if k < 0 || k >= t.children(n).len() {
        None
    } else {
        let c = t.children(n)[k];
        if t.spec_kind(c as int) == "ERROR"@ && t.rows@[c as int].end <= at {
            Some(c)
        } else {
            error_before(t, n, at, k + 1)
        }
    }
}

/// The declarator that an error holds, from position `k`: `C::M()` read as a
/// call is an initializer of its callee.
pub open spec fn declarator_in_error(t: SyntaxTree, err: int, k: int) -> Option<usize>
    decreases t.children(err).len() - k,
{
    if k < 0 || k >= t.children(err).len() {
        None
    } else {
        let c = t.children(err)[k];
        if t.spec_kind(c as int) == "function_declarator"@ {
            Some(c)
        } else if t.spec_kind(c as int) == "init_declarator"@ && t.fielded(
            c as int,
            "declarator"@,
        ) is Some {
            t.fielded(c as int, "declarator"@)
        } else {
            declarator_in_error(t, err, k + 1)
        }
    }
}

/// The declarator that error recovery parked in front of the one of `n`.
pub open spec fn parked_at(t: SyntaxTree, n: int) -> Option<usize> {
    match t.fielded(n, "declarator"@) {
        Some(d) => match error_before(t, n, t.rows@[d as int].start as int, 0) {
            Some(err) => declarator_in_error(t, err as int, 0),
            None => None,
        },
        None => None,
    }
}

/// The parked declarator of `n`, one pointer or reference layer down each.
pub open spec fn parked_declarator(t: SyntaxTree, n: int) -> Option<usize>
    decreases t.len() - n,
    when t.wf() && 0 <= n < t.len()
    via parked_declarator_decreases
{
    match parked_at(t, n) {
        Some(c) => Some(c),
        None => match t.fielded(n, "declarator"@) {
            Some(next) => if t.spec_kind(next as int) == "pointer_declarator"@ || t.spec_kind(
                next as int,
            ) == "reference_declarator"@ {
                parked_declarator(t, next as int)
            } else {
                None
            },
            None => None,
        },
    }
}

#[via_fn]
proof fn parked_declarator_decreases(t: SyntaxTree, n: int) {
    t.lemma_fielded(n, "declarator"@);
}

fn find_declarator_in_error(tree: &SyntaxTree, err: usize) -> (r: Option<usize>)
    requires
        tree.wf(),
        err < tree.len(),
    ensures
        r == declarator_in_error(*tree, err as int, 0),
        r matches Some(c) ==> c < tree.len(),
{
    let mut k: usize = 0;
    while k < tree.kids[err].len()
        invariant
            tree.wf(),
            err < tree.len(),
            k <= tree.children(err as int).len(),
            declarator_in_error(*tree, err as int, 0) == declarator_in_error(
                *tree,
                err as int,
                k as int,
            ),
        decreases tree.children(err as int).len() - k,
    {
        let c = tree.kids[err][k];
        assert(c == tree.children(err as int)[k as int]);
        if tree.kind_is(c, "function_declarator") {
            return Some(c);
        }
        if tree.kind_is(c, "init_declarator") {
            match tree.child_by_field_name(c, "declarator") {
                Some(d) => {
                    return Some(d);
                },
                None => {},
            }
        }
        k += 1;
    }
    None
}

fn find_parked_at(tree: &SyntaxTree, n: usize) -> (r: Option<usize>)
    requires
        tree.wf(),
        n < tree.len(),
    ensures
        r == parked_at(*tree, n as int),
        r matches Some(c) ==> c < tree.len(),
{
    let d = match tree.child_by_field_name(n, "declarator") {
        Some(d) => d,
        None => {
            return None;
        },
    };
    let at = tree.rows[d].start;
    let mut k: usize = 0;
    while k < tree.kids[n].len()
        invariant
            tree.wf(),
            n < tree.len(),
            tree.fielded(n as int, "declarator"@) == Some(d),
            d < tree.len(),
            at == tree.rows@[d as int].start,
            k <= tree.children(n as int).len(),
            error_before(*tree, n as int, at as int, 0) == error_before(
                *tree,
                n as int,
                at as int,
                k as int,
            ),
        decreases tree.children(n as int).len() - k,
    {
        let c = tree.kids[n][k];
        assert(c == tree.children(n as int)[k as int]);
        if tree.kind_is(c, "ERROR") && tree.rows[c].end <= at {
            return find_declarator_in_error(tree, c);
        }
        k += 1;
    }
    None
}

/// The real declarator of a definition whose `declarator` field is nothing
/// but an unknown attribute macro trailing it (`void C::M() OVERRIDE {}`): the
/// parser parks it in an error before the field it displaced, one level down
/// per pointer or reference layer.
pub fn error_parked_declarator(tree: &SyntaxTree, node: usize) -> (r: Option<usize>)
    requires
        tree.wf(),
        node < tree.len(),
    ensures
        r == parked_declarator(*tree, node as int),
        r matches Some(c) ==> c < tree.len(),
    decreases tree.len() - node,
{
    match find_parked_at(tree, node) {
        Some(c) => {
            return Some(c);
        },
        None => {},
    }
    match tree.child_by_field_name(node, "declarator") {
        Some(next) => if tree.kind_is(next, "pointer_declarator") || tree.kind_is(
            next,
            "reference_declarator",
        ) {
            error_parked_declarator(tree, next)
        } else {
            None
        },
        None => None,
    }
}

/// The declarator of the definition `n`.
pub open spec fn definition_declarator(t: SyntaxTree, n: int) -> Option<usize> {
    match parked_declarator(t, n) {
        Some(c) => Some(c),
        None => match t.fielded(n, "declarator"@) {
            Some(d) => Some(d),
            None => declarator::first_function(t, n),
        },
    }
}

/// The declarator of a function definition: the parked one, its field, or the
/// first function declarator in it.
pub fn function_declarator(tree: &SyntaxTree, node: usize) -> (r: Option<usize>)
    requires
        tree.wf(),
        node < tree.len(),
    ensures
        r == definition_declarator(*tree, node as int),
        r matches Some(c) ==> c < tree.len(),
{
    match error_parked_declarator(tree, node) {
        Some(c) => Some(c),
        None => match tree.child_by_field_name(node, "declarator") {
            Some(d) => Some(d),
            None => find_function_declarator(tree, node),
        },
    }
}

/// The name that the definition `n` declares, as its source spells it.
pub open spec fn raw_name(t: SyntaxTree, source: Seq<char>, n: int) -> Option<Seq<char>> {
    match definition_declarator(t, n) {
        Some(d) => {
            let name = if declarator::keyword_error_from(t, n, 0) is Some {
                members::short_name(t, source, n)
            } else {
                Some(declarator::declared_name(t, source, d as int).0)
            };
            match name {
                Some(own) => if own.len() > 0 {
                    Some(own)
                } else {
                    None
                },
                None => None,
            }
        },
        None => None,
    }
}

/// The longest scope of `name` that is a class with a type.
pub open spec fn owner_class(x: ClassIndex, name: Seq<char>) -> Option<Seq<char>>
    decreases name.len(),
    via owner_class_decreases
{
    let at = text::find_last(name, "::"@, name.len() as int);
    if at < 0 {
        None
    } else if x.spec_typed(name.take(at)) is Some {
        Some(name.take(at))
    } else {
        owner_class(x, name.take(at))
    }
}

#[via_fn]
proof fn owner_class_decreases(x: ClassIndex, name: Seq<char>) {
    reveal_strlit("::");
    text::lemma_find_last(name, "::"@, name.len() as int);
}

/// Longest `a::b::Cls` prefix of a qualified function name that resolves to an
/// interned class tag.
pub fn derive_owner_class(index: &ClassIndex, name: &[char]) -> (r: Option<Vec<char>>)
    ensures
        lookup::opt_chars(r) == owner_class(*index, name@),
    decreases name@.len(),
{
    proof {
        reveal_strlit("::");
        text::lemma_find_last(name@, "::"@, name@.len() as int);
    }
    match rfind(name, &chars_of("::")) {
        Some(at) => {
            let prefix = part(name, 0, at);
            assert(prefix@ =~= name@.take(at as int));
            if index.type_by_tag(&prefix).is_some() {
                Some(prefix)
            } else {
                derive_owner_class(index, &prefix)
            }
        },
        None => None,
    }
}

/// How a function definition is named and looked up in.
#[derive(Debug, PartialEq, Eq)]
pub struct FnName {
    /// The full name it registers under.
    pub name: String,
    /// The class it is a member of.
    pub class: Option<String>,
    /// The class or namespace that names in its parameters and body are looked
    /// up in.
    pub lookup_scope: Option<String>,
    /// It is spelled in a scope that no class of the index is.
    pub owner_unresolved: bool,
}

/// The scope and the last part of a qualified name.
pub open spec fn parted(name: Seq<char>) -> Option<(Seq<char>, Seq<char>)> {
    let at = text::find_last(name, "::"@, name.len() as int);
    if at < 0 {
        None
    } else {
        Some((name.take(at), name.skip(at + "::"@.len())))
    }
}

/// The full name and the class of the function declared as `raw`.
pub open spec fn owned_name(s: NameScope, x: ClassIndex, raw: Seq<char>) -> (
    Seq<char>,
    Option<Seq<char>>,
) {
    let full = naming::canonical_name(
        scope::qualified_decl(s.spec_levels(), scope::opt_view(s.class_ctx), s.is_cpp, raw),
    );
    match s.class_ctx {
        Some(cls) => (full, Some(cls@)),
        None => match owner_class(x, full) {
            Some(cls) => (full, Some(cls)),
            None => match parted(full) {
                Some((prefix, member)) => match s.spec_class_seen(x, prefix) {
                    Some(cls) => (cls + "::"@ + member, Some(cls)),
                    None => (full, None),
                },
                None => (full, None),
            },
        },
    }
}

/// The class or namespace that names in the definition are looked up in.
pub open spec fn lookup_scope_of(s: NameScope, x: ClassIndex, raw: Seq<char>) -> Option<Seq<char>> {
    let (name, class) = owned_name(s, x, raw);
    if class is None && text::contains(naming::scope_of(raw), "::"@) {
        match parted(naming::scope_of(name)) {
            Some((scope, _)) => Some(scope),
            None => None,
        }
    } else {
        class
    }
}

fn split_last(name: &[char]) -> (r: Option<(Vec<char>, Vec<char>)>)
    ensures
        match r {
            Some((a, b)) => parted(name@) == Some((a@, b@)),
            None => parted(name@) is None,
        },
{
    let sep = chars_of("::");
    proof {
        reveal_strlit("::");
        text::lemma_find_last(name@, "::"@, name@.len() as int);
    }
    match rfind(name, &sep) {
        Some(at) => {
            assert(name@.len() == name.len() && sep@.len() == sep.len());
            let scope = part(name, 0, at);
            let last = part(name, at + sep.len(), name.len());
            assert(scope@ =~= name@.take(at as int));
            assert(last@ =~= name@.skip(at + sep@.len()));
            Some((scope, last))
        },
        None => None,
    }
}

impl NameScope {
    /// The full name, owner and lookup scope of the function declared as
    /// `raw`. A member defined outside its class is recovered from the longest
    /// scope that names a known class, or, when none does, from the class that
    /// a `using namespace` directive brings its scope to, which then names it.
    pub fn name_function(&self, index: &ClassIndex, raw: &str) -> (r: FnName)
        ensures
            ({
                let (name, class) = owned_name(*self, *index, raw@);
                &&& r.name@ == name
                &&& scope::opt_view(r.class) == class
                &&& scope::opt_view(r.lookup_scope) == lookup_scope_of(*self, *index, raw@)
                &&& r.owner_unresolved == (class is None && text::contains(
                    naming::scope_of(raw@),
                    "::"@,
                ))
            }),
    {
        let sep = chars_of("::");
        let mut name = chars_of(self.qualify_decl(raw).as_str());
        let class: Option<Vec<char>> = match &self.class_ctx {
            Some(cls) => Some(chars_of(cls.as_str())),
            None => match derive_owner_class(index, &name) {
                Some(cls) => Some(cls),
                None => match split_last(&name) {
                    Some((prefix, member)) => match self.class_seen_from(index, &prefix) {
                        Some(cls) => {
                            let mut whole = part(&cls, 0, cls.len());
                            assert(whole@ =~= cls@);
                            append(&mut whole, &sep);
                            append(&mut whole, &member);
                            name = whole;
                            Some(cls)
                        },
                        None => None,
                    },
                    None => None,
                },
            },
        };
        let raw_scope = chars_of(scope_part(raw).as_str());
        let owner_unresolved = class.is_none() && holds(&raw_scope, &sep);
        let full = string_of(&name);
        let lookup_scope: Option<String> = if owner_unresolved {
            let own = chars_of(scope_part(full.as_str()).as_str());
            match split_last(&own) {
                Some((outer, _)) => Some(string_of(&outer)),
                None => None,
            }
        } else {
            match &class {
                Some(cls) => Some(string_of(cls)),
                None => None,
            }
        };
        let class = match class {
            Some(cls) => Some(string_of(&cls)),
            None => None,
        };
        FnName { name: full, class, lookup_scope, owner_unresolved }
    }

    /// The function that a definition declares: none where it has no name.
    pub fn function_name(
        &self,
        index: &ClassIndex,
        source: &str,
        tree: &SyntaxTree,
        node: usize,
    ) -> (r: Option<FnName>)
        requires
            tree.fits(source@),
            node < tree.len(),
        ensures
            match r {
                Some(f) => raw_name(*tree, source@, node as int) matches Some(raw) && {
                    let (name, class) = owned_name(*self, *index, raw);
                    &&& f.name@ == name
                    &&& scope::opt_view(f.class) == class
                    &&& scope::opt_view(f.lookup_scope) == lookup_scope_of(*self, *index, raw)
                    &&& f.owner_unresolved == (class is None && text::contains(
                        naming::scope_of(raw),
                        "::"@,
                    ))
                },
                None => raw_name(*tree, source@, node as int) is None,
            },
    {
        let decl = match function_declarator(tree, node) {
            Some(d) => d,
            None => {
                return None;
            },
        };
        let raw = if conversion_keyword_error(tree, node).is_some() {
            match member_short_name(source, tree, node) {
                Some(name) => name,
                None => {
                    return None;
                },
            }
        } else {
            parse_declarator_name(source, tree, decl).0
        };
        if chars_of(raw.as_str()).len() == 0 {
            return None;
        }
        Some(self.name_function(index, raw.as_str()))
    }
}

/// How far the parts of a scope reached when a function was entered, and what
/// its class was.
pub struct FunctionMark {
    pub namespaces: usize,
    pub directives: usize,
    pub imports: usize,
    pub aliases: usize,
    pub scoped: bool,
    pub class_ctx: Option<String>,
}

/// The namespaces that a definition spelled in `scope` names but does not sit
/// in.
pub open spec fn unopened(s: NameScope, scope: Seq<char>) -> Seq<Seq<char>> {
    let open = scope::scope_text(s.spec_levels());
    if open.len() == 0 {
        naming::segments(scope)
    } else if text::starts_with(scope, open + "::"@) {
        naming::segments(scope.skip((open + "::"@).len() as int))
    } else {
        seq![]
    }
}

pub open spec fn named_stack(segs: Seq<Seq<char>>) -> Seq<Option<Seq<char>>> {
    segs.map_values(|s: Seq<char>| Some(s))
}

impl NameScope {
    /// `scope` is not yet the innermost scope that type names are looked up in.
    pub open spec fn enters(&self, scope: Option<Seq<char>>) -> bool {
        &&& self.is_cpp
        &&& scope matches Some(own) && !(self.type_scope@.len() > 0 && self.type_scope@.last()@
            == own)
    }

    fn unopened_levels(&self, scope: &str) -> (r: Vec<Option<String>>)
        ensures
            scope::level_views(r@) == named_stack(unopened(*self, scope@)),
    {
        let mut head = chars_of(self.namespace_scope().as_str());
        let s = chars_of(scope);
        let mut out: Vec<Option<String>> = Vec::new();
        let rest: Vec<char> = if head.len() == 0 {
            s
        } else {
            append(&mut head, &chars_of("::"));
            if !begins(&s, &head) {
                assert(scope::level_views(out@) =~= named_stack(unopened(*self, scope@)));
                return out;
            }
            let rest = part(&s, head.len(), s.len());
            assert(rest@ =~= s@.skip(head@.len() as int));
            rest
        };
        let segs = split_segments(&rest);
        let ghost all = naming::piece_views(segs@);
        let mut k: usize = 0;
        while k < segs.len()
            invariant
                k <= segs@.len(),
                all == naming::piece_views(segs@),
                out@.len() == k,
                forall|i: int|
                    0 <= i < k ==> (#[trigger] out@[i]) is Some && out@[i]->0@ == all[i],
            decreases segs@.len() - k,
        {
            out.push(Some(string_of(&segs[k])));
            k += 1;
        }
        assert(scope::level_views(out@) =~= named_stack(all));
        out
    }

    /// Enter the class or namespace that the names of a definition are looked
    /// up in, unless it is the innermost scope already; tells whether it was
    /// entered.
    pub fn enter_lookup_scope(&mut self, lookup_scope: &Option<String>) -> (scoped: bool)
        ensures
            scoped == old(self).enters(scope::opt_view(*lookup_scope)),
            spelling::views(final(self).type_scope@) == if scoped {
                spelling::views(old(self).type_scope@).push(lookup_scope->0@)
            } else {
                spelling::views(old(self).type_scope@)
            },
            scoped ==> final(self).type_scope@.len() > 0 && final(self).type_scope@.drop_last()
                == old(self).type_scope@,
            !scoped ==> final(self).type_scope@ == old(self).type_scope@,
            final(self).ns_stack == old(self).ns_stack,
            final(self).using_nss == old(self).using_nss,
            final(self).using_name_imports == old(self).using_name_imports,
            final(self).class_ctx == old(self).class_ctx,
            final(self).local_aliases == old(self).local_aliases,
            final(self).is_cpp == old(self).is_cpp,
    {
        let depth = self.type_scope.len();
        let scoped = match lookup_scope {
            Some(own) => self.is_cpp && !(depth > 0 && str_eq(
                self.type_scope[depth - 1].as_str(),
                own.as_str(),
            )),
            None => false,
        };
        let ghost before = *self;
        if scoped {
            match lookup_scope {
                Some(own) => {
                    self.type_scope.push(string_of(&chars_of(own.as_str())));
                    assert(spelling::views(self.type_scope@) =~= spelling::views(
                        before.type_scope@,
                    ).push(own@));
                    assert(self.type_scope@.drop_last() =~= before.type_scope@);
                },
                None => {},
            }
        }
        scoped
    }

    /// Enter the scope of a function body: its class, the scope that its names
    /// are looked up in, and, for a free function spelled in a namespace, the
    /// levels of that namespace that are not open yet. `in_namespace` says that
    /// the lookup scope is a namespace some unit opens.
    pub fn enter_function(&mut self, f: &FnName, in_namespace: bool) -> (mark: FunctionMark)
        ensures
            mark.namespaces == old(self).ns_stack@.len(),
            mark.directives == old(self).using_nss@.len(),
            mark.imports == old(self).using_name_imports@.len(),
            mark.aliases == old(self).local_aliases@.len(),
            mark.scoped == old(self).enters(scope::opt_view(f.lookup_scope)),
            mark.class_ctx == old(self).class_ctx,
            final(self).using_nss == old(self).using_nss,
            final(self).using_name_imports == old(self).using_name_imports,
            final(self).local_aliases == old(self).local_aliases,
            final(self).is_cpp == old(self).is_cpp,
            old(self).ns_stack@.is_prefix_of(final(self).ns_stack@),
            scope::level_views(
                final(self).ns_stack@.skip(old(self).ns_stack@.len() as int),
            ) == match f.lookup_scope {
                Some(scope) => if f.class is None && in_namespace {
                    named_stack(unopened(*old(self), scope@))
                } else {
                    seq![]
                },
                None => seq![],
            },
            spelling::views(final(self).type_scope@) == if mark.scoped {
                spelling::views(old(self).type_scope@).push(f.lookup_scope->0@)
            } else {
                spelling::views(old(self).type_scope@)
            },
            mark.scoped ==> final(self).type_scope@.len() > 0 && final(self).type_scope@.drop_last()
                == old(self).type_scope@,
            !mark.scoped ==> final(self).type_scope@ == old(self).type_scope@,
            scope::opt_view(final(self).class_ctx) == match f.class {
                Some(cls) => Some(cls@),
                None => scope::opt_view(old(self).class_ctx),
            },
    {
        let ghost before = *self;
        let scoped = self.enter_lookup_scope(&f.lookup_scope);
        let class_ctx = match &self.class_ctx {
            Some(cls) => Some(string_of(&chars_of(cls.as_str()))),
            None => None,
        };
        let mut mark = FunctionMark {
            namespaces: self.ns_stack.len(),
            directives: self.using_nss.len(),
            imports: self.using_name_imports.len(),
            aliases: self.local_aliases.len(),
            scoped,
            class_ctx: None,
        };
        let ghost first = self.ns_stack@;
        assert(scope::level_views(first.skip(first.len() as int)) =~= seq![]);
        match &f.lookup_scope {
            Some(own) => {
                if f.class.is_none() && in_namespace {
                    let mut more = self.unopened_levels(own.as_str());
                    let ghost levels = more@;
                    assert(named_stack(unopened(*self, own@)) == named_stack(
                        unopened(before, own@),
                    ));
                    self.ns_stack.append(&mut more);
                    assert(self.ns_stack@.skip(first.len() as int) =~= levels);
                }
            },
            None => {},
        }
        match &f.class {
            Some(cls) => {
                let own = Some(string_of(&chars_of(cls.as_str())));
                std::mem::swap(&mut mark.class_ctx, &mut self.class_ctx);
                self.class_ctx = own;
            },
            None => {
                std::mem::swap(&mut mark.class_ctx, &mut self.class_ctx);
                self.class_ctx = class_ctx;
            },
        }
        mark
    }

    /// Leave the scope of a function body: everything its body opened,
    /// declared or imported ends with it.
    pub fn leave_function(&mut self, mark: FunctionMark)
        requires
            mark.namespaces <= old(self).ns_stack@.len(),
            mark.directives <= old(self).using_nss@.len(),
            mark.imports <= old(self).using_name_imports@.len(),
            mark.aliases <= old(self).local_aliases@.len(),
            mark.scoped ==> old(self).type_scope@.len() > 0,
        ensures
            final(self).ns_stack@ == old(self).ns_stack@.take(mark.namespaces as int),
            final(self).using_nss@ == old(self).using_nss@.take(mark.directives as int),
            final(self).using_name_imports@ == old(self).using_name_imports@.take(
                mark.imports as int,
            ),
            final(self).local_aliases@ == old(self).local_aliases@.take(mark.aliases as int),
            final(self).type_scope@ == if mark.scoped {
                old(self).type_scope@.drop_last()
            } else {
                old(self).type_scope@
            },
            final(self).class_ctx == mark.class_ctx,
            final(self).is_cpp == old(self).is_cpp,
    {
        self.using_nss.truncate(mark.directives);
        self.using_name_imports.truncate(mark.imports);
        self.local_aliases.truncate(mark.aliases);
        self.ns_stack.truncate(mark.namespaces);
        if mark.scoped {
            self.type_scope.pop();
        }
        self.class_ctx = mark.class_ctx;
    }
}

/// Nothing written in a function body reaches past it: whatever the body opened,
/// declared or imported, leaving the function gives back the namespaces, the
/// directives, the imports, the aliases, the classes and the class of before.
pub proof fn law_functions_leave_their_scope_as_it_was(
    outer: NameScope,
    entered: NameScope,
    inner: NameScope,
    mark: FunctionMark,
    after: NameScope,
)
    requires
        mark.namespaces == outer.ns_stack@.len(),
        mark.directives == outer.using_nss@.len(),
        mark.imports == outer.using_name_imports@.len(),
        mark.aliases == outer.local_aliases@.len(),
        mark.class_ctx == outer.class_ctx,
        outer.ns_stack@.is_prefix_of(entered.ns_stack@),
        entered.using_nss == outer.using_nss,
        entered.using_name_imports == outer.using_name_imports,
        entered.local_aliases == outer.local_aliases,
        mark.scoped ==> entered.type_scope@.len() > 0 && entered.type_scope@.drop_last()
            == outer.type_scope@,
        !mark.scoped ==> entered.type_scope@ == outer.type_scope@,
        inner.extends(&entered),
        entered.local_aliases@.is_prefix_of(inner.local_aliases@),
        inner.type_scope@ == entered.type_scope@,
        after.ns_stack@ == inner.ns_stack@.take(mark.namespaces as int),
        after.using_nss@ == inner.using_nss@.take(mark.directives as int),
        after.using_name_imports@ == inner.using_name_imports@.take(mark.imports as int),
        after.local_aliases@ == inner.local_aliases@.take(mark.aliases as int),
        after.type_scope@ == if mark.scoped {
            inner.type_scope@.drop_last()
        } else {
            inner.type_scope@
        },
        after.class_ctx == mark.class_ctx,
    ensures
        after.ns_stack@ == outer.ns_stack@,
        after.using_nss@ == outer.using_nss@,
        after.using_name_imports@ == outer.using_name_imports@,
        after.local_aliases@ == outer.local_aliases@,
        after.type_scope@ == outer.type_scope@,
        after.class_ctx == outer.class_ctx,
{
    assert(after.ns_stack@ =~= outer.ns_stack@);
    assert(after.using_nss@ =~= outer.using_nss@);
    assert(after.using_name_imports@ =~= outer.using_name_imports@);
    assert(after.local_aliases@ =~= outer.local_aliases@);
}

} // verus!
