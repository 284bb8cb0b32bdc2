//! The scope a name is spelled in: enclosing namespaces, `using` directives
//! and imports, the class around a member, and how declared names are
//! qualified by them.

use crate::ir::TypeDesc;
use crate::naming;
use crate::naming::{canonical_chars, declared_chars, split_segments};
use crate::normalize;
use crate::normalize::{drop_prefix, last_segment_chars, requalified};
use crate::parse::node_text;
use crate::spelling;
use crate::syntax::SyntaxTree;
use crate::text;
use crate::text::{
    append, begins, chars_of, holds, part, same, space_char, str_eq, string_of, trimmed,
    trimmed_start,
};
use vstd::prelude::*;

verus! {

/// The segments of a name, put together with `::`.
pub open spec fn joined(segs: Seq<Seq<char>>) -> Seq<char>
    decreases segs.len(),
{
    if segs.len() == 0 {
        seq![]
    } else if segs.len() == 1 {
        segs[0]
    } else {
        joined(segs.drop_last()) + "::"@ + segs.last()
    }
}

/// The first `n` of `segs`, put together with `::`.
pub fn join_segments(segs: &Vec<Vec<char>>, n: usize) -> (r: Vec<char>)
    requires
        n <= segs@.len(),
    ensures
        r@ == joined(naming::piece_views(segs@).take(n as int)),
{
    let ghost all = naming::piece_views(segs@);
    let mut out: Vec<char> = Vec::new();
    let mut k: usize = 0;
    assert(all.take(0) =~= seq![]);
    while k < n
        invariant
            k <= n <= segs@.len(),
            all == naming::piece_views(segs@),
            out@ == joined(all.take(k as int)),
        decreases n - k,
    {
        proof {
            assert(all.take(k + 1).drop_last() =~= all.take(k as int));
            assert(all.take(k + 1).last() == segs@[k as int]@);
        }
        if k > 0 {
            append(&mut out, &chars_of("::"));
        }
        let ghost before = out@;
        append(&mut out, &segs[k]);
        assert(k == 0 ==> out@ =~= segs@[0]@);
        k += 1;
    }
    out
}

/// Anonymous levels aside, the levels of a namespace stack.
pub open spec fn named_levels(stack: Seq<Option<String>>) -> Seq<Seq<char>>
    decreases stack.len(),
{
    if stack.len() == 0 {
        seq![]
    } else {
        match stack.last() {
            Some(name) => named_levels(stack.drop_last()).push(name@),
            None => named_levels(stack.drop_last()),
        }
    }
}

/// The scope of nested levels: `::` stands behind whatever is there already.
pub open spec fn scope_text(levels: Seq<Seq<char>>) -> Seq<char>
    decreases levels.len(),
{
    if levels.len() == 0 {
        seq![]
    } else {
        let before = scope_text(levels.drop_last());
        if before.len() == 0 {
            levels.last()
        } else {
            before + "::"@ + levels.last()
        }
    }
}

/// The scope that names are declared and looked up in.
#[derive(Debug, PartialEq, Eq)]
pub struct NameScope {
    /// The namespaces around the current place; `None` is an anonymous one.
    pub ns_stack: Vec<Option<String>>,
    /// Namespaces made visible by `using namespace X;`.
    pub using_nss: Vec<String>,
    /// Members imported by `using X::member;`, as (`member`, `X::member`).
    pub using_name_imports: Vec<(String, String)>,
    /// The class whose member definitions are being lowered.
    pub class_ctx: Option<String>,
    /// Classes whose scope a type name is looked up in, innermost last.
    pub type_scope: Vec<String>,
    /// Aliases declared in the blocks of the current function, innermost last.
    pub local_aliases: Vec<(String, TypeDesc)>,
    pub is_cpp: bool,
}

/// How far the parts of a scope reached when a namespace was opened.
#[derive(Debug, Clone, Copy, PartialEq, Eq, Structural)]
pub struct ScopeMark {
    pub namespaces: usize,
    pub directives: usize,
    pub imports: usize,
}

/// How far the parts of a scope that end with a block reached when it began.
#[derive(Debug, Clone, Copy, PartialEq, Eq, Structural)]
pub struct BlockMark {
    pub directives: usize,
    pub imports: usize,
    pub aliases: usize,
}

/// The name of a scope with `name` in it.
pub open spec fn within(levels: Seq<Seq<char>>, name: Seq<char>) -> Seq<char> {
    joined(levels.push(name))
}

/// The declared name `raw` in full, as the source spells its target.
pub open spec fn qualified_decl(
    levels: Seq<Seq<char>>,
    class_ctx: Option<Seq<char>>,
    is_cpp: bool,
    raw: Seq<char>,
) -> Seq<char> {
    let declared = naming::declared_text(raw);
    let bare = normalize::after_prefix(declared, "::"@);
    if text::starts_with(declared, "::"@) {
        bare
    } else {
        let scoped = text::contains(naming::scope_of(bare), "::"@);
        match class_ctx {
            Some(cls) => if scoped {
                bare
            } else {
                cls + "::"@ + bare
            },
            None => if !scoped {
                within(levels, raw)
            } else if !is_cpp || levels.contains(naming::segments(bare)[0]) {
                bare
            } else {
                within(levels, bare)
            },
        }
    }
}

/// The prefixes of the enclosing namespaces, innermost first, from the first
/// `n` levels down to the global scope.
pub open spec fn prefixes_from(levels: Seq<Seq<char>>, n: int) -> Seq<Seq<char>>
    decreases n,
{
    if n <= 0 {
        seq![joined(levels.take(0))]
    } else {
        seq![joined(levels.take(n))] + prefixes_from(levels, n - 1)
    }
}

/// The namespaces a relative `using` target may denote.
pub open spec fn using_targets(levels: Seq<Seq<char>>, target: Seq<char>) -> Seq<Seq<char>> {
    if text::starts_with(target, "::"@) || target.len() == 0 {
        seq![target]
    } else {
        prefixes_from(levels, levels.len() as int).map_values(
            |prefix: Seq<char>| prefix + "::"@ + target,
        ).push(target)
    }
}

/// `list` with those of `more` that it does not hold yet, in order.
pub open spec fn joined_in<T>(list: Seq<T>, more: Seq<T>) -> Seq<T>
    decreases more.len(),
{
    if more.len() == 0 {
        list
    } else {
        let before = joined_in(list, more.drop_last());
        if before.contains(more.last()) {
            before
        } else {
            before.push(more.last())
        }
    }
}

pub open spec fn pair_views(v: Seq<(String, String)>) -> Seq<(Seq<char>, Seq<char>)> {
    v.map_values(|p: (String, String)| (p.0@, p.1@))
}

pub open spec fn opt_view(s: Option<String>) -> Option<Seq<char>> {
    match s {
        Some(t) => Some(t@),
        None => None,
    }
}

impl NameScope {
    /// The scope of a unit before anything of it was read.
    pub fn new(is_cpp: bool) -> (r: NameScope)
        ensures
            r.ns_stack@.len() == 0,
            r.using_nss@.len() == 0,
            r.using_name_imports@.len() == 0,
            r.class_ctx is None,
            r.type_scope@.len() == 0,
            r.local_aliases@.len() == 0,
            r.is_cpp == is_cpp,
    {
        NameScope {
            ns_stack: Vec::new(),
            using_nss: Vec::new(),
            using_name_imports: Vec::new(),
            class_ctx: None,
            type_scope: Vec::new(),
            local_aliases: Vec::new(),
            is_cpp,
        }
    }

    pub open spec fn spec_levels(&self) -> Seq<Seq<char>> {
        named_levels(self.ns_stack@)
    }

    /// The named namespaces around the current place, outermost first.
    pub fn levels(&self) -> (r: Vec<Vec<char>>)
        ensures
            naming::piece_views(r@) == self.spec_levels(),
    {
        let mut out: Vec<Vec<char>> = Vec::new();
        let mut k: usize = 0;
        proof {
            assert(self.ns_stack@.take(0) =~= seq![]);
            assert(naming::piece_views(out@) =~= named_levels(self.ns_stack@.take(0)));
        }
        while k < self.ns_stack.len()
            invariant
                k <= self.ns_stack@.len(),
                naming::piece_views(out@) == named_levels(self.ns_stack@.take(k as int)),
            decreases self.ns_stack@.len() - k,
        {
            let ghost before = out@;
            proof {
                assert(self.ns_stack@.take(k + 1).drop_last() =~= self.ns_stack@.take(k as int));
                assert(self.ns_stack@.take(k + 1).last() == self.ns_stack@[k as int]);
            }
            match &self.ns_stack[k] {
                Some(name) => {
                    out.push(chars_of(name.as_str()));
                    assert(naming::piece_views(out@) =~= naming::piece_views(before).push(name@));
                },
                None => {},
            }
            k += 1;
        }
        assert(self.ns_stack@.take(k as int) =~= self.ns_stack@);
        out
    }

    /// The name of the innermost namespace, in full.
    pub fn namespace_scope(&self) -> (r: String)
        ensures
            r@ == scope_text(self.spec_levels()),
    {
        let levels = self.levels();
        let ghost all = naming::piece_views(levels@);
        let mut out: Vec<char> = Vec::new();
        let mut k: usize = 0;
        assert(all.take(0) =~= seq![]);
        while k < levels.len()
            invariant
                k <= levels@.len(),
                all == naming::piece_views(levels@),
                out@ == scope_text(all.take(k as int)),
            decreases levels@.len() - k,
        {
            proof {
                assert(all.take(k + 1).drop_last() =~= all.take(k as int));
                assert(all.take(k + 1).last() == levels@[k as int]@);
            }
            if out.len() > 0 {
                append(&mut out, &chars_of("::"));
            }
            let ghost before = out@;
            append(&mut out, &levels[k]);
            assert(before.len() == 0 ==> out@ =~= levels@[k as int]@);
            k += 1;
        }
        assert(all.take(k as int) =~= all);
        string_of(&out)
    }

    /// `name` as a member of the innermost namespace.
    pub fn qualify(&self, name: &str) -> (r: String)
        ensures
            r@ == within(self.spec_levels(), name@),
    {
        string_of(&self.qualified(&chars_of(name)))
    }

    fn qualified(&self, name: &[char]) -> (r: Vec<char>)
        ensures
            r@ == within(self.spec_levels(), name@),
    {
        let mut parts = self.levels();
        let ghost before = parts@;
        let own = part(name, 0, name.len());
        assert(own@ =~= name@);
        parts.push(own);
        proof {
            assert(naming::piece_views(parts@) =~= naming::piece_views(before).push(name@));
            assert(naming::piece_views(parts@).take(parts@.len() as int) =~= naming::piece_views(
                parts@,
            ));
        }
        join_segments(&parts, parts.len())
    }

    /// An enclosing namespace is anonymous.
    pub fn in_anonymous_namespace(&self) -> (r: bool)
        ensures
            r == exists|i: int|
                0 <= i < self.ns_stack@.len() && (#[trigger] self.ns_stack@[i]) is None,
    {
        let mut k: usize = 0;
        while k < self.ns_stack.len()
            invariant
                k <= self.ns_stack@.len(),
                forall|i: int| 0 <= i < k ==> (#[trigger] self.ns_stack@[i]) is Some,
            decreases self.ns_stack@.len() - k,
        {
            if self.ns_stack[k].is_none() {
                return true;
            }
            k += 1;
        }
        false
    }

    /// The declared name in full, the target of a conversion operator as it
    /// is spelled.
    fn decl_spelling(&self, raw: &[char]) -> (r: Vec<char>)
        ensures
            r@ == qualified_decl(
                self.spec_levels(),
                opt_view(self.class_ctx),
                self.is_cpp,
                raw@,
            ),
    {
        let sep = chars_of("::");
        let declared = declared_chars(raw);
        let bare = drop_prefix(&declared, &sep);
        if begins(&declared, &sep) {
            return bare;
        }
        let scope = chars_of(naming::scope_part(string_of(&bare).as_str()).as_str());
        let scoped = holds(&scope, &sep);
        match &self.class_ctx {
            Some(cls) => if scoped {
                bare
            } else {
                let mut out = chars_of(cls.as_str());
                append(&mut out, &sep);
                append(&mut out, &bare);
                out
            },
            None => {
                if !scoped {
                    return self.qualified(raw);
                }
                if !self.is_cpp {
                    return bare;
                }
                let segs = split_segments(&bare);
                assert(segs@[0]@ == naming::piece_views(segs@)[0]);
                let levels = self.levels();
                let mut k: usize = 0;
                while k < levels.len()
                    invariant
                        k <= levels@.len(),
                        segs@.len() > 0,
                        self.is_cpp,
                        scoped,
                        self.class_ctx is None,
                        !text::starts_with(declared@, "::"@),
                        declared@ == naming::declared_text(raw@),
                        bare@ == normalize::after_prefix(declared@, "::"@),
                        scoped == text::contains(naming::scope_of(bare@), "::"@),
                        segs@[0]@ == naming::segments(bare@)[0],
                        naming::piece_views(levels@) == self.spec_levels(),
                        forall|j: int|
                            0 <= j < k ==> #[trigger] naming::piece_views(levels@)[j] != segs@[0]@,
                    decreases levels@.len() - k,
                {
                    assert(naming::piece_views(levels@)[k as int] == levels@[k as int]@);
                    if same(&levels[k], &segs[0]) {
                        assert(self.spec_levels().contains(segs@[0]@));
                        return bare;
                    }
                    k += 1;
                }
                self.qualified(&bare)
            },
        }
    }

    /// Qualify a declared function name with the enclosing class or namespace:
    /// in-class definitions get the class prefix; free functions get the
    /// namespace prefix. Out-of-class member spellings (`Shape::area`) may omit
    /// the namespace: it is put in front unless the name already starts with
    /// one of the enclosing namespaces. A leading `::` means global scope.
    pub fn qualify_decl(&self, raw_name: &str) -> (r: String)
        ensures
            r@ == naming::canonical_name(
                qualified_decl(
                    self.spec_levels(),
                    opt_view(self.class_ctx),
                    self.is_cpp,
                    raw_name@,
                ),
            ),
    {
        string_of(&canonical_chars(&self.decl_spelling(&chars_of(raw_name))))
    }

    /// The namespaces a relative `using` target may denote: the target in each
    /// enclosing namespace, innermost first, then the target as it is spelled.
    /// A target that starts with `::` is qualified already.
    pub fn expand_using_target(&self, target: &str) -> (r: Vec<String>)
        ensures
            spelling::views(r@) == using_targets(self.spec_levels(), target@),
    {
        let sep = chars_of("::");
        let bare = chars_of(target);
        let mut out: Vec<String> = Vec::new();
        if bare.len() == 0 || begins(&bare, &sep) {
            out.push(string_of(&bare));
            assert(spelling::views(out@) =~= seq![target@]);
            return out;
        }
        let levels = self.levels();
        let ghost all = naming::piece_views(levels@);
        let ghost prefixes = prefixes_from(all, all.len() as int);
        let ghost put = |prefix: Seq<char>| prefix + "::"@ + target@;
        let mut n: usize = levels.len();
        assert(all.len() == levels@.len());
        assert(spelling::views(out@) + prefixes_from(all, n as int).map_values(put)
            =~= prefixes.map_values(put));
        loop
            invariant_except_break
                spelling::views(out@) + prefixes_from(all, n as int).map_values(put)
                    == prefixes.map_values(put),
            invariant
                n <= levels@.len(),
                sep@ == "::"@,
                bare@ == target@,
                all == naming::piece_views(levels@),
                put == (|prefix: Seq<char>| prefix + "::"@ + target@),
            ensures
                spelling::views(out@) == prefixes.map_values(put),
            decreases n,
        {
            let mut text = join_segments(&levels, n);
            append(&mut text, &sep);
            append(&mut text, &bare);
            let ghost before = spelling::views(out@);
            let ghost rest = prefixes_from(all, n as int).map_values(put);
            out.push(string_of(&text));
            proof {
                assert(spelling::views(out@) =~= before.push(text@));
                if n == 0 {
                    assert(rest =~= seq![text@]);
                    assert(spelling::views(out@) =~= before + rest);
                } else {
                    assert(rest =~= seq![text@] + prefixes_from(all, n - 1).map_values(put));
                    assert(spelling::views(out@) + prefixes_from(all, n - 1).map_values(put)
                        =~= before + rest);
                }
            }
            if n == 0 {
                break;
            }
            n -= 1;
        }
        let ghost before = spelling::views(out@);
        out.push(string_of(&bare));
        assert(spelling::views(out@) =~= before.push(target@));
        out
    }
}

/// The last of the first `k` children of `n` that names the target of a
/// `using` declaration.
pub open spec fn using_target_node(t: SyntaxTree, n: int, k: int) -> Option<usize>
    decreases k,
{
    if k <= 0 || k > t.children(n).len() {
        None
    } else {
        let kind = t.spec_kind(t.children(n)[k - 1] as int);
        if kind == "identifier"@ || kind == "qualified_identifier"@ || kind
            == "namespace_identifier"@ {
            Some(t.children(n)[k - 1])
        } else {
            using_target_node(t, n, k - 1)
        }
    }
}

/// The target that a `using` declaration names.
pub open spec fn using_target(t: SyntaxTree, source: Seq<char>, n: int) -> Option<Seq<char>> {
    match using_target_node(t, n, t.children(n).len() as int) {
        Some(c) => Some(normalize::qualified_text(t.text(source, c as int))),
        None => None,
    }
}

/// The imports that `using target;` adds.
pub open spec fn using_imports(levels: Seq<Seq<char>>, target: Seq<char>) -> Seq<
    (Seq<char>, Seq<char>),
> {
    using_targets(levels, target).map_values(
        |q: Seq<char>| (normalize::last_segment(target), q),
    )
}

fn is_name_listed(list: &Vec<String>, name: &str) -> (r: bool)
    ensures
        r == spelling::views(list@).contains(name@),
{
    let mut k: usize = 0;
    while k < list.len()
        invariant
            k <= list@.len(),
            forall|j: int| 0 <= j < k ==> #[trigger] spelling::views(list@)[j] != name@,
        decreases list@.len() - k,
    {
        assert(spelling::views(list@)[k as int] == list@[k as int]@);
        if str_eq(list[k].as_str(), name) {
            return true;
        }
        k += 1;
    }
    false
}

fn is_pair_listed(list: &Vec<(String, String)>, base: &str, name: &str) -> (r: bool)
    ensures
        r == pair_views(list@).contains((base@, name@)),
{
    let mut k: usize = 0;
    while k < list.len()
        invariant
            k <= list@.len(),
            forall|j: int| 0 <= j < k ==> #[trigger] pair_views(list@)[j] != (base@, name@),
        decreases list@.len() - k,
    {
        assert(pair_views(list@)[k as int] == (list@[k as int].0@, list@[k as int].1@));
        if str_eq(list[k].0.as_str(), base) && str_eq(list[k].1.as_str(), name) {
            return true;
        }
        k += 1;
    }
    false
}

fn find_using_target(tree: &SyntaxTree, node: usize) -> (r: Option<usize>)
    requires
        tree.wf(),
        node < tree.len(),
    ensures
        r == using_target_node(*tree, node as int, tree.children(node as int).len() as int),
        r matches Some(c) ==> c < tree.len(),
{
    let mut k: usize = tree.kids[node].len();
    while k > 0
        invariant
            tree.wf(),
            node < tree.len(),
            k <= tree.children(node as int).len(),
            using_target_node(*tree, node as int, tree.children(node as int).len() as int)
                == using_target_node(*tree, node as int, k as int),
        decreases k,
    {
        let c = tree.kids[node][k - 1];
        assert(c == tree.children(node as int)[k - 1]);
        if tree.kind_is(c, "identifier") || tree.kind_is(c, "qualified_identifier")
            || tree.kind_is(c, "namespace_identifier") {
            return Some(c);
        }
        k -= 1;
    }
    None
}

impl NameScope {
    /// What a `using` declaration leaves as it was.
    pub open spec fn same_places(&self, other: &NameScope) -> bool {
        &&& self.ns_stack == other.ns_stack
        &&& self.class_ctx == other.class_ctx
        &&& self.type_scope == other.type_scope
        &&& self.local_aliases == other.local_aliases
        &&& self.is_cpp == other.is_cpp
    }

    fn add_directives(&mut self, target: &str)
        ensures
            final(self).same_places(old(self)),
            final(self).using_name_imports == old(self).using_name_imports,
            spelling::views(final(self).using_nss@) == joined_in(
                spelling::views(old(self).using_nss@),
                using_targets(old(self).spec_levels(), target@),
            ),
    {
        let targets = self.expand_using_target(target);
        let ghost all = spelling::views(targets@);
        let ghost first = spelling::views(self.using_nss@);
        let ghost mut k: int = 0;
        assert(all.take(0) =~= seq![]);
        for q in it: targets
            invariant
                it.seq() == targets@,
                all == spelling::views(targets@),
                k == it.index(),
                self.same_places(old(self)),
                self.using_name_imports == old(self).using_name_imports,
                spelling::views(self.using_nss@) == joined_in(first, all.take(k)),
        {
            let ghost before = self.using_nss@;
            proof {
                assert(all.take(k + 1).drop_last() =~= all.take(k));
                assert(all.take(k + 1).last() == q@);
            }
            if !is_name_listed(&self.using_nss, q.as_str()) {
                self.using_nss.push(q);
                assert(spelling::views(self.using_nss@) =~= spelling::views(before).push(q@));
            }
            proof {
                k = k + 1;
            }
        }
        assert(all.take(k) =~= all);
    }

    fn add_imports(&mut self, target: &str)
        ensures
            final(self).same_places(old(self)),
            final(self).using_nss == old(self).using_nss,
            pair_views(final(self).using_name_imports@) == joined_in(
                pair_views(old(self).using_name_imports@),
                using_imports(old(self).spec_levels(), target@),
            ),
    {
        let targets = self.expand_using_target(target);
        let ghost all = using_imports(self.spec_levels(), target@);
        let ghost first = pair_views(self.using_name_imports@);
        let base = last_segment_chars(&chars_of(target));
        let ghost mut k: int = 0;
        assert(all.take(0) =~= seq![]);
        for q in it: targets
            invariant
                it.seq() == targets@,
                all == using_imports(old(self).spec_levels(), target@),
                spelling::views(targets@) == using_targets(old(self).spec_levels(), target@),
                base@ == normalize::last_segment(target@),
                k == it.index(),
                self.same_places(old(self)),
                self.using_nss == old(self).using_nss,
                pair_views(self.using_name_imports@) == joined_in(first, all.take(k)),
        {
            let ghost before = self.using_name_imports@;
            let own = string_of(&base);
            proof {
                assert(all.take(k + 1).drop_last() =~= all.take(k));
                assert(spelling::views(targets@)[k] == q@);
                assert(all.take(k + 1).last() == (base@, q@));
            }
            if !is_pair_listed(&self.using_name_imports, own.as_str(), q.as_str()) {
                self.using_name_imports.push((own, q));
                assert(pair_views(self.using_name_imports@) =~= pair_views(before).push(
                    (base@, q@),
                ));
            }
            proof {
                k = k + 1;
            }
        }
        assert(all.take(k) =~= all);
    }

    /// Take in a `using` declaration. `using namespace X;` makes every
    /// namespace visible that the target may denote; `using X::f;` records the
    /// imported name with every entry it may stand for.
    pub fn lower_using_declaration(&mut self, source: &str, tree: &SyntaxTree, node: usize)
        requires
            tree.fits(source@),
            node < tree.len(),
        ensures
            final(self).same_places(old(self)),
            match using_target(*tree, source@, node as int) {
                None => final(self).using_nss == old(self).using_nss
                    && final(self).using_name_imports == old(self).using_name_imports,
                Some(target) => if tree.of_kind(node as int, "namespace"@) is Some {
                    &&& final(self).using_name_imports == old(self).using_name_imports
                    &&& spelling::views(final(self).using_nss@) == joined_in(
                        spelling::views(old(self).using_nss@),
                        using_targets(old(self).spec_levels(), target),
                    )
                } else if text::contains(target, "::"@) {
                    &&& final(self).using_nss == old(self).using_nss
                    &&& pair_views(final(self).using_name_imports@) == joined_in(
                        pair_views(old(self).using_name_imports@),
                        using_imports(old(self).spec_levels(), target),
                    )
                } else {
                    final(self).using_nss == old(self).using_nss
                        && final(self).using_name_imports == old(self).using_name_imports
                },
            },
    {
        let found = find_using_target(tree, node);
        let target = match found {
            Some(c) => requalified(&chars_of(node_text(source, tree, c))),
            None => {
                return;
            },
        };
        let spelled = string_of(&target);
        if tree.child_of_kind(node, "namespace").is_some() {
            self.add_directives(spelled.as_str());
        } else if holds(&target, &chars_of("::")) {
            self.add_imports(spelled.as_str());
        }
    }
}

/// The segment of a nested namespace specifier without the `inline` keyword.
pub open spec fn namespace_segment(raw: Seq<char>) -> Seq<char> {
    let seg = text::trim(raw);
    let rest = seg.skip("inline"@.len() as int);
    if text::starts_with(seg, "inline"@) && rest.len() > 0 && text::is_space(rest[0]) {
        text::trim_start(rest)
    } else {
        seg
    }
}

/// The levels that the segments of a nested namespace specifier open.
pub open spec fn segment_levels(segs: Seq<Seq<char>>) -> Seq<Option<Seq<char>>>
    decreases segs.len(),
{
    if segs.len() == 0 {
        seq![]
    } else {
        let before = segment_levels(segs.drop_last());
        let last = namespace_segment(segs.last());
        if last.len() > 0 {
            before.push(Some(last))
        } else {
            before
        }
    }
}

/// The name child of a namespace definition, from position `k`.
pub open spec fn namespace_name(t: SyntaxTree, n: int, k: int) -> Option<usize>
    decreases t.children(n).len() - k,
{
    if k < 0 || k >= t.children(n).len() {
        None
    } else {
        let c = t.children(n)[k];
        if t.spec_kind(c as int) == "namespace_identifier"@ || t.spec_kind(c as int)
            == "nested_namespace_specifier"@ {
            Some(c)
        } else {
            namespace_name(t, n, k + 1)
        }
    }
}

/// The namespace levels that a namespace definition opens.
pub open spec fn opened_levels(t: SyntaxTree, source: Seq<char>, n: int) -> Seq<Option<Seq<char>>> {
    match namespace_name(t, n, 0) {
        Some(c) => {
            let name = normalize::qualified_text(t.text(source, c as int));
            if t.spec_kind(c as int) == "nested_namespace_specifier"@ {
                segment_levels(naming::segments(name))
            } else {
                seq![Some(name)]
            }
        },
        None => seq![None],
    }
}

pub open spec fn level_views(v: Seq<Option<String>>) -> Seq<Option<Seq<char>>> {
    v.map_values(|s: Option<String>| opt_view(s))
}

fn plain_segment(raw: &[char]) -> (r: Vec<char>)
    ensures
        r@ == namespace_segment(raw@),
{
    let seg = trimmed(raw);
    let word = chars_of("inline");
    if begins(&seg, &word) {
        let rest = part(&seg, word.len(), seg.len());
        assert(rest@ =~= seg@.skip(word@.len() as int));
        if rest.len() > 0 && space_char(rest[0]) {
            return trimmed_start(&rest);
        }
    }
    seg
}

/// The namespace levels a `namespace` definition opens, outermost first: the
/// one it names, an anonymous one, or every segment of `namespace A::B {`.
/// `namespace A::inline B {` keeps the keyword inside the segment; the scope
/// is named `B`.
pub fn namespace_levels(source: &str, tree: &SyntaxTree, node: usize) -> (r: Vec<Option<String>>)
    requires
        tree.fits(source@),
        node < tree.len(),
    ensures
        level_views(r@) == opened_levels(*tree, source@, node as int),
{
    let mut out: Vec<Option<String>> = Vec::new();
    let mut k: usize = 0;
    while k < tree.kids[node].len()
        invariant
            tree.fits(source@),
            node < tree.len(),
            out@.len() == 0,
            k <= tree.children(node as int).len(),
            namespace_name(*tree, node as int, 0) == namespace_name(*tree, node as int, k as int),
        decreases tree.children(node as int).len() - k,
    {
        let c = tree.kids[node][k];
        assert(c == tree.children(node as int)[k as int]);
        if tree.kind_is(c, "namespace_identifier") {
            let name = requalified(&chars_of(node_text(source, tree, c)));
            proof {
                reveal_strlit("namespace_identifier");
                reveal_strlit("nested_namespace_specifier");
                assert("namespace_identifier"@.len() != "nested_namespace_specifier"@.len());
            }
            out.push(Some(string_of(&name)));
            assert(level_views(out@) =~= seq![Some(name@)]);
            return out;
        }
        if tree.kind_is(c, "nested_namespace_specifier") {
            let segs = split_segments(&requalified(&chars_of(node_text(source, tree, c))));
            let ghost all = naming::piece_views(segs@);
            let mut i: usize = 0;
            proof {
                assert(all.take(0) =~= seq![]);
                assert(level_views(out@) =~= segment_levels(all.take(0)));
            }
            while i < segs.len()
                invariant
                    i <= segs@.len(),
                    all == naming::piece_views(segs@),
                    level_views(out@) == segment_levels(all.take(i as int)),
                decreases segs@.len() - i,
            {
                let ghost before = out@;
                proof {
                    assert(all.take(i + 1).drop_last() =~= all.take(i as int));
                    assert(all.take(i + 1).last() == segs@[i as int]@);
                }
                let seg = plain_segment(&segs[i]);
                if seg.len() > 0 {
                    out.push(Some(string_of(&seg)));
                    assert(level_views(out@) =~= level_views(before).push(Some(seg@)));
                }
                i += 1;
            }
            assert(all.take(i as int) =~= all);
            return out;
        }
        k += 1;
    }
    out.push(None);
    assert(level_views(out@) =~= seq![None]);
    out
}

impl NameScope {
    /// The scope inside a namespace: `levels` on top of the enclosing ones.
    /// The mark is where [`NameScope::close_namespace`] comes back to.
    pub fn open_namespace(&mut self, levels: Vec<Option<String>>) -> (mark: ScopeMark)
        ensures
            final(self).ns_stack@ == old(self).ns_stack@ + levels@,
            final(self).using_nss == old(self).using_nss,
            final(self).using_name_imports == old(self).using_name_imports,
            final(self).class_ctx == old(self).class_ctx,
            final(self).type_scope == old(self).type_scope,
            final(self).local_aliases == old(self).local_aliases,
            final(self).is_cpp == old(self).is_cpp,
            mark == (ScopeMark {
                namespaces: old(self).ns_stack@.len() as usize,
                directives: old(self).using_nss@.len() as usize,
                imports: old(self).using_name_imports@.len() as usize,
            }),
            mark.namespaces == old(self).ns_stack@.len(),
            mark.directives == old(self).using_nss@.len(),
            mark.imports == old(self).using_name_imports@.len(),
    {
        let mark = ScopeMark {
            namespaces: self.ns_stack.len(),
            directives: self.using_nss.len(),
            imports: self.using_name_imports.len(),
        };
        let mut levels = levels;
        self.ns_stack.append(&mut levels);
        mark
    }

    /// The scope behind a namespace: its levels, and the directives and
    /// imports written in it, end with it.
    pub fn close_namespace(&mut self, mark: ScopeMark)
        requires
            mark.namespaces <= old(self).ns_stack@.len(),
            mark.directives <= old(self).using_nss@.len(),
            mark.imports <= old(self).using_name_imports@.len(),
        ensures
            final(self).ns_stack@ == old(self).ns_stack@.take(mark.namespaces as int),
            final(self).using_nss@ == old(self).using_nss@.take(mark.directives as int),
            final(self).using_name_imports@ == old(self).using_name_imports@.take(
                mark.imports as int,
            ),
            final(self).class_ctx == old(self).class_ctx,
            final(self).type_scope == old(self).type_scope,
            final(self).local_aliases == old(self).local_aliases,
            final(self).is_cpp == old(self).is_cpp,
    {
        self.using_nss.truncate(mark.directives);
        self.using_name_imports.truncate(mark.imports);
        self.ns_stack.truncate(mark.namespaces);
    }

    /// Where a block that begins here comes back to.
    pub fn block_mark(&self) -> (m: BlockMark)
        ensures
            m.directives == self.using_nss@.len(),
            m.imports == self.using_name_imports@.len(),
            m.aliases == self.local_aliases@.len(),
    {
        BlockMark {
            directives: self.using_nss.len(),
            imports: self.using_name_imports.len(),
            aliases: self.local_aliases.len(),
        }
    }

    /// The scope behind a block: the directives, the imports and the aliases
    /// written in it end with it.
    pub fn leave_block(&mut self, mark: BlockMark)
        requires
            mark.directives <= old(self).using_nss@.len(),
            mark.imports <= old(self).using_name_imports@.len(),
            mark.aliases <= old(self).local_aliases@.len(),
        ensures
            final(self).using_nss@ == old(self).using_nss@.take(mark.directives as int),
            final(self).using_name_imports@ == old(self).using_name_imports@.take(
                mark.imports as int,
            ),
            final(self).local_aliases@ == old(self).local_aliases@.take(mark.aliases as int),
            final(self).ns_stack == old(self).ns_stack,
            final(self).class_ctx == old(self).class_ctx,
            final(self).type_scope == old(self).type_scope,
            final(self).is_cpp == old(self).is_cpp,
    {
        self.using_nss.truncate(mark.directives);
        self.using_name_imports.truncate(mark.imports);
        self.local_aliases.truncate(mark.aliases);
    }

    /// The scope goes on from `outer` by what a block writes.
    pub open spec fn continues(&self, outer: &NameScope) -> bool {
        &&& outer.using_nss@.is_prefix_of(self.using_nss@)
        &&& outer.using_name_imports@.is_prefix_of(self.using_name_imports@)
        &&& outer.local_aliases@.is_prefix_of(self.local_aliases@)
    }

    /// `inner` is reached from `outer` by opening namespaces and taking in
    /// `using` declarations.
    pub open spec fn extends(&self, outer: &NameScope) -> bool {
        &&& outer.ns_stack@.is_prefix_of(self.ns_stack@)
        &&& outer.using_nss@.is_prefix_of(self.using_nss@)
        &&& outer.using_name_imports@.is_prefix_of(self.using_name_imports@)
    }
}

/// Nothing written inside a namespace reaches past its end: whatever the scope
/// was extended by between opening a namespace and closing it, the levels, the
/// directives and the imports are those of before.
pub proof fn law_namespaces_end_where_they_close(
    outer: NameScope,
    inner: NameScope,
    mark: ScopeMark,
    after: NameScope,
)
    requires
        mark.namespaces == outer.ns_stack@.len(),
        mark.directives == outer.using_nss@.len(),
        mark.imports == outer.using_name_imports@.len(),
        inner.extends(&outer),
        after.ns_stack@ == inner.ns_stack@.take(mark.namespaces as int),
        after.using_nss@ == inner.using_nss@.take(mark.directives as int),
        after.using_name_imports@ == inner.using_name_imports@.take(mark.imports as int),
    ensures
        after.ns_stack@ == outer.ns_stack@,
        after.using_nss@ == outer.using_nss@,
        after.using_name_imports@ == outer.using_name_imports@,
{
    assert(after.ns_stack@ =~= outer.ns_stack@);
    assert(after.using_nss@ =~= outer.using_nss@);
    assert(after.using_name_imports@ =~= outer.using_name_imports@);
}

/// Nothing written inside a block reaches past its end: whatever the scope went
/// on by between [`NameScope::block_mark`] and [`NameScope::leave_block`], the
/// directives, the imports and the aliases are those of before.
pub proof fn law_blocks_end_where_they_close(
    outer: NameScope,
    mark: BlockMark,
    inner: NameScope,
    after: NameScope,
)
    requires
        mark.directives == outer.using_nss@.len(),
        mark.imports == outer.using_name_imports@.len(),
        mark.aliases == outer.local_aliases@.len(),
        inner.continues(&outer),
        after.using_nss@ == inner.using_nss@.take(mark.directives as int),
        after.using_name_imports@ == inner.using_name_imports@.take(mark.imports as int),
        after.local_aliases@ == inner.local_aliases@.take(mark.aliases as int),
    ensures
        after.using_nss@ == outer.using_nss@,
        after.using_name_imports@ == outer.using_name_imports@,
        after.local_aliases@ == outer.local_aliases@,
{
    assert(after.using_nss@ =~= outer.using_nss@);
    assert(after.using_name_imports@ =~= outer.using_name_imports@);
    assert(after.local_aliases@ =~= outer.local_aliases@);
}

/// The names an alias is registered under.
pub open spec fn alias_names_of(
    levels: Seq<Seq<char>>,
    type_scope: Seq<Seq<char>>,
    is_cpp: bool,
    in_class_body: bool,
    alias: Seq<char>,
) -> Seq<Seq<char>> {
    if is_cpp && in_class_body {
        if type_scope.len() > 0 {
            seq![type_scope.last() + "::"@ + alias]
        } else {
            seq![]
        }
    } else if is_cpp && levels.len() > 0 {
        seq![within(levels, alias), alias]
    } else {
        seq![alias]
    }
}

impl NameScope {
    /// The names a typedef or `using` alias is registered under. A member of a
    /// class is reachable only as `Cls::Alias`; an alias of a namespace by its
    /// qualified name and its bare one.
    pub fn alias_names(&self, in_class_body: bool, alias: &str) -> (r: Vec<String>)
        ensures
            spelling::views(r@) == alias_names_of(
                self.spec_levels(),
                spelling::views(self.type_scope@),
                self.is_cpp,
                in_class_body,
                alias@,
            ),
    {
        let mut out: Vec<String> = Vec::new();
        if self.is_cpp && in_class_body {
            let depth = self.type_scope.len();
            if depth > 0 {
                let mut name = chars_of(self.type_scope[depth - 1].as_str());
                append(&mut name, &chars_of("::"));
                append(&mut name, &chars_of(alias));
                out.push(string_of(&name));
                assert(spelling::views(out@) =~= seq![name@]);
                assert(spelling::views(self.type_scope@).last() == self.type_scope@[depth - 1]@);
            } else {
                assert(spelling::views(out@) =~= seq![]);
            }
            return out;
        }
        let levels = self.levels();
        assert(levels@.len() == naming::piece_views(levels@).len());
        if self.is_cpp && levels.len() > 0 {
            out.push(self.qualify(alias));
        }
        let ghost before = spelling::views(out@);
        out.push(string_of(&chars_of(alias)));
        proof {
            assert(spelling::views(out@) =~= before.push(alias@));
            if self.is_cpp && levels@.len() > 0 {
                assert(spelling::views(out@) =~= seq![within(self.spec_levels(), alias@), alias@]);
            } else {
                assert(spelling::views(out@) =~= seq![alias@]);
            }
        }
        out
    }
}

proof fn lemma_joined_longer(levels: Seq<Seq<char>>, outer: Seq<char>, name: Seq<char>)
    ensures
        joined(levels.push(outer + "::"@ + name)) == joined(levels.push(outer)) + "::"@ + name,
{
    let long = levels.push(outer + "::"@ + name);
    let short = levels.push(outer);
    assert(long.drop_last() =~= levels);
    assert(short.drop_last() =~= levels);
    if levels.len() > 0 {
        assert(joined(levels) + "::"@ + (outer + "::"@ + name) =~= joined(levels) + "::"@ + outer
            + "::"@ + name);
    }
}

/// A member declared in its class and its definition outside of the class,
/// spelled `Cls::member` in the same namespaces, register under one name.
pub proof fn law_members_are_declared_under_one_name(
    levels: Seq<Seq<char>>,
    cls: Seq<char>,
    inside: Seq<char>,
    outside: Seq<char>,
)
    requires
        !text::starts_with(naming::declared_text(inside), "::"@),
        !text::contains(naming::scope_of(naming::declared_text(inside)), "::"@),
        naming::declared_text(outside) == cls + "::"@ + naming::declared_text(inside),
        !text::starts_with(naming::declared_text(outside), "::"@),
        text::contains(naming::scope_of(naming::declared_text(outside)), "::"@),
        !levels.contains(naming::segments(naming::declared_text(outside))[0]),
    ensures
        qualified_decl(levels, Some(within(levels, cls)), true, inside) == qualified_decl(
            levels,
            None,
            true,
            outside,
        ),
{
    lemma_joined_longer(levels, cls, naming::declared_text(inside));
}

} // verus!
