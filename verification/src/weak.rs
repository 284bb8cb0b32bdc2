//! Weak linkage: which declarations are annotated weak, which names a
//! `#pragma weak` line weakens, and how both mark the symbols of a unit.

use crate::ir::{Linkage, StorageClass};
use crate::naming;
use crate::parse::node_text;
use crate::spelling;
use crate::spelling::{position, split_words};
use crate::syntax::SyntaxTree;
use crate::text;
use crate::text::{chars_of, holds, part, same, str_eq, trimmed_start};
use vstd::prelude::*;

verus! {

/// The text can hold a weak annotation at all: the word, and an attribute or
/// a directive for it to stand in.
pub open spec fn may_annotate_weak(source: Seq<char>) -> bool {
    text::contains(source, "weak"@) && (text::contains(source, "__attribute__"@) || text::contains(
        source,
        "[["@,
    ) || text::contains(source, "pragma"@))
}

/// Whether a unit can carry a weak annotation at all.
pub fn source_may_annotate_weak(source: &str) -> (r: bool)
    ensures
        r == may_annotate_weak(source@),
{
    let s = chars_of(source);
    holds(&s, &chars_of("weak")) && (holds(&s, &chars_of("__attribute__")) || holds(
        &s,
        &chars_of("[["),
    ) || holds(&s, &chars_of("pragma")))
}

/// An argument of an attribute spells `weak`.
pub open spec fn weak_argument(t: SyntaxTree, source: Seq<char>, arg: int) -> bool {
    &&& t.rows@[arg].is_named
    &&& t.spec_kind(arg) == "identifier"@
    &&& t.text(source, arg) == "weak"@ || t.text(source, arg) == "__weak__"@
}

/// One of the children of `n` is a weak argument.
pub open spec fn weak_arguments(t: SyntaxTree, source: Seq<char>, n: int) -> bool {
    exists|k: int|
        0 <= k < t.children(n).len() && weak_argument(
            t,
            source,
            #[trigger] t.children(n)[k] as int,
        )
}

/// The attribute `n` has a weak argument.
pub open spec fn weak_attribute(t: SyntaxTree, source: Seq<char>, n: int) -> bool {
    exists|k: int|
        0 <= k < t.children(n).len() && t.rows@[#[trigger] t.children(n)[k] as int].is_named
            && weak_arguments(t, source, t.children(n)[k] as int)
}

/// What a declaration's own annotations never stand in.
pub open spec fn opaque_to_weak(kind: Seq<char>) -> bool {
    kind == "compound_statement"@ || kind == "parameter_list"@ || kind == "initializer_list"@
        || kind == "struct_specifier"@ || kind == "class_specifier"@
}

/// `n` holds a weak attribute, outside bodies, parameters, classes and
/// initializers.
pub open spec fn weak_under(t: SyntaxTree, source: Seq<char>, n: int) -> bool
    decreases t.len() - n,
    when t.wf() && 0 <= n < t.len()
{
    if opaque_to_weak(t.spec_kind(n)) {
        false
    } else if t.spec_kind(n) == "attribute_specifier"@ || t.spec_kind(n)
        == "attribute_declaration"@ {
        weak_attribute(t, source, n)
    } else {
        exists|k: int|
            0 <= k < t.children(n).len() && t.rows@[#[trigger] t.children(n)[k] as int].is_named
                && t.fielded(n, "value"@) != Some(t.children(n)[k]) && weak_under(
                t,
                source,
                t.children(n)[k] as int,
            )
    }
}

fn has_weak_argument(source: &str, tree: &SyntaxTree, n: usize) -> (r: bool)
    requires
        tree.fits(source@),
        n < tree.len(),
    ensures
        r == weak_arguments(*tree, source@, n as int),
{
    let mut k: usize = 0;
    while k < tree.kids[n].len()
        invariant
            tree.fits(source@),
            n < tree.len(),
            k <= tree.children(n as int).len(),
            forall|j: int|
                0 <= j < k ==> !weak_argument(
                    *tree,
                    source@,
                    #[trigger] tree.children(n as int)[j] as int,
                ),
        decreases tree.children(n as int).len() - k,
    {
        let arg = tree.kids[n][k];
        assert(arg == tree.children(n as int)[k as int]);
        if tree.rows[arg].is_named && tree.kind_is(arg, "identifier") {
            let word = node_text(source, tree, arg);
            if str_eq(word, "weak") || str_eq(word, "__weak__") {
                return true;
            }
        }
        k += 1;
    }
    false
}

fn is_weak_attribute(source: &str, tree: &SyntaxTree, n: usize) -> (r: bool)
    requires
        tree.fits(source@),
        n < tree.len(),
    ensures
        r == weak_attribute(*tree, source@, n as int),
{
    let mut k: usize = 0;
    while k < tree.kids[n].len()
        invariant
            tree.fits(source@),
            n < tree.len(),
            k <= tree.children(n as int).len(),
            forall|j: int|
                0 <= j < k ==> !(tree.rows@[#[trigger] tree.children(n as int)[j] as int].is_named
                    && weak_arguments(*tree, source@, tree.children(n as int)[j] as int)),
        decreases tree.children(n as int).len() - k,
    {
        let args = tree.kids[n][k];
        assert(args == tree.children(n as int)[k as int]);
        if tree.rows[args].is_named && has_weak_argument(source, tree, args) {
            return true;
        }
        k += 1;
    }
    false
}

/// Whether a part of a declaration holds a weak attribute.
fn holds_weak(source: &str, tree: &SyntaxTree, n: usize) -> (r: bool)
    requires
        tree.fits(source@),
        n < tree.len(),
    ensures
        r == weak_under(*tree, source@, n as int),
    decreases tree.len() - n,
{
    if tree.kind_is(n, "compound_statement") || tree.kind_is(n, "parameter_list") || tree.kind_is(
        n,
        "initializer_list",
    ) || tree.kind_is(n, "struct_specifier") || tree.kind_is(n, "class_specifier") {
        return false;
    }
    if tree.kind_is(n, "attribute_specifier") || tree.kind_is(n, "attribute_declaration") {
        return is_weak_attribute(source, tree, n);
    }
    let value = tree.child_by_field_name(n, "value");
    let mut k: usize = 0;
    while k < tree.kids[n].len()
        invariant
            tree.fits(source@),
            n < tree.len(),
            value == tree.fielded(n as int, "value"@),
            !opaque_to_weak(tree.spec_kind(n as int)),
            tree.spec_kind(n as int) != "attribute_specifier"@,
            tree.spec_kind(n as int) != "attribute_declaration"@,
            k <= tree.children(n as int).len(),
            forall|j: int|
                0 <= j < k ==> !(tree.rows@[#[trigger] tree.children(n as int)[j] as int].is_named
                    && value != Some(tree.children(n as int)[j]) && weak_under(
                    *tree,
                    source@,
                    tree.children(n as int)[j] as int,
                )),
        decreases tree.children(n as int).len() - k,
    {
        let c = tree.kids[n][k];
        assert(c == tree.children(n as int)[k as int]);
        let is_value = match value {
            Some(v) => v == c,
            None => false,
        };
        if tree.rows[c].is_named && !is_value && holds_weak(source, tree, c) {
            assert(weak_under(*tree, source@, tree.children(n as int)[k as int] as int));
            return true;
        }
        k += 1;
    }
    false
}

/// How many of the first `k` children of `decl` are declarators.
pub open spec fn declarator_count(t: SyntaxTree, decl: int, k: int) -> nat
    decreases k,
{
    if k <= 0 || k > t.children(decl).len() {
        0
    } else if t.fills(t.children(decl)[k - 1] as int, "declarator"@) {
        declarator_count(t, decl, k - 1) + 1
    } else {
        declarator_count(t, decl, k - 1)
    }
}

/// The last of the first `k` children of `decl` that is a declarator `n`
/// stands in.
pub open spec fn covering_declarator(t: SyntaxTree, decl: int, n: int, k: int) -> Option<usize>
    decreases k,
{
    if k <= 0 || k > t.children(decl).len() {
        None
    } else {
        let d = t.children(decl)[k - 1];
        if t.fills(d as int, "declarator"@) && t.rows@[d as int].start <= t.rows@[n].start
            && t.rows@[n].end <= t.rows@[d as int].end {
            Some(d)
        } else {
            covering_declarator(t, decl, n, k - 1)
        }
    }
}

/// The declarator that `n` stands in, where `decl` has more than one.
pub open spec fn own_declarator_of(t: SyntaxTree, decl: int, n: int) -> Option<usize> {
    let count = t.children(decl).len() as int;
    if declarator_count(t, decl, count) > 1 {
        covering_declarator(t, decl, n, count)
    } else {
        None
    }
}

/// The declarator this reference sits in, when the declaration introduces more
/// than one (`int a, b;`). `None` for the single-declarator case, where no
/// sibling exists to confuse.
pub fn own_declarator(tree: &SyntaxTree, decl: usize, node: usize) -> (r: Option<usize>)
    requires
        tree.wf(),
        decl < tree.len(),
        node < tree.len(),
    ensures
        r == own_declarator_of(*tree, decl as int, node as int),
{
    let mut count: usize = 0;
    let mut own: Option<usize> = None;
    let mut k: usize = 0;
    while k < tree.kids[decl].len()
        invariant
            tree.wf(),
            decl < tree.len(),
            node < tree.len(),
            k <= tree.children(decl as int).len(),
            count <= k,
            count == declarator_count(*tree, decl as int, k as int),
            own == covering_declarator(*tree, decl as int, node as int, k as int),
        decreases tree.children(decl as int).len() - k,
    {
        let d = tree.kids[decl][k];
        assert(d == tree.children(decl as int)[k as int]);
        if tree.field_is(d, "declarator") {
            count += 1;
            if tree.rows[d].start <= tree.rows[node].start && tree.rows[node].end
                <= tree.rows[d].end {
                own = Some(d);
            }
        }
        k += 1;
    }
    if count > 1 {
        own
    } else {
        None
    }
}

/// A part of `decl` that applies to the declarator `own`: no sibling of it
/// and no initializer.
pub open spec fn applies_to(t: SyntaxTree, decl: int, own: Option<usize>, c: usize) -> bool {
    &&& t.rows@[c as int].is_named
    &&& !(t.fills(c as int, "declarator"@) && own is Some && own != Some(c))
    &&& t.fielded(decl, "value"@) != Some(c)
}

/// A trailing attribute that error recovery parked behind `decl`.
pub open spec fn parked_weak(t: SyntaxTree, source: Seq<char>, decl: int) -> bool {
    match (t.last_child(decl), t.next_named(decl)) {
        (Some(last), Some(next)) => t.rows@[last as int].is_missing && t.rows@[next as int].is_error
            && weak_under(t, source, next as int),
        _ => false,
    }
}

/// The declaration that `n` stands in is annotated weak for it.
pub open spec fn weakly_declared(t: SyntaxTree, source: Seq<char>, n: int) -> bool {
    match t.declaration_of(n, true) {
        Some(decl) => {
            let own = own_declarator_of(t, decl as int, n);
            ||| exists|k: int|
                0 <= k < t.children(decl as int).len() && applies_to(
                    t,
                    decl as int,
                    own,
                    #[trigger] t.children(decl as int)[k],
                ) && weak_under(t, source, t.children(decl as int)[k] as int)
            ||| own is None && parked_weak(t, source, decl as int)
        },
        None => false,
    }
}

/// Inspect declaration syntax only: never walk a function body or initializer.
///
/// An attribute among the declaration specifiers applies to every declarator,
/// but one written inside a declarator applies only to it: in
/// `void a(void) __attribute__((weak)), b(void);` the compiler weakens `a`
/// alone.
pub fn declaration_is_weak(source: &str, tree: &SyntaxTree, node: usize) -> (r: bool)
    requires
        tree.fits(source@),
        node < tree.len(),
    ensures
        r == weakly_declared(*tree, source@, node as int),
{
    let decl = match tree.enclosing_decl(node, true) {
        Some(d) => d,
        None => {
            return false;
        },
    };
    let own = own_declarator(tree, decl, node);
    let value = tree.child_by_field_name(decl, "value");
    let mut k: usize = 0;
    while k < tree.kids[decl].len()
        invariant
            tree.fits(source@),
            decl < tree.len(),
            value == tree.fielded(decl as int, "value"@),
            k <= tree.children(decl as int).len(),
            Some(decl) == tree.declaration_of(node as int, true),
            own == own_declarator_of(*tree, decl as int, node as int),
            forall|j: int|
                0 <= j < k ==> !(applies_to(
                    *tree,
                    decl as int,
                    own,
                    #[trigger] tree.children(decl as int)[j],
                ) && weak_under(*tree, source@, tree.children(decl as int)[j] as int)),
        decreases tree.children(decl as int).len() - k,
    {
        let c = tree.kids[decl][k];
        assert(c == tree.children(decl as int)[k as int]);
        let is_value = match value {
            Some(v) => v == c,
            None => false,
        };
        let is_sibling = match own {
            Some(o) => o != c && tree.field_is(c, "declarator"),
            None => false,
        };
        if tree.rows[c].is_named && !is_sibling && !is_value && holds_weak(source, tree, c) {
            assert(applies_to(*tree, decl as int, own, tree.children(decl as int)[k as int]));
            return true;
        }
        k += 1;
    }
    if own.is_some() {
        return false;
    }
    match (tree.last_child_of(decl), tree.next_named_sibling(decl)) {
        (Some(last), Some(next)) => tree.rows[last].is_missing && tree.rows[next].is_error
            && holds_weak(source, tree, next),
        _ => false,
    }
}

/// Weak linkage is a property of an external symbol: a local, a parameter and
/// a file-`static` have no linkage to weaken.
pub fn weak_global(
    has_weak: bool,
    storage: StorageClass,
    source: &str,
    tree: &SyntaxTree,
    node: usize,
) -> (r: bool)
    requires
        tree.fits(source@),
        node < tree.len(),
    ensures
        r == (storage == StorageClass::Global && has_weak && weakly_declared(
            *tree,
            source@,
            node as int,
        )),
{
    storage == StorageClass::Global && has_weak && declaration_is_weak(source, tree, node)
}

/// The text cut at each line end.
pub open spec fn lines_of(s: Seq<char>) -> Seq<Seq<char>>
    decreases s.len(),
{
    match s.index_of_first('\n') {
        Some(at) => if 0 <= at < s.len() {
            seq![s.take(at)] + lines_of(s.skip(at + 1))
        } else {
            seq![s]
        },
        None => seq![s],
    }
}

/// What stands before the first `=`.
pub open spec fn before_equals(word: Seq<char>) -> Seq<char> {
    match word.index_of_first('=') {
        Some(at) => word.take(at),
        None => word,
    }
}

/// The name that a `#pragma weak` line weakens.
pub open spec fn weak_pragma(line: Seq<char>) -> Option<Seq<char>> {
    let bare = text::trim_start(line);
    if bare.len() > 0 && bare[0] == '#' {
        let words = spelling::words(bare.skip(1));
        if words.len() >= 3 && words[0] == "pragma"@ && words[1] == "weak"@ {
            Some(before_equals(words[2]))
        } else {
            None
        }
    } else {
        None
    }
}

/// The names that the `#pragma weak` lines among `lines` weaken, in order.
pub open spec fn weak_pragmas(lines: Seq<Seq<char>>) -> Seq<Seq<char>>
    decreases lines.len(),
{
    if lines.len() == 0 {
        seq![]
    } else {
        let before = weak_pragmas(lines.drop_last());
        match weak_pragma(lines.last()) {
            Some(name) => before.push(name),
            None => before,
        }
    }
}

fn pragma_name(line: &[char]) -> (r: Option<Vec<char>>)
    ensures
        match r {
            Some(name) => weak_pragma(line@) == Some(name@),
            None => weak_pragma(line@) is None,
        },
{
    let bare = trimmed_start(line);
    if bare.len() == 0 || bare[0] != '#' {
        return None;
    }
    let rest = part(&bare, 1, bare.len());
    assert(rest@ =~= bare@.skip(1));
    let words = split_words(&rest);
    if words.len() >= 3 && same(&words[0], &chars_of("pragma")) && same(
        &words[1],
        &chars_of("weak"),
    ) {
        let word = &words[2];
        assert(word@ == spelling::words(rest@)[2]);
        match position(word, '=') {
            Some(at) => {
                let name = part(word, 0, at);
                assert(name@ =~= word@.take(at as int));
                Some(name)
            },
            None => {
                let name = part(word, 0, word.len());
                assert(name@ =~= word@);
                Some(name)
            },
        }
    } else {
        None
    }
}

/// The names a unit's pragmas weaken.
pub open spec fn weak_names_of(source: Seq<char>, has_weak: bool) -> Seq<Seq<char>> {
    if has_weak && text::contains(source, "pragma"@) {
        weak_pragmas(lines_of(source))
    } else {
        seq![]
    }
}

/// The names that a unit's `#pragma weak` lines weaken, wherever they stand in
/// it. Only a unit that may hold weak annotations and spells a directive is
/// read.
pub fn weak_names(source: &str, has_weak: bool) -> (names: Vec<Vec<char>>)
    ensures
        naming::piece_views(names@) == weak_names_of(source@, has_weak),
{
    let s = chars_of(source);
    let mut names: Vec<Vec<char>> = Vec::new();
    if !has_weak || !holds(&s, &chars_of("pragma")) {
        assert(naming::piece_views(names@) =~= seq![]);
        return names;
    }
    let mut from: usize = 0;
    let ghost mut done: Seq<Seq<char>> = seq![];
    assert(s@.skip(0) =~= s@);
    assert(done + lines_of(s@) =~= lines_of(s@));
    assert(naming::piece_views(names@) =~= weak_pragmas(done));
    loop
        invariant
            s@ == source@,
            from <= s@.len(),
            done + lines_of(s@.skip(from as int)) == lines_of(s@),
            naming::piece_views(names@) == weak_pragmas(done),
            has_weak,
            text::contains(source@, "pragma"@),
        decreases s@.len() - from,
    {
        let rest = part(&s, from, s.len());
        assert(rest@ =~= s@.skip(from as int));
        let found = position(&rest, '\n');
        let to: usize = match found {
            Some(at) => at,
            None => rest.len(),
        };
        let line = part(&rest, 0, to);
        assert(line@ =~= rest@.take(to as int));
        let ghost before = done;
        let ghost old_names = names@;
        proof {
            done = done.push(line@);
            assert(done.drop_last() =~= before);
        }
        match pragma_name(&line) {
            Some(name) => {
                names.push(name);
                assert(naming::piece_views(names@) =~= naming::piece_views(old_names).push(name@));
            },
            None => {},
        }
        match found {
            Some(at) => {
                assert(rest@.skip(at + 1) =~= s@.skip(from + at + 1));
                assert(before + lines_of(rest@) =~= done + lines_of(rest@.skip(at + 1)));
                from = from + at + 1;
            },
            None => {
                assert(line@ =~= rest@);
                assert(before + lines_of(rest@) =~= done);
                return names;
            },
        }
    }
}

/// What the weak marking reads of a function.
#[derive(Debug, PartialEq, Eq)]
pub struct FnSymbol {
    pub name: String,
    pub linkage: Linkage,
    pub is_weak: bool,
}

/// What the weak marking reads of a variable.
#[derive(Debug, PartialEq, Eq)]
pub struct VarSymbol {
    pub name: String,
    pub storage: StorageClass,
    pub is_namespaced: bool,
    pub is_weak: bool,
}

impl FnSymbol {
    /// The function after the pragmas that weaken `names`.
    pub open spec fn weakened(&self, names: Seq<Seq<char>>) -> bool {
        self.is_weak || self.linkage == Linkage::External && names.contains(self.name@)
    }
}

impl VarSymbol {
    /// The name is the one that a linker resolves.
    pub open spec fn is_linked(&self) -> bool {
        self.storage == StorageClass::Global && !self.is_namespaced
    }

    pub open spec fn weakened(&self, names: Seq<Seq<char>>) -> bool {
        self.is_weak || self.is_linked() && names.contains(self.name@)
    }

    /// The same variable, its mark aside.
    pub open spec fn same_but_mark(&self, other: VarSymbol) -> bool {
        &&& self.name@ == other.name@
        &&& self.storage == other.storage
        &&& self.is_namespaced == other.is_namespaced
    }
}

/// One of `names` is `name`.
fn is_listed(names: &Vec<Vec<char>>, name: &str) -> (r: bool)
    ensures
        r == naming::piece_views(names@).contains(name@),
{
    let wanted = chars_of(name);
    let mut k: usize = 0;
    while k < names.len()
        invariant
            k <= names@.len(),
            wanted@ == name@,
            forall|j: int| 0 <= j < k ==> #[trigger] naming::piece_views(names@)[j] != name@,
        decreases names@.len() - k,
    {
        assert(naming::piece_views(names@)[k as int] == names@[k as int]@);
        if same(&names[k], &wanted) {
            return true;
        }
        k += 1;
    }
    false
}

/// Mark the external functions and linked globals that the pragmas name. A
/// `static` function, a local or a namespaced global of the same name has no
/// linkage of that name to weaken.
pub fn mark_named(fns: &mut Vec<FnSymbol>, vars: &mut Vec<VarSymbol>, names: &Vec<Vec<char>>)
    ensures
        final(fns)@.len() == old(fns)@.len(),
        final(vars)@.len() == old(vars)@.len(),
        forall|i: int|
            #![trigger final(fns)@[i]]
            0 <= i < old(fns)@.len() ==> {
                &&& final(fns)@[i].name@ == old(fns)@[i].name@
                &&& final(fns)@[i].linkage == old(fns)@[i].linkage
                &&& final(fns)@[i].is_weak == old(fns)@[i].weakened(naming::piece_views(names@))
            },
        forall|i: int|
            #![trigger final(vars)@[i]]
            0 <= i < old(vars)@.len() ==> {
                &&& final(vars)@[i].same_but_mark(old(vars)@[i])
                &&& final(vars)@[i].is_weak == old(vars)@[i].weakened(naming::piece_views(names@))
            },
{
    let mut i: usize = 0;
    while i < fns.len()
        invariant
            i <= fns@.len(),
            fns@.len() == old(fns)@.len(),
            forall|k: int|
                #![trigger fns@[k]]
                0 <= k < fns@.len() ==> {
                    &&& fns@[k].name@ == old(fns)@[k].name@
                    &&& fns@[k].linkage == old(fns)@[k].linkage
                    &&& fns@[k].is_weak == if k < i {
                        old(fns)@[k].weakened(naming::piece_views(names@))
                    } else {
                        old(fns)@[k].is_weak
                    }
                },
        decreases fns@.len() - i,
    {
        if !fns[i].is_weak && fns[i].linkage == Linkage::External && is_listed(
            names,
            fns[i].name.as_str(),
        ) {
            fns[i].is_weak = true;
        }
        i += 1;
    }
    let mut j: usize = 0;
    while j < vars.len()
        invariant
            j <= vars@.len(),
            vars@.len() == old(vars)@.len(),
            forall|k: int|
                #![trigger vars@[k]]
                0 <= k < vars@.len() ==> {
                    &&& vars@[k].same_but_mark(old(vars)@[k])
                    &&& vars@[k].is_weak == if k < j {
                        old(vars)@[k].weakened(naming::piece_views(names@))
                    } else {
                        old(vars)@[k].is_weak
                    }
                },
        decreases vars@.len() - j,
    {
        if !vars[j].is_weak && vars[j].storage == StorageClass::Global && !vars[j].is_namespaced
            && is_listed(names, vars[j].name.as_str()) {
            vars[j].is_weak = true;
        }
        j += 1;
    }
}

/// One of the linked globals called `name` is weak.
pub open spec fn weak_somewhere(vars: Seq<VarSymbol>, name: Seq<char>) -> bool {
    exists|k: int|
        0 <= k < vars.len() && (#[trigger] vars[k]).is_linked() && vars[k].is_weak
            && vars[k].name@ == name
}

fn is_weak_somewhere(vars: &Vec<VarSymbol>, name: &str) -> (r: bool)
    ensures
        r == weak_somewhere(vars@, name@),
{
    let mut k: usize = 0;
    while k < vars.len()
        invariant
            k <= vars@.len(),
            forall|j: int|
                0 <= j < k ==> !((#[trigger] vars@[j]).is_linked() && vars@[j].is_weak
                    && vars@[j].name@ == name@),
        decreases vars@.len() - k,
    {
        if vars[k].storage == StorageClass::Global && !vars[k].is_namespaced && vars[k].is_weak
            && str_eq(vars[k].name.as_str(), name) {
            return true;
        }
        k += 1;
    }
    false
}

/// Weak binding is a property of the external symbol, not of one spelling of
/// its declaration: every linked global that shares a name with a weak one
/// becomes weak. A namespaced global takes no part: `a::cb` must not weaken
/// `b::cb`.
pub fn spread_weak(vars: &mut Vec<VarSymbol>)
    ensures
        final(vars)@.len() == old(vars)@.len(),
        forall|i: int|
            #![trigger final(vars)@[i]]
            0 <= i < old(vars)@.len() ==> {
                &&& final(vars)@[i].same_but_mark(old(vars)@[i])
                &&& final(vars)@[i].is_weak == (old(vars)@[i].is_weak || old(vars)@[i].is_linked()
                    && weak_somewhere(old(vars)@, old(vars)@[i].name@))
            },
{
    let mut i: usize = 0;
    while i < vars.len()
        invariant
            i <= vars@.len(),
            vars@.len() == old(vars)@.len(),
            forall|k: int|
                #![trigger vars@[k]]
                0 <= k < vars@.len() ==> {
                    &&& vars@[k].same_but_mark(old(vars)@[k])
                    &&& vars@[k].is_weak == (old(vars)@[k].is_weak || k < i
                        && old(vars)@[k].is_linked() && weak_somewhere(
                        old(vars)@,
                        old(vars)@[k].name@,
                    ))
                },
        decreases vars@.len() - i,
    {
        let linked = vars[i].storage == StorageClass::Global && !vars[i].is_namespaced;
        if linked && !vars[i].is_weak {
            let found = is_weak_somewhere(vars, vars[i].name.as_str());
            proof {
                let name = old(vars)@[i as int].name@;
                assert(vars@[i as int].name@ == name);
                if weak_somewhere(vars@, name) {
                    let k = choose|k: int|
                        0 <= k < vars@.len() && (#[trigger] vars@[k]).is_linked()
                            && vars@[k].is_weak && vars@[k].name@ == name;
                    assert(old(vars)@[k].is_linked() && old(vars)@[k].name@ == name);
                    assert(weak_somewhere(old(vars)@, name));
                }
                if weak_somewhere(old(vars)@, name) {
                    let k = choose|k: int|
                        0 <= k < old(vars)@.len() && (#[trigger] old(vars)@[k]).is_linked()
                            && old(vars)@[k].is_weak && old(vars)@[k].name@ == name;
                    assert(vars@[k].is_linked() && vars@[k].is_weak && vars@[k].name@ == name);
                }
            }
            if found {
                vars[i].is_weak = true;
            }
        }
        i += 1;
    }
}

/// All linked globals of one name are marked alike.
pub open spec fn marked_alike(vars: Seq<VarSymbol>) -> bool {
    forall|i: int, j: int|
        0 <= i < vars.len() && 0 <= j < vars.len() && (#[trigger] vars[i]).is_linked()
            && (#[trigger] vars[j]).is_linked() && vars[i].name@ == vars[j].name@
            ==> vars[i].is_weak == vars[j].is_weak
}

/// Spreading leaves no linked global strong that shares its name with a weak
/// one, and marks nothing more when it is done again.
pub proof fn law_weak_symbols_are_weak_everywhere(
    before: Seq<VarSymbol>,
    after: Seq<VarSymbol>,
)
    requires
        after.len() == before.len(),
        forall|i: int|
            #![trigger after[i]]
            0 <= i < before.len() ==> {
                &&& after[i].same_but_mark(before[i])
                &&& after[i].is_weak == (before[i].is_weak || before[i].is_linked()
                    && weak_somewhere(before, before[i].name@))
            },
    ensures
        marked_alike(after),
        forall|i: int|
            0 <= i < after.len() && #[trigger] after[i].is_linked() && weak_somewhere(
                after,
                after[i].name@,
            ) ==> after[i].is_weak,
{
    assert forall|i: int|
        0 <= i < after.len() && #[trigger] after[i].is_linked() implies (after[i].is_weak
        == weak_somewhere(before, after[i].name@)) by {
        if after[i].is_weak && before[i].is_weak {
            assert(before[i].is_linked() && before[i].name@ == after[i].name@);
        }
    }
    assert forall|i: int|
        0 <= i < after.len() && #[trigger] after[i].is_linked() && weak_somewhere(
            after,
            after[i].name@,
        ) implies after[i].is_weak by {
        let k = choose|k: int|
            0 <= k < after.len() && (#[trigger] after[k]).is_linked() && after[k].is_weak
                && after[k].name@ == after[i].name@;
        assert(after[k].is_weak == weak_somewhere(before, after[k].name@));
    }
}

/// Some linked global called `name` is weak, by its declaration or by a
/// pragma.
pub open spec fn weakened_somewhere(
    vars: Seq<VarSymbol>,
    names: Seq<Seq<char>>,
    name: Seq<char>,
) -> bool {
    exists|k: int|
        0 <= k < vars.len() && (#[trigger] vars[k]).is_linked() && vars[k].weakened(names)
            && vars[k].name@ == name
}

/// Settle the weak marks of a lowered unit: the pragmas of its text apply to
/// the entire unit, and a mark applies to every linked global of its name.
/// `has_weak` says that the text may hold annotations, `any_marked` that a
/// symbol was marked while the unit was lowered. The result says whether the
/// unit has weak symbols; without any, nothing is marked.
pub fn settle_weak_marks(
    source: &str,
    has_weak: bool,
    any_marked: bool,
    fns: &mut Vec<FnSymbol>,
    vars: &mut Vec<VarSymbol>,
) -> (r: bool)
    ensures
        r == (any_marked || weak_names_of(source@, has_weak).len() > 0),
        final(fns)@.len() == old(fns)@.len(),
        final(vars)@.len() == old(vars)@.len(),
        forall|i: int|
            #![trigger final(fns)@[i]]
            0 <= i < old(fns)@.len() ==> {
                &&& final(fns)@[i].name@ == old(fns)@[i].name@
                &&& final(fns)@[i].linkage == old(fns)@[i].linkage
                &&& final(fns)@[i].is_weak == old(fns)@[i].weakened(
                    weak_names_of(source@, has_weak),
                )
            },
        forall|i: int|
            #![trigger final(vars)@[i]]
            0 <= i < old(vars)@.len() ==> {
                &&& final(vars)@[i].same_but_mark(old(vars)@[i])
                &&& final(vars)@[i].is_weak == (old(vars)@[i].is_weak || r
                    && old(vars)@[i].is_linked() && weakened_somewhere(
                    old(vars)@,
                    weak_names_of(source@, has_weak),
                    old(vars)@[i].name@,
                ))
            },
        r ==> marked_alike(final(vars)@),
{
    let names = weak_names(source, has_weak);
    assert(names@.len() == naming::piece_views(names@).len());
    let has_symbols = any_marked || names.len() > 0;
    mark_named(fns, vars, &names);
    let ghost listed = naming::piece_views(names@);
    let ghost named = vars@;
    if has_symbols {
        spread_weak(vars);
        proof {
            law_weak_symbols_are_weak_everywhere(named, vars@);
            assert forall|i: int| 0 <= i < named.len() implies (#[trigger] vars@[i].is_weak == (
            old(vars)@[i].is_weak || old(vars)@[i].is_linked() && weakened_somewhere(
                old(vars)@,
                listed,
                old(vars)@[i].name@,
            ))) by {
                let name = old(vars)@[i].name@;
                assert(named[i].same_but_mark(old(vars)@[i]));
                if named[i].is_linked() && weak_somewhere(named, name) {
                    let k = choose|k: int|
                        0 <= k < named.len() && (#[trigger] named[k]).is_linked()
                            && named[k].is_weak && named[k].name@ == name;
                    assert(old(vars)@[k].is_linked() && old(vars)@[k].weakened(listed));
                }
                if old(vars)@[i].is_linked() && weakened_somewhere(old(vars)@, listed, name) {
                    let k = choose|k: int|
                        0 <= k < old(vars)@.len() && (#[trigger] old(vars)@[k]).is_linked()
                            && old(vars)@[k].weakened(listed) && old(vars)@[k].name@ == name;
                    assert(named[k].is_linked() && named[k].is_weak && named[k].name@ == name);
                }
                if named[i].is_weak && !old(vars)@[i].is_weak {
                    assert(old(vars)@[i].is_linked() && old(vars)@[i].weakened(listed));
                }
            }
        }
    }
    has_symbols
}

} // verus!
