//! The functions an unqualified C++ call may mean: ordinary lookup, using
//! directives, argument-dependent lookup and imports.

use crate::ir::{DescView, FnId, TypeDesc};
use crate::lookup;
use crate::lookup::ClassIndex;
use crate::naming;
use crate::scope;
use crate::scope::{join_segments, NameScope};
use crate::spelling;
use crate::syntax::SyntaxTree;
use crate::text;
use crate::text::{append, begins, chars_of, find, holds, part, str_eq, string_of};
use vstd::prelude::*;

verus! {

/// `s` without every `::` it starts with.
pub open spec fn unrooted(s: Seq<char>) -> Seq<char>
    decreases s.len(),
    via unrooted_decreases
{
    if text::starts_with(s, "::"@) {
        unrooted(s.skip("::"@.len() as int))
    } else {
        s
    }
}

#[via_fn]
proof fn unrooted_decreases(s: Seq<char>) {
    reveal_strlit("::");
}

/// The scopes of a qualified name, outermost first, from position `i` on.
pub open spec fn scopes_from(s: Seq<char>, i: int) -> Seq<Seq<char>>
    decreases s.len() - i,
    when 0 <= i
    via scopes_from_decreases
{
    let at = text::find_from(s, "::"@, i);
    if at < 0 {
        seq![]
    } else {
        seq![s.take(at)] + scopes_from(s, at + "::"@.len())
    }
}

#[via_fn]
proof fn scopes_from_decreases(s: Seq<char>, i: int) {
    reveal_strlit("::");
    text::lemma_find_from(s, "::"@, i);
}

/// The class or union that a type is, under pointers and arrays.
pub open spec fn tag_of(d: DescView) -> Option<Seq<char>>
    decreases d,
{
    match d {
        DescView::Ptr(inner) => tag_of(*inner),
        DescView::Array { elem, .. } => tag_of(*elem),
        DescView::Struct { name, .. } => Some(name),
        DescView::Union { name, .. } => Some(name),
        _ => None,
    }
}

/// The namespaces that an argument of the type brings in.
pub open spec fn namespaces_of(d: DescView) -> Seq<Seq<char>> {
    match tag_of(d) {
        Some(name) => scopes_from(unrooted(name), 0),
        None => seq![],
    }
}

/// The namespaces that the first `k` arguments bring in, each once.
pub open spec fn namespaces_upto(descs: Seq<TypeDesc>, k: int) -> Seq<Seq<char>>
    decreases k,
{
    if k <= 0 || k > descs.len() {
        seq![]
    } else {
        scope::joined_in(namespaces_upto(descs, k - 1), namespaces_of(descs[k - 1]@))
    }
}

fn drop_roots(s: &[char]) -> (r: Vec<char>)
    ensures
        r@ == unrooted(s@),
    decreases s@.len(),
{
    let sep = chars_of("::");
    proof {
        reveal_strlit("::");
    }
    if begins(s, &sep) {
        let rest = part(s, sep.len(), s.len());
        assert(rest@ =~= s@.skip(sep@.len() as int));
        drop_roots(&rest)
    } else {
        let own = part(s, 0, s.len());
        assert(own@ =~= s@);
        own
    }
}

fn find_tag(d: &TypeDesc) -> (r: Option<Vec<char>>)
    ensures
        match r {
            Some(name) => tag_of(d@) == Some(name@),
            None => tag_of(d@) is None,
        },
    decreases d,
{
    match d {
        TypeDesc::Ptr(inner) => find_tag(inner),
        TypeDesc::Array { elem, size: _ } => find_tag(elem),
        TypeDesc::Struct { name, fields: _ } => Some(chars_of(name.as_str())),
        TypeDesc::Union { name, fields: _ } => Some(chars_of(name.as_str())),
        _ => None,
    }
}

fn is_listed(list: &Vec<String>, name: &str) -> (r: bool)
    ensures
        r == spelling::views(list@).contains(name@),
{
    let mut k: usize = 0;
    while k < list.len()
        invariant
            k <= list@.len(),
            forall|j: int| 0 <= j < k ==> #[trigger] spelling::views(list@)[j] != name@,
        decreases list@.len() - k,
    {
        assert(spelling::views(list@)[k as int] == list@[k as int]@);
        if str_eq(list[k].as_str(), name) {
            return true;
        }
        k += 1;
    }
    false
}

proof fn lemma_joined_in_append<T>(list: Seq<T>, first: Seq<T>, x: T)
    ensures
        scope::joined_in(list, first.push(x)) == (if scope::joined_in(list, first).contains(x) {
            scope::joined_in(list, first)
        } else {
            scope::joined_in(list, first).push(x)
        }),
{
    assert(first.push(x).drop_last() =~= first);
    assert(first.push(x).last() == x);
}

fn add_scopes(name: &[char], out: &mut Vec<String>)
    ensures
        spelling::views(final(out)@) == scope::joined_in(
            spelling::views(old(out)@),
            scopes_from(name@, 0),
        ),
{
    let sep = chars_of("::");
    proof {
        reveal_strlit("::");
    }
    let ghost first = spelling::views(out@);
    let ghost whole = scopes_from(name@, 0);
    let ghost mut done: Seq<Seq<char>> = seq![];
    let mut i: usize = 0;
    assert(done + whole =~= whole);
    assert(scope::joined_in(first, done) == first);
    loop
        invariant
            sep@ == "::"@,
            sep@.len() == 2,
            i <= name@.len(),
            whole == scopes_from(name@, 0),
            first == spelling::views(old(out)@),
            done + scopes_from(name@, i as int) == whole,
            spelling::views(out@) == scope::joined_in(first, done),
        decreases name@.len() - i,
    {
        proof {
            text::lemma_find_from(name@, sep@, i as int);
        }
        let at = match find(name, &sep, i) {
            Some(at) => at,
            None => {
                assert(done + seq![] =~= done);
                return;
            },
        };
        let own = part(name, 0, at);
        assert(own@ =~= name@.take(at as int));
        let spelled = string_of(&own);
        let ghost before = out@;
        proof {
            lemma_joined_in_append(first, done, own@);
        }
        if !is_listed(out, spelled.as_str()) {
            out.push(spelled);
            assert(spelling::views(out@) =~= spelling::views(before).push(own@));
        }
        proof {
            let rest = scopes_from(name@, at + 2);
            assert(done + (seq![own@] + rest) =~= done.push(own@) + rest);
            done = done.push(own@);
        }
        assert(name@.len() == name.len());
        i = at + 2;
    }
}

/// The namespaces that argument-dependent lookup searches: the enclosing
/// scopes of the argument types, pointer and array layers peeled. A leading
/// `::` is the global-scope marker, not part of a namespace's name. For
/// `N::Outer::Inner` every scope counts (`N`, `N::Outer`), since without type
/// information a class is not told from a namespace.
pub fn adl_namespaces(arg_desc: &Vec<TypeDesc>) -> (r: Vec<String>)
    ensures
        spelling::views(r@) == namespaces_upto(arg_desc@, arg_desc@.len() as int),
{
    let mut out: Vec<String> = Vec::new();
    let mut k: usize = 0;
    assert(spelling::views(out@) =~= seq![]);
    while k < arg_desc.len()
        invariant
            k <= arg_desc@.len(),
            spelling::views(out@) == namespaces_upto(arg_desc@, k as int),
        decreases arg_desc@.len() - k,
    {
        match find_tag(&arg_desc[k]) {
            Some(name) => {
                add_scopes(&drop_roots(&name), &mut out);
            },
            None => {},
        }
        k += 1;
    }
    out
}

/// Where an unqualified call is looked up, phase by phase.
#[derive(Debug, PartialEq, Eq)]
pub struct LookupPlan {
    /// The enclosing namespaces, innermost first, the global scope last.
    pub enclosing: Vec<String>,
    /// The namespaces of the argument types.
    pub argument: Vec<String>,
    /// The entries that `using X::f;` imports under the name.
    pub imports: Vec<String>,
}

/// The imports among the first `k` whose name is `base`.
pub open spec fn imports_upto(v: Seq<(String, String)>, base: Seq<char>, k: int) -> Seq<Seq<char>>
    decreases k,
{
    if k <= 0 || k > v.len() {
        seq![]
    } else if v[k - 1].0@ == base {
        imports_upto(v, base, k - 1).push(v[k - 1].1@)
    } else {
        imports_upto(v, base, k - 1)
    }
}

impl NameScope {
    /// Where an unqualified call of `base` is looked up from here. The using
    /// directives of the scope are searched too, between the enclosing
    /// namespaces and those of the arguments.
    pub fn lookup_plan(&self, base: &str, arg_desc: &Vec<TypeDesc>) -> (r: LookupPlan)
        ensures
            spelling::views(r.enclosing@) == scope::prefixes_from(
                self.spec_levels(),
                self.spec_levels().len() as int,
            ),
            spelling::views(r.argument@) == namespaces_upto(arg_desc@, arg_desc@.len() as int),
            spelling::views(r.imports@) == imports_upto(
                self.using_name_imports@,
                base@,
                self.using_name_imports@.len() as int,
            ),
    {
        let levels = self.levels();
        let ghost lv = naming::piece_views(levels@);
        let ghost whole = scope::prefixes_from(lv, lv.len() as int);
        let mut enclosing: Vec<String> = Vec::new();
        let mut n: usize = levels.len();
        assert(lv.len() == levels@.len());
        assert(spelling::views(enclosing@) + whole =~= whole);
        loop
            invariant_except_break
                spelling::views(enclosing@) + scope::prefixes_from(lv, n as int) == whole,
            invariant
                n <= levels@.len(),
                lv == naming::piece_views(levels@),
            ensures
                spelling::views(enclosing@) == whole,
            decreases n,
        {
            let ghost before = spelling::views(enclosing@);
            let text = join_segments(&levels, n);
            enclosing.push(string_of(&text));
            proof {
                assert(spelling::views(enclosing@) =~= before.push(text@));
                if n == 0 {
                    assert(before + seq![text@] =~= before.push(text@));
                } else {
                    let rest = scope::prefixes_from(lv, n - 1);
                    assert(before + (seq![text@] + rest) =~= before.push(text@) + rest);
                }
            }
            if n == 0 {
                break;
            }
            n -= 1;
        }
        let mut imports: Vec<String> = Vec::new();
        let mut k: usize = 0;
        assert(spelling::views(imports@) =~= seq![]);
        while k < self.using_name_imports.len()
            invariant
                k <= self.using_name_imports@.len(),
                spelling::views(imports@) == imports_upto(
                    self.using_name_imports@,
                    base@,
                    k as int,
                ),
            decreases self.using_name_imports@.len() - k,
        {
            let ghost before = imports@;
            if str_eq(self.using_name_imports[k].0.as_str(), base) {
                imports.push(string_of(&chars_of(self.using_name_imports[k].1.as_str())));
                assert(spelling::views(imports@) =~= spelling::views(before).push(
                    self.using_name_imports@[k as int].1@,
                ));
            }
            k += 1;
        }
        LookupPlan { enclosing, argument: adl_namespaces(arg_desc), imports }
    }
}

/// The first of the scopes, from position `k`, that declares something.
pub open spec fn nearest_declared(found: Seq<Vec<FnId>>, k: int) -> Seq<FnId>
    decreases found.len() - k,
{
    if k < 0 || k >= found.len() {
        seq![]
    } else if found[k]@.len() > 0 {
        found[k]@
    } else {
        nearest_declared(found, k + 1)
    }
}

/// `list` with what the first `k` answers add to it.
pub open spec fn with_answers(list: Seq<FnId>, found: Seq<Vec<FnId>>, k: int) -> Seq<FnId>
    decreases k,
{
    if k <= 0 || k > found.len() {
        list
    } else {
        scope::joined_in(with_answers(list, found, k - 1), found[k - 1]@)
    }
}

/// The candidates of an unqualified call.
pub open spec fn candidates_of(
    enclosing: Seq<Vec<FnId>>,
    directives: Seq<Vec<FnId>>,
    argument: Seq<Vec<FnId>>,
    imports: Seq<Vec<FnId>>,
) -> Seq<FnId> {
    let ordinary = scope::joined_in(seq![], nearest_declared(enclosing, 0));
    let visible = with_answers(ordinary, directives, directives.len() as int);
    let dependent = with_answers(visible, argument, argument.len() as int);
    with_answers(dependent, imports, imports.len() as int)
}

fn is_candidate(list: &Vec<FnId>, f: FnId) -> (r: bool)
    ensures
        r == list@.contains(f),
{
    let mut k: usize = 0;
    while k < list.len()
        invariant
            k <= list@.len(),
            forall|j: int| 0 <= j < k ==> list@[j] != f,
        decreases list@.len() - k,
    {
        if list[k] == f {
            return true;
        }
        k += 1;
    }
    false
}

/// Add the functions that are not listed yet.
pub fn add_candidates(list: &mut Vec<FnId>, more: &Vec<FnId>)
    ensures
        final(list)@ == scope::joined_in(old(list)@, more@),
{
    let ghost first = list@;
    let mut k: usize = 0;
    assert(more@.take(0) =~= seq![]);
    while k < more.len()
        invariant
            k <= more@.len(),
            list@ == scope::joined_in(first, more@.take(k as int)),
        decreases more@.len() - k,
    {
        proof {
            assert(more@.take(k + 1).drop_last() =~= more@.take(k as int));
            assert(more@.take(k + 1).last() == more@[k as int]);
        }
        if !is_candidate(list, more[k]) {
            list.push(more[k]);
        }
        k += 1;
    }
    assert(more@.take(k as int) =~= more@);
}

fn add_answers(list: &mut Vec<FnId>, found: &Vec<Vec<FnId>>)
    ensures
        final(list)@ == with_answers(old(list)@, found@, found@.len() as int),
{
    let ghost first = list@;
    let mut k: usize = 0;
    while k < found.len()
        invariant
            k <= found@.len(),
            list@ == with_answers(first, found@, k as int),
        decreases found@.len() - k,
    {
        add_candidates(list, &found[k]);
        k += 1;
    }
}

/// The candidate set of an unqualified C++ call, from what each place of the
/// plan declares under its name. Enclosing namespaces are searched innermost
/// to outermost, stopping at the first that declares the name; the global rung
/// comes with the file's own declarations. Using directives, the namespaces of
/// the arguments and imports add candidates and never hide any.
pub fn merge_candidates(
    enclosing: &Vec<Vec<FnId>>,
    directives: &Vec<Vec<FnId>>,
    argument: &Vec<Vec<FnId>>,
    imports: &Vec<Vec<FnId>>,
) -> (r: Vec<FnId>)
    ensures
        r@ == candidates_of(enclosing@, directives@, argument@, imports@),
{
    let mut out: Vec<FnId> = Vec::new();
    let mut k: usize = 0;
    while k < enclosing.len() && enclosing[k].len() == 0
        invariant
            k <= enclosing@.len(),
            nearest_declared(enclosing@, 0) == nearest_declared(enclosing@, k as int),
        decreases enclosing@.len() - k,
    {
        k += 1;
    }
    if k < enclosing.len() {
        add_candidates(&mut out, &enclosing[k]);
    }
    add_answers(&mut out, directives);
    add_answers(&mut out, argument);
    add_answers(&mut out, imports);
    out
}

proof fn lemma_joined_in_members(list: Seq<FnId>, more: Seq<FnId>, f: FnId)
    requires
        scope::joined_in(list, more).contains(f),
    ensures
        list.contains(f) || more.contains(f),
    decreases more.len(),
{
    if more.len() > 0 {
        let before = scope::joined_in(list, more.drop_last());
        let after = scope::joined_in(list, more);
        let k = choose|k: int| 0 <= k < after.len() && after[k] == f;
        if k < before.len() {
            assert(before[k] == f);
            lemma_joined_in_members(list, more.drop_last(), f);
            if more.drop_last().contains(f) {
                let j = choose|j: int|
                    0 <= j < more.drop_last().len() && more.drop_last()[j] == f;
                assert(more[j] == f);
            }
        } else {
            assert(more[more.len() - 1] == f);
        }
    }
}

/// A declaration in an inner namespace hides those around it: what ordinary
/// lookup yields is declared in the innermost namespace that declares the name
/// at all.
pub proof fn law_inner_declarations_hide_outer_ones(
    enclosing: Seq<Vec<FnId>>,
    k: int,
    f: FnId,
)
    requires
        0 <= k < enclosing.len(),
        enclosing[k]@.len() > 0,
        forall|j: int| 0 <= j < k ==> (#[trigger] enclosing[j])@.len() == 0,
        candidates_of(enclosing, seq![], seq![], seq![]).contains(f),
    ensures
        enclosing[k]@.contains(f),
{
    lemma_nearest(enclosing, 0, k);
    lemma_joined_in_members(seq![], enclosing[k]@, f);
    if Seq::<FnId>::empty().contains(f) {
        assert(false);
    }
}

proof fn lemma_nearest(found: Seq<Vec<FnId>>, from: int, k: int)
    requires
        0 <= from <= k < found.len(),
        found[k]@.len() > 0,
        forall|j: int| from <= j < k ==> (#[trigger] found[j])@.len() == 0,
    ensures
        nearest_declared(found, from) == found[k]@,
    decreases k - from,
{
    if from < k {
        lemma_nearest(found, from + 1, k);
    }
}

/// True when the callee is a bare unqualified name: the only shape that
/// argument-dependent and using lookup apply to.
pub fn is_bare_callee_node(tree: &SyntaxTree, func: usize, name: &str) -> (r: bool)
    requires
        func < tree.len(),
    ensures
        r == ((tree.spec_kind(func as int) == "identifier"@ || tree.spec_kind(func as int)
            == "template_function"@) && !text::contains(name@, "::"@)),
{
    (tree.kind_is(func, "identifier") || tree.kind_is(func, "template_function")) && !holds(
        &chars_of(name),
        &chars_of("::"),
    )
}

/// How a C++ callee is looked up.
#[derive(Debug, Clone, Copy, PartialEq, Eq, Structural)]
pub enum CalleeLookup {
    /// By ordinary and argument-dependent lookup of its bare name.
    Bare,
    /// From the enclosing scopes outwards.
    Scoped,
    /// At the global scope.
    Global,
}

pub open spec fn lookup_of(t: SyntaxTree, func: int, name: Seq<char>) -> CalleeLookup {
    let kind = t.spec_kind(func);
    if (kind == "identifier"@ || kind == "template_function"@) && !text::contains(name, "::"@) {
        CalleeLookup::Bare
    } else if kind == "qualified_identifier"@ || kind == "template_function"@ {
        CalleeLookup::Scoped
    } else {
        CalleeLookup::Global
    }
}

/// How the functions that a callee may mean are looked up.
pub fn callee_lookup(tree: &SyntaxTree, func: usize, name: &str) -> (r: CalleeLookup)
    requires
        func < tree.len(),
    ensures
        r == lookup_of(*tree, func as int, name@),
{
    if is_bare_callee_node(tree, func, name) {
        CalleeLookup::Bare
    } else if tree.kind_is(func, "qualified_identifier") || tree.kind_is(
        func,
        "template_function",
    ) {
        CalleeLookup::Scoped
    } else {
        CalleeLookup::Global
    }
}

/// The names that the first `k` using directives make of `name`.
pub open spec fn through_upto(directives: Seq<String>, name: Seq<char>, k: int) -> Seq<Seq<char>>
    decreases k,
{
    if k <= 0 {
        Seq::empty()
    } else {
        through_upto(directives, name, k - 1).push(directives[k - 1]@ + "::"@ + name)
    }
}

/// The spellings that a qualified callee is looked up under, in order: from
/// the enclosing scopes outwards, then through the using directives. A name
/// that starts with `::` is global only.
pub open spec fn scoped_names(s: NameScope, x: ClassIndex, name: Seq<char>) -> Seq<Seq<char>> {
    let own = s.spec_candidates(x, name);
    let enclosing = Seq::new(own.len(), |i: int| own[i].0);
    if text::starts_with(name, "::"@) {
        enclosing
    } else {
        enclosing + through_upto(s.using_nss@, name, s.using_nss@.len() as int)
    }
}

impl NameScope {
    /// The spellings that a qualified callee is looked up under; the first
    /// that names a function says what is called.
    pub fn scoped_callee_names(&self, index: &ClassIndex, name: &str) -> (r: Vec<String>)
        ensures
            spelling::views(r@) == scoped_names(*self, *index, name@),
    {
        let spelled = chars_of(name);
        let own = self.scope_candidates(index, &spelled);
        let ghost all = lookup::candidate_views(own@);
        let ghost enclosing = Seq::new(all.len(), |i: int| all[i].0);
        let mut out: Vec<String> = Vec::new();
        let mut k: usize = 0;
        while k < own.len()
            invariant
                k <= own@.len(),
                all == lookup::candidate_views(own@),
                out@.len() == k,
                forall|j: int| 0 <= j < k ==> (#[trigger] out@[j])@ == all[j].0,
            decreases own@.len() - k,
        {
            assert(all[k as int].0 == own@[k as int].0@);
            out.push(string_of(&own[k].0));
            k += 1;
        }
        assert(spelling::views(out@) =~= enclosing);
        if begins(&spelled, &chars_of("::")) {
            return out;
        }
        let mut i: usize = 0;
        assert(spelling::views(out@) =~= enclosing + Seq::<Seq<char>>::empty());
        while i < self.using_nss.len()
            invariant
                i <= self.using_nss@.len(),
                spelled@ == name@,
                spelling::views(out@) == enclosing + through_upto(
                    self.using_nss@,
                    name@,
                    i as int,
                ),
            decreases self.using_nss@.len() - i,
        {
            let ghost before = spelling::views(out@);
            let mut full = chars_of(self.using_nss[i].as_str());
            append(&mut full, &chars_of("::"));
            append(&mut full, &spelled);
            out.push(string_of(&full));
            assert(spelling::views(out@) =~= before.push(full@));
            i += 1;
        }
        out
    }
}

/// What the first name that names a function names: of several spellings in
/// order, the answers to the first that has some.
pub fn first_found(found: &Vec<Vec<FnId>>) -> (r: Vec<FnId>)
    ensures
        r@ == nearest_declared(found@, 0),
{
    let mut k: usize = 0;
    while k < found.len() && found[k].len() == 0
        invariant
            k <= found@.len(),
            nearest_declared(found@, 0) == nearest_declared(found@, k as int),
        decreases found@.len() - k,
    {
        k += 1;
    }
    let mut out: Vec<FnId> = Vec::new();
    if k < found.len() {
        let mut i: usize = 0;
        while i < found[k as usize].len()
            invariant
                k < found@.len(),
                i <= found@[k as int]@.len(),
                out@ == found@[k as int]@.take(i as int),
            decreases found@[k as int]@.len() - i,
        {
            out.push(found[k][i]);
            i += 1;
            assert(out@ =~= found@[k as int]@.take(i as int));
        }
        assert(out@ =~= found@[k as int]@);
    }
    out
}

} // verus!
