//! Looking names up the way C++ does: in the class being lowered, its bases
//! and the classes around it, then in the enclosing namespaces, and last at
//! the global scope.

use crate::ir::{DescView, FnId, TypeDesc};
use crate::naming;
use crate::normalize;
use crate::normalize::drop_prefix;
use crate::scope;
use crate::scope::{join_segments, NameScope};
use crate::spelling;
use crate::text;
use crate::text::{append, begins, chars_of, holds, part, rfind, same, str_eq, string_of};
use vstd::prelude::*;

verus! {

/// How many base classes a type-name lookup asks about per scope; a hierarchy
/// is rarely deeper, and a cyclic one must not loop.
pub const MAX_BASE_LOOKUP: usize = 32;

/// What a name can stand for, as far as the index knows it.
#[derive(Debug, PartialEq, Eq)]
pub struct ClassIndex {
    /// The class tags that are declared.
    pub declared: Vec<String>,
    /// The class tags that are defined.
    pub defined: Vec<String>,
    /// The type of each struct tag that has one, declared or only referred to.
    pub typed: Vec<(String, TypeDesc)>,
    /// The classes that declare an `operator->`.
    pub arrows: Vec<String>,
    /// The class templates with members whose result depends on an argument.
    pub template_returns: Vec<String>,
    /// The aliases, by the name each is registered under.
    pub aliases: Vec<(String, TypeDesc)>,
    /// The direct bases of each class that has some.
    pub bases: Vec<(String, Vec<String>)>,
    /// The names that functions are declared under where the unit can see them.
    pub functions: Vec<String>,
    /// The functions of the index by their full names.
    pub members: Vec<(String, FnId)>,
}

/// The type that `name` is an alias of, from position `k`.
pub open spec fn alias_from(aliases: Seq<(String, TypeDesc)>, name: Seq<char>, k: int) -> Option<
    DescView,
>
    decreases aliases.len() - k,
{
    if k < 0 || k >= aliases.len() {
        None
    } else if aliases[k].0@ == name {
        Some(aliases[k].1@)
    } else {
        alias_from(aliases, name, k + 1)
    }
}

/// The last of the first `k` aliases called `name`.
pub open spec fn last_alias(aliases: Seq<(String, TypeDesc)>, name: Seq<char>, k: int) -> Option<
    DescView,
>
    decreases k,
{
    if k <= 0 || k > aliases.len() {
        None
    } else if aliases[k - 1].0@ == name {
        Some(aliases[k - 1].1@)
    } else {
        last_alias(aliases, name, k - 1)
    }
}

/// The direct bases of `cls`, from position `k` of the table.
pub open spec fn bases_from(
    bases: Seq<(String, Vec<String>)>,
    cls: Seq<char>,
    k: int,
) -> Seq<Seq<char>>
    decreases bases.len() - k,
{
    if k < 0 || k >= bases.len() {
        seq![]
    } else if bases[k].0@ == cls {
        spelling::views(bases[k].1@)
    } else {
        bases_from(bases, cls, k + 1)
    }
}

fn is_listed(list: &Vec<String>, name: &[char]) -> (r: bool)
    ensures
        r == spelling::views(list@).contains(name@),
{
    let mut k: usize = 0;
    while k < list.len()
        invariant
            k <= list@.len(),
            forall|j: int| 0 <= j < k ==> #[trigger] spelling::views(list@)[j] != name@,
        decreases list@.len() - k,
    {
        assert(spelling::views(list@)[k as int] == list@[k as int]@);
        if same(&chars_of(list[k].as_str()), name) {
            return true;
        }
        k += 1;
    }
    false
}

/// The functions called `name` among the first `k`.
pub open spec fn members_upto(v: Seq<(String, FnId)>, name: Seq<char>, k: int) -> Seq<FnId>
    decreases k,
{
    if k <= 0 || k > v.len() {
        seq![]
    } else if v[k - 1].0@ == name {
        members_upto(v, name, k - 1).push(v[k - 1].1)
    } else {
        members_upto(v, name, k - 1)
    }
}

fn find_desc<'a>(table: &'a Vec<(String, TypeDesc)>, name: &[char]) -> (r: Option<&'a TypeDesc>)
    ensures
        match r {
            Some(d) => alias_from(table@, name@, 0) == Some(d@),
            None => alias_from(table@, name@, 0) is None,
        },
{
    let wanted = string_of(name);
    let mut k: usize = 0;
    while k < table.len()
        invariant
            k <= table@.len(),
            wanted@ == name@,
            alias_from(table@, name@, 0) == alias_from(table@, name@, k as int),
        decreases table@.len() - k,
    {
        if str_eq(table[k].0.as_str(), wanted.as_str()) {
            return Some(&table[k].1);
        }
        k += 1;
    }
    None
}

impl ClassIndex {
    pub open spec fn spec_members(&self, name: Seq<char>) -> Seq<FnId> {
        members_upto(self.members@, name, self.members@.len() as int)
    }

    /// The functions called `name`, in order.
    pub fn functions_named(&self, name: &str) -> (r: Vec<FnId>)
        ensures
            r@ == self.spec_members(name@),
    {
        let mut out: Vec<FnId> = Vec::new();
        let mut k: usize = 0;
        while k < self.members.len()
            invariant
                k <= self.members@.len(),
                out@ == members_upto(self.members@, name@, k as int),
            decreases self.members@.len() - k,
        {
            if str_eq(self.members[k].0.as_str(), name) {
                out.push(self.members[k].1);
            }
            k += 1;
        }
        out
    }

    pub open spec fn spec_declared(&self, name: Seq<char>) -> bool {
        spelling::views(self.declared@).contains(name)
    }

    pub open spec fn spec_typed(&self, name: Seq<char>) -> Option<DescView> {
        alias_from(self.typed@, name, 0)
    }

    pub open spec fn spec_defined(&self, name: Seq<char>) -> bool {
        spelling::views(self.defined@).contains(name)
    }

    pub open spec fn spec_arrow(&self, name: Seq<char>) -> bool {
        spelling::views(self.arrows@).contains(name)
    }

    pub open spec fn spec_template_returns(&self, name: Seq<char>) -> bool {
        spelling::views(self.template_returns@).contains(name)
    }

    pub fn is_defined(&self, name: &[char]) -> (r: bool)
        ensures
            r == self.spec_defined(name@),
    {
        is_listed(&self.defined, name)
    }

    pub fn declares_arrow(&self, name: &[char]) -> (r: bool)
        ensures
            r == self.spec_arrow(name@),
    {
        is_listed(&self.arrows, name)
    }

    pub fn has_template_returns(&self, name: &[char]) -> (r: bool)
        ensures
            r == self.spec_template_returns(name@),
    {
        is_listed(&self.template_returns, name)
    }

    pub fn names_function(&self, name: &[char]) -> (r: bool)
        ensures
            r == self.spec_function(name@),
    {
        is_listed(&self.functions, name)
    }

    pub open spec fn spec_function(&self, name: Seq<char>) -> bool {
        spelling::views(self.functions@).contains(name)
    }

    pub open spec fn spec_alias(&self, name: Seq<char>) -> Option<DescView> {
        alias_from(self.aliases@, name, 0)
    }

    pub open spec fn spec_bases(&self, cls: Seq<char>) -> Seq<Seq<char>> {
        bases_from(self.bases@, cls, 0)
    }

    pub fn is_declared(&self, name: &[char]) -> (r: bool)
        ensures
            r == self.spec_declared(name@),
    {
        is_listed(&self.declared, name)
    }

    pub fn resolve_alias(&self, name: &[char]) -> (r: Option<&TypeDesc>)
        ensures
            match r {
                Some(d) => self.spec_alias(name@) == Some(d@),
                None => self.spec_alias(name@) is None,
            },
    {
        find_desc(&self.aliases, name)
    }

    pub fn type_by_tag(&self, name: &[char]) -> (r: Option<&TypeDesc>)
        ensures
            match r {
                Some(d) => self.spec_typed(name@) == Some(d@),
                None => self.spec_typed(name@) is None,
            },
    {
        find_desc(&self.typed, name)
    }

    pub fn base_names(&self, cls: &[char]) -> (r: Vec<Vec<char>>)
        ensures
            naming::piece_views(r@) == self.spec_bases(cls@),
    {
        let wanted = string_of(cls);
        let mut k: usize = 0;
        while k < self.bases.len()
            invariant
                k <= self.bases@.len(),
                wanted@ == cls@,
                self.spec_bases(cls@) == bases_from(self.bases@, cls@, k as int),
            decreases self.bases@.len() - k,
        {
            if str_eq(self.bases[k].0.as_str(), wanted.as_str()) {
                return texts(&self.bases[k].1);
            }
            k += 1;
        }
        let none: Vec<Vec<char>> = Vec::new();
        assert(naming::piece_views(none@) =~= seq![]);
        none
    }
}

/// The characters of each text.
pub fn texts(v: &Vec<String>) -> (r: Vec<Vec<char>>)
    ensures
        naming::piece_views(r@) == spelling::views(v@),
{
    let mut out: Vec<Vec<char>> = Vec::new();
    let mut k: usize = 0;
    while k < v.len()
        invariant
            k <= v@.len(),
            out@.len() == k,
            forall|j: int| 0 <= j < k ==> (#[trigger] out@[j])@ == v@[j]@,
        decreases v@.len() - k,
    {
        out.push(chars_of(v[k].as_str()));
        k += 1;
    }
    assert(naming::piece_views(out@) =~= spelling::views(v@));
    out
}

/// `scope` spells the namespaces from `levels[k]` on, the first at least.
pub open spec fn spells_namespace(scope: Seq<char>, levels: Seq<Seq<char>>, k: int) -> bool
    decreases levels.len() - k,
{
    if k < 0 || k >= levels.len() || !text::starts_with(scope, levels[k]) {
        false
    } else {
        let tail = scope.skip(levels[k].len() as int);
        tail.len() == 0 || text::starts_with(tail, "::"@) && spells_namespace(
            tail.skip("::"@.len() as int),
            levels,
            k + 1,
        )
    }
}

/// A class further in is `prefix` or a member of it.
pub open spec fn covered(inner: Seq<Seq<char>>, prefix: Seq<char>) -> bool {
    exists|j: int| 0 <= j < inner.len() && lies_in(#[trigger] inner[j], prefix)
}

pub open spec fn lies_in(cls: Seq<char>, prefix: Seq<char>) -> bool {
    &&& text::starts_with(cls, prefix)
    &&& cls.len() == prefix.len() || text::starts_with(cls.skip(prefix.len() as int), "::"@)
}

/// The candidate `scope::name`.
pub open spec fn candidate(scope: Seq<char>, name: Seq<char>) -> (Seq<char>, bool) {
    (scope + "::"@ + name, false)
}

/// The candidates in base classes: those waiting in `queue` from `seen` on,
/// and the bases of each behind the ones already waiting.
pub open spec fn base_walk(
    index: ClassIndex,
    queue: Seq<Seq<char>>,
    seen: int,
    name: Seq<char>,
) -> Seq<(Seq<char>, bool)>
    decreases MAX_BASE_LOOKUP - seen,
{
    if seen < 0 || seen >= queue.len() || seen >= MAX_BASE_LOOKUP {
        seq![]
    } else {
        seq![candidate(queue[seen], name)] + base_walk(
            index,
            queue + index.spec_bases(queue[seen]),
            seen + 1,
            name,
        )
    }
}

/// The scope around `prefix`.
pub open spec fn around(prefix: Seq<char>) -> Seq<char> {
    let at = text::find_last(prefix, "::"@, prefix.len() as int);
    if at < 0 {
        seq![]
    } else {
        prefix.take(at)
    }
}

/// The candidates of the class `prefix`, its bases, and the classes around it,
/// up to the namespaces and to what a class further in covers.
pub open spec fn class_walk(
    index: ClassIndex,
    levels: Seq<Seq<char>>,
    inner: Seq<Seq<char>>,
    prefix: Seq<char>,
    name: Seq<char>,
) -> Seq<(Seq<char>, bool)>
    decreases prefix.len(),
    via class_walk_decreases
{
    if prefix.len() == 0 || spells_namespace(prefix, levels, 0) || covered(inner, prefix) {
        seq![]
    } else {
        seq![candidate(prefix, name)] + base_walk(index, index.spec_bases(prefix), 0, name)
            + class_walk(index, levels, inner, around(prefix), name)
    }
}

#[via_fn]
proof fn class_walk_decreases(
    index: ClassIndex,
    levels: Seq<Seq<char>>,
    inner: Seq<Seq<char>>,
    prefix: Seq<char>,
    name: Seq<char>,
) {
    if prefix.len() > 0 {
        lemma_around(prefix);
    }
}

pub proof fn lemma_around(prefix: Seq<char>)
    requires
        prefix.len() > 0,
    ensures
        around(prefix).len() < prefix.len(),
{
    reveal_strlit("::");
    text::lemma_find_last(prefix, "::"@, prefix.len() as int);
}

/// The candidates of the first `depth` classes in scope, innermost first.
pub open spec fn classes_walk(
    index: ClassIndex,
    levels: Seq<Seq<char>>,
    classes: Seq<Seq<char>>,
    depth: int,
    name: Seq<char>,
) -> Seq<(Seq<char>, bool)>
    decreases depth,
{
    if depth <= 0 || depth > classes.len() {
        seq![]
    } else {
        class_walk(index, levels, classes.skip(depth), classes[depth - 1], name) + classes_walk(
            index,
            levels,
            classes,
            depth - 1,
            name,
        )
    }
}

/// The candidates of the first `depth` namespaces, innermost first.
pub open spec fn namespace_walk(levels: Seq<Seq<char>>, depth: int, name: Seq<char>) -> Seq<
    (Seq<char>, bool),
>
    decreases depth,
{
    if depth <= 0 {
        seq![]
    } else {
        seq![(scope::within(levels.take(depth), name), false)] + namespace_walk(
            levels,
            depth - 1,
            name,
        )
    }
}

/// The spellings a name is looked up under, in order, with a flag on the last,
/// global, one. A name that starts with `::` is asked about at the global
/// scope only.
pub open spec fn candidates(
    index: ClassIndex,
    levels: Seq<Seq<char>>,
    classes: Seq<Seq<char>>,
    name: Seq<char>,
) -> Seq<(Seq<char>, bool)> {
    if text::starts_with(name, "::"@) {
        seq![(normalize::after_prefix(name, "::"@), true)]
    } else {
        (classes_walk(index, levels, classes, classes.len() as int, name) + namespace_walk(
            levels,
            levels.len() as int,
            name,
        )).push((name, true))
    }
}

pub open spec fn candidate_views(v: Seq<(Vec<char>, bool)>) -> Seq<(Seq<char>, bool)> {
    v.map_values(|c: (Vec<char>, bool)| (c.0@, c.1))
}

fn is_namespace(scope: &[char], levels: &Vec<Vec<char>>) -> (r: bool)
    ensures
        r == spells_namespace(scope@, naming::piece_views(levels@), 0),
{
    let sep = chars_of("::");
    let ghost all = naming::piece_views(levels@);
    let mut rest = part(scope, 0, scope.len());
    assert(rest@ =~= scope@);
    let mut k: usize = 0;
    while k < levels.len()
        invariant
            k <= levels@.len(),
            sep@ == "::"@,
            all == naming::piece_views(levels@),
            spells_namespace(scope@, all, 0) == spells_namespace(rest@, all, k as int),
        decreases levels@.len() - k,
    {
        assert(all[k as int] == levels@[k as int]@);
        if !begins(&rest, &levels[k]) {
            return false;
        }
        let tail = part(&rest, levels[k].len(), rest.len());
        assert(tail@ =~= rest@.skip(all[k as int].len() as int));
        if tail.len() == 0 {
            return true;
        }
        if !begins(&tail, &sep) {
            return false;
        }
        let next = part(&tail, sep.len(), tail.len());
        assert(next@ =~= tail@.skip(sep@.len() as int));
        rest = next;
        k += 1;
    }
    false
}

fn is_covered(classes: &Vec<Vec<char>>, from: usize, prefix: &[char]) -> (r: bool)
    requires
        from <= classes@.len(),
    ensures
        r == covered(naming::piece_views(classes@).skip(from as int), prefix@),
{
    let sep = chars_of("::");
    let ghost inner = naming::piece_views(classes@).skip(from as int);
    let mut k: usize = from;
    while k < classes.len()
        invariant
            from <= k <= classes@.len(),
            sep@ == "::"@,
            inner == naming::piece_views(classes@).skip(from as int),
            forall|j: int| 0 <= j < k - from ==> !lies_in(#[trigger] inner[j], prefix@),
        decreases classes@.len() - k,
    {
        let cls = &classes[k];
        assert(inner[k - from] == cls@);
        if begins(cls, prefix) {
            let rest = part(cls, prefix.len(), cls.len());
            assert(rest@ =~= cls@.skip(prefix@.len() as int));
            if rest.len() == 0 || begins(&rest, &sep) {
                return true;
            }
        }
        k += 1;
    }
    false
}

fn push_candidate(out: &mut Vec<(Vec<char>, bool)>, scope: &[char], name: &[char])
    ensures
        candidate_views(final(out)@) == candidate_views(old(out)@).push(candidate(scope@, name@)),
{
    let mut spelled = part(scope, 0, scope.len());
    assert(spelled@ =~= scope@);
    append(&mut spelled, &chars_of("::"));
    append(&mut spelled, name);
    out.push((spelled, false));
    assert(candidate_views(out@) =~= candidate_views(old(out)@).push(candidate(scope@, name@)));
}

fn walk_bases(index: &ClassIndex, cls: &[char], name: &[char], out: &mut Vec<(Vec<char>, bool)>)
    ensures
        candidate_views(final(out)@) == candidate_views(old(out)@) + base_walk(
            *index,
            index.spec_bases(cls@),
            0,
            name@,
        ),
{
    let ghost first = candidate_views(out@);
    let ghost whole = base_walk(*index, index.spec_bases(cls@), 0, name@);
    let mut queue = index.base_names(cls);
    let mut seen: usize = 0;
    while seen < queue.len() && seen < MAX_BASE_LOOKUP
        invariant
            seen <= queue@.len(),
            seen <= MAX_BASE_LOOKUP,
            candidate_views(out@) + base_walk(
                *index,
                naming::piece_views(queue@),
                seen as int,
                name@,
            ) =~= first + whole,
        decreases MAX_BASE_LOOKUP - seen,
    {
        let ghost waiting = naming::piece_views(queue@);
        let ghost before = candidate_views(out@);
        assert(waiting[seen as int] == queue@[seen as int]@);
        push_candidate(out, &queue[seen], name);
        let mut more = index.base_names(&queue[seen]);
        let ghost added = naming::piece_views(more@);
        queue.append(&mut more);
        proof {
            assert(naming::piece_views(queue@) =~= waiting + added);
            let rest = base_walk(*index, waiting + added, seen + 1, name@);
            assert(before + (seq![candidate(waiting[seen as int], name@)] + rest)
                =~= before.push(candidate(waiting[seen as int], name@)) + rest);
        }
        seen += 1;
    }
    assert(candidate_views(out@) =~= first + whole);
}

fn walk_class(
    index: &ClassIndex,
    levels: &Vec<Vec<char>>,
    classes: &Vec<Vec<char>>,
    depth: usize,
    name: &[char],
    out: &mut Vec<(Vec<char>, bool)>,
)
    requires
        0 < depth <= classes@.len(),
    ensures
        candidate_views(final(out)@) == candidate_views(old(out)@) + class_walk(
            *index,
            naming::piece_views(levels@),
            naming::piece_views(classes@).skip(depth as int),
            naming::piece_views(classes@)[depth - 1],
            name@,
        ),
{
    let ghost first = candidate_views(out@);
    let ghost lv = naming::piece_views(levels@);
    let ghost inner = naming::piece_views(classes@).skip(depth as int);
    let own = &classes[depth - 1];
    let ghost whole = class_walk(*index, lv, inner, own@, name@);
    let sep = chars_of("::");
    let mut prefix = part(own, 0, own.len());
    assert(prefix@ =~= own@);
    loop
        invariant
            0 < depth <= classes@.len(),
            sep@ == "::"@,
            lv == naming::piece_views(levels@),
            inner == naming::piece_views(classes@).skip(depth as int),
            candidate_views(out@) + class_walk(*index, lv, inner, prefix@, name@) =~= first + whole,
        ensures
            candidate_views(out@) =~= first + whole,
        decreases prefix@.len(),
    {
        if prefix.len() == 0 || is_namespace(&prefix, levels) || is_covered(
            classes,
            depth,
            &prefix,
        ) {
            break;
        }
        let ghost before = candidate_views(out@);
        push_candidate(out, &prefix, name);
        walk_bases(index, &prefix, name, out);
        proof {
            lemma_around(prefix@);
            let rest = class_walk(*index, lv, inner, around(prefix@), name@);
            let bases = base_walk(*index, index.spec_bases(prefix@), 0, name@);
            assert(candidate_views(out@) =~= before.push(candidate(prefix@, name@)) + bases);
            assert(before + (seq![candidate(prefix@, name@)] + bases + rest) =~= candidate_views(
                out@,
            ) + rest);
        }
        let to: usize = match rfind(&prefix, &sep) {
            Some(at) => at,
            None => 0,
        };
        let shorter = part(&prefix, 0, to);
        assert(shorter@ =~= around(prefix@));
        prefix = shorter;
    }
}

impl NameScope {
    pub open spec fn spec_candidates(&self, index: ClassIndex, name: Seq<char>) -> Seq<
        (Seq<char>, bool),
    > {
        candidates(index, self.spec_levels(), spelling::views(self.type_scope@), name)
    }

    /// The spellings that a name is looked up under from here, in order: in
    /// the class being lowered, its bases, and each class around it, then in
    /// each enclosing namespace, innermost first, and last at the global
    /// scope, which the flag marks.
    pub fn scope_candidates(&self, index: &ClassIndex, name: &[char]) -> (r: Vec<
        (Vec<char>, bool),
    >)
        ensures
            candidate_views(r@) == self.spec_candidates(*index, name@),
    {
        let sep = chars_of("::");
        let mut out: Vec<(Vec<char>, bool)> = Vec::new();
        if begins(name, &sep) {
            out.push((drop_prefix(name, &sep), true));
            assert(candidate_views(out@) =~= seq![(normalize::after_prefix(name@, "::"@), true)]);
            return out;
        }
        let levels = self.levels();
        let classes = texts(&self.type_scope);
        let ghost lv = naming::piece_views(levels@);
        let ghost cls = naming::piece_views(classes@);
        let ghost first = classes_walk(*index, lv, cls, cls.len() as int, name@);
        let ghost second = namespace_walk(lv, lv.len() as int, name@);
        let mut depth: usize = classes.len();
        assert(cls.len() == classes@.len());
        assert(candidate_views(out@) + first =~= first);
        while depth > 0
            invariant
                depth <= classes@.len(),
                lv == naming::piece_views(levels@),
                cls == naming::piece_views(classes@),
                candidate_views(out@) + classes_walk(*index, lv, cls, depth as int, name@) =~= first,
            decreases depth,
        {
            let ghost before = candidate_views(out@);
            walk_class(index, &levels, &classes, depth, name, &mut out);
            proof {
                let own = class_walk(*index, lv, cls.skip(depth as int), cls[depth - 1], name@);
                let rest = classes_walk(*index, lv, cls, depth - 1, name@);
                assert(before + (own + rest) =~= candidate_views(out@) + rest);
            }
            depth -= 1;
        }
        assert(candidate_views(out@) =~= first);
        let mut n: usize = levels.len();
        assert(lv.len() == levels@.len());
        while n > 0
            invariant
                n <= levels@.len(),
                lv == naming::piece_views(levels@),
                candidate_views(out@) + namespace_walk(lv, n as int, name@) =~= first + second,
            decreases n,
        {
            let ghost before = candidate_views(out@);
            let mut spelled = join_segments(&levels, n);
            append(&mut spelled, &chars_of("::"));
            append(&mut spelled, name);
            let ghost own = (scope::within(lv.take(n as int), name@), false);
            proof {
                let segs = lv.take(n as int);
                assert(segs.push(name@).drop_last() =~= segs);
                assert(spelled@ == own.0);
            }
            out.push((spelled, false));
            proof {
                let rest = namespace_walk(lv, n - 1, name@);
                assert(candidate_views(out@) =~= before.push(own));
                assert(before + (seq![own] + rest) =~= before.push(own) + rest);
            }
            n -= 1;
        }
        assert(candidate_views(out@) =~= first + second);
        let ghost before = candidate_views(out@);
        let own = part(name, 0, name.len());
        assert(own@ =~= name@);
        out.push((own, true));
        assert(candidate_views(out@) =~= before.push((name@, true)));
        out
    }
}

/// The declared class that `name` names, itself or through an alias.
pub open spec fn class_named(index: ClassIndex, name: Seq<char>) -> Option<Seq<char>> {
    let bare = normalize::after_prefix(name, "::"@);
    if index.spec_declared(bare) {
        Some(bare)
    } else {
        match index.spec_alias(bare) {
            Some(DescView::Struct { name: tag, .. }) => if index.spec_declared(tag) {
                Some(tag)
            } else {
                None
            },
            _ => None,
        }
    }
}

/// The first of the candidates, from position `k`, that names a class.
pub open spec fn first_class(index: ClassIndex, all: Seq<(Seq<char>, bool)>, k: int) -> Option<
    Seq<char>,
>
    decreases all.len() - k,
{
    if k < 0 || k >= all.len() {
        None
    } else {
        match class_named(index, all[k].0) {
            Some(cls) => Some(cls),
            None => first_class(index, all, k + 1),
        }
    }
}

/// The first of the candidates, from position `k`, that is a declared tag.
pub open spec fn first_tag(index: ClassIndex, all: Seq<(Seq<char>, bool)>, k: int) -> Option<
    Seq<char>,
>
    decreases all.len() - k,
{
    if k < 0 || k >= all.len() {
        None
    } else if index.spec_declared(all[k].0) {
        Some(all[k].0)
    } else {
        first_tag(index, all, k + 1)
    }
}

/// The first of the using directives, from position `k`, in whose namespace
/// `name` is a class.
pub open spec fn first_through(
    index: ClassIndex,
    directives: Seq<Seq<char>>,
    name: Seq<char>,
    k: int,
) -> Option<Seq<char>>
    decreases directives.len() - k,
{
    if k < 0 || k >= directives.len() {
        None
    } else {
        match class_named(index, directives[k] + "::"@ + name) {
            Some(cls) => Some(cls),
            None => first_through(index, directives, name, k + 1),
        }
    }
}

/// `name` without the enclosing namespaces it starts with, from `levels[k]` on.
pub open spec fn unprefixed(name: Seq<char>, levels: Seq<Seq<char>>, k: int) -> Seq<char>
    decreases levels.len() - k,
{
    if k < 0 || k >= levels.len() || !text::starts_with(name, levels[k] + "::"@) {
        name
    } else {
        unprefixed(name.skip((levels[k] + "::"@).len() as int), levels, k + 1)
    }
}

pub open spec fn opt_chars(v: Option<Vec<char>>) -> Option<Seq<char>> {
    match v {
        Some(s) => Some(s@),
        None => None,
    }
}

impl ClassIndex {
    /// The class a name stands for: the one declared under it, or the one an
    /// alias registered under it names. The spelling is matched whole, so
    /// `A::B::T` never lands on an unrelated namespace's `T`.
    pub fn declared_class_name(&self, name: &[char]) -> (r: Option<Vec<char>>)
        ensures
            opt_chars(r) == class_named(*self, name@),
    {
        let bare = drop_prefix(name, &chars_of("::"));
        if self.is_declared(&bare) {
            return Some(bare);
        }
        match self.resolve_alias(&bare) {
            Some(TypeDesc::Struct { name: tag, fields: _ }) => {
                let cls = chars_of(tag.as_str());
                if self.is_declared(&cls) {
                    Some(cls)
                } else {
                    None
                }
            },
            _ => None,
        }
    }
}

impl NameScope {
    pub open spec fn spec_local_alias(&self, name: Seq<char>) -> Option<DescView> {
        last_alias(self.local_aliases@, name, self.local_aliases@.len() as int)
    }

    /// The type an alias declared in an enclosing block of the current
    /// function stands for, the innermost declaration first.
    pub fn local_alias(&self, name: &[char]) -> (r: Option<&TypeDesc>)
        ensures
            match r {
                Some(d) => self.spec_local_alias(name@) == Some(d@),
                None => self.spec_local_alias(name@) is None,
            },
    {
        let wanted = string_of(name);
        let mut k: usize = self.local_aliases.len();
        while k > 0
            invariant
                k <= self.local_aliases@.len(),
                wanted@ == name@,
                self.spec_local_alias(name@) == last_alias(
                    self.local_aliases@,
                    name@,
                    k as int,
                ),
            decreases k,
        {
            if str_eq(self.local_aliases[k - 1].0.as_str(), wanted.as_str()) {
                return Some(&self.local_aliases[k - 1].1);
            }
            k -= 1;
        }
        None
    }

    pub open spec fn spec_class(&self, index: ClassIndex, name: Seq<char>) -> Option<Seq<char>> {
        match self.spec_local_alias(name) {
            Some(DescView::Struct { name: tag, .. }) => if index.spec_declared(tag) {
                Some(tag)
            } else {
                None
            },
            _ => first_class(index, self.spec_candidates(index, name), 0),
        }
    }

    /// The declared class a name spelled here stands for: through an alias of
    /// the current function, else through the scopes around.
    pub fn declared_class_in_scope(&self, index: &ClassIndex, name: &[char]) -> (r: Option<
        Vec<char>,
    >)
        ensures
            opt_chars(r) == self.spec_class(*index, name@),
    {
        match self.local_alias(name) {
            Some(TypeDesc::Struct { name: tag, fields: _ }) => {
                let cls = chars_of(tag.as_str());
                return if index.is_declared(&cls) {
                    Some(cls)
                } else {
                    None
                };
            },
            _ => {},
        }
        let all = self.scope_candidates(index, name);
        let ghost spelled = candidate_views(all@);
        let mut k: usize = 0;
        while k < all.len()
            invariant
                k <= all@.len(),
                spelled == candidate_views(all@),
                self.spec_class(*index, name@) == first_class(*index, spelled, k as int),
            decreases all@.len() - k,
        {
            assert(spelled[k as int].0 == all@[k as int].0@);
            match index.declared_class_name(&all[k].0) {
                Some(cls) => {
                    return Some(cls);
                },
                None => {},
            }
            k += 1;
        }
        None
    }

    pub open spec fn spec_tag(&self, index: ClassIndex, name: Seq<char>) -> Option<Seq<char>> {
        first_tag(index, self.spec_candidates(index, name), 0)
    }

    /// The class tag a `class` or `struct` keyword spelling names. Only a
    /// declared tag answers: a typedef cannot follow the keyword.
    pub fn declared_tag_in_scope(&self, index: &ClassIndex, name: &[char]) -> (r: Option<Vec<char>>)
        ensures
            opt_chars(r) == self.spec_tag(*index, name@),
    {
        let all = self.scope_candidates(index, name);
        let ghost spelled = candidate_views(all@);
        let mut k: usize = 0;
        while k < all.len()
            invariant
                k <= all@.len(),
                spelled == candidate_views(all@),
                self.spec_tag(*index, name@) == first_tag(*index, spelled, k as int),
            decreases all@.len() - k,
        {
            assert(spelled[k as int].0 == all@[k as int].0@);
            if index.is_declared(&all[k].0) {
                let tag = part(&all[k].0, 0, all[k].0.len());
                assert(tag@ =~= all@[k as int].0@);
                return Some(tag);
            }
            k += 1;
        }
        None
    }

    pub open spec fn spec_qualified_class(&self, index: ClassIndex, name: Seq<char>) -> Seq<char> {
        match self.spec_class(index, name) {
            Some(cls) => cls,
            None => if text::starts_with(name, "::"@) {
                normalize::after_prefix(name, "::"@)
            } else if text::contains(name, "::"@) {
                name
            } else {
                scope::within(self.spec_levels(), name)
            },
        }
    }

    /// A type name in the innermost namespace, unless it is qualified already.
    pub fn qualify_type_name(&self, name: &[char]) -> (r: Vec<char>)
        ensures
            r@ == if text::contains(name@, "::"@) {
                name@
            } else {
                scope::within(self.spec_levels(), name@)
            },
    {
        if holds(name, &chars_of("::")) {
            let own = part(name, 0, name.len());
            assert(own@ =~= name@);
            own
        } else {
            chars_of(self.qualify(string_of(name).as_str()).as_str())
        }
    }

    /// The class a name spelled here names: the declared one, else the
    /// spelling in the innermost namespace. Tags are registered without the
    /// global-scope prefix, so a `::T` nothing declares drops it too.
    pub fn qualify_class_name(&self, index: &ClassIndex, name: &[char]) -> (r: Vec<char>)
        ensures
            r@ == self.spec_qualified_class(*index, name@),
    {
        match self.declared_class_in_scope(index, name) {
            Some(cls) => cls,
            None => {
                let sep = chars_of("::");
                if begins(name, &sep) {
                    drop_prefix(name, &sep)
                } else {
                    self.qualify_type_name(name)
                }
            },
        }
    }

    pub open spec fn spec_class_seen(&self, index: ClassIndex, name: Seq<char>) -> Option<
        Seq<char>,
    > {
        match self.spec_class(index, name) {
            Some(cls) => Some(cls),
            None => first_through(
                index,
                spelling::views(self.using_nss@),
                unprefixed(name, self.spec_levels(), 0),
                0,
            ),
        }
    }

    /// The declared class a name stands for where a `using namespace`
    /// directive is followed too: a base clause, and the owner of a member
    /// defined outside its class.
    pub fn class_seen_from(&self, index: &ClassIndex, name: &[char]) -> (r: Option<Vec<char>>)
        ensures
            opt_chars(r) == self.spec_class_seen(*index, name@),
    {
        match self.declared_class_in_scope(index, name) {
            Some(cls) => {
                return Some(cls);
            },
            None => {},
        }
        let sep = chars_of("::");
        let levels = self.levels();
        let ghost lv = naming::piece_views(levels@);
        let mut bare = part(name, 0, name.len());
        assert(bare@ =~= name@);
        let mut k: usize = 0;
        let mut stopped = false;
        while k < levels.len() && !stopped
            invariant
                k <= levels@.len(),
                sep@ == "::"@,
                lv == naming::piece_views(levels@),
                unprefixed(name@, lv, 0) == if stopped {
                    bare@
                } else {
                    unprefixed(bare@, lv, k as int)
                },
            decreases levels@.len() - k + if stopped {
                0int
            } else {
                1
            },
        {
            let mut head = part(&levels[k], 0, levels[k].len());
            assert(head@ =~= lv[k as int]);
            append(&mut head, &sep);
            if begins(&bare, &head) {
                let rest = part(&bare, head.len(), bare.len());
                assert(rest@ =~= bare@.skip(head@.len() as int));
                bare = rest;
                k += 1;
            } else {
                stopped = true;
            }
        }
        let directives = texts(&self.using_nss);
        let ghost dv = naming::piece_views(directives@);
        let mut i: usize = 0;
        while i < directives.len()
            invariant
                i <= directives@.len(),
                sep@ == "::"@,
                dv == naming::piece_views(directives@),
                dv == spelling::views(self.using_nss@),
                self.spec_class(*index, name@) is None,
                bare@ == unprefixed(name@, self.spec_levels(), 0),
                first_through(*index, dv, bare@, 0) == first_through(*index, dv, bare@, i as int),
            decreases directives@.len() - i,
        {
            let mut spelled = part(&directives[i], 0, directives[i].len());
            assert(spelled@ =~= dv[i as int]);
            append(&mut spelled, &sep);
            append(&mut spelled, &bare);
            match index.declared_class_name(&spelled) {
                Some(cls) => {
                    return Some(cls);
                },
                None => {},
            }
            i += 1;
        }
        None
    }
}

} // verus!
