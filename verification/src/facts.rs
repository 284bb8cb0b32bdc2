//! What units state of classes, taken over into the program once each.

use crate::arrows::ArrowReturn;
use crate::ir::{copy_desc, desc_eq, DescView, FileId};
use crate::merge::FileMap;
use crate::receivers::TemplateBase;
use crate::registration::ClassEntry;
use crate::scope;
use crate::templates::TemplateReturn;
use crate::text::{chars_of, str_eq, string_of};
use vstd::prelude::*;

verus! {

/// Something a unit states, which the program holds once.
pub trait Fact: Sized {
    type Stated;

    /// What is stated.
    spec fn stated(&self) -> Self::Stated;

    /// Whether both state the same.
    fn same(&self, other: &Self) -> (r: bool)
        ensures
            r == (self.stated() == other.stated()),
    ;

    /// The same statement once more.
    fn again(&self) -> (r: Self)
        ensures
            r.stated() == self.stated(),
    ;
}

pub open spec fn all_stated<T: Fact>(v: Seq<T>) -> Seq<T::Stated> {
    v.map_values(|x: T| x.stated())
}

fn holds_fact<T: Fact>(list: &Vec<T>, x: &T) -> (r: bool)
    ensures
        r == all_stated(list@).contains(x.stated()),
{
    let mut k: usize = 0;
    while k < list.len()
        invariant
            k <= list@.len(),
            forall|j: int| 0 <= j < k ==> #[trigger] all_stated(list@)[j] != x.stated(),
        decreases list@.len() - k,
    {
        assert(all_stated(list@)[k as int] == list@[k as int].stated());
        if list[k].same(x) {
            return true;
        }
        k += 1;
    }
    false
}

/// Take over what the list does not state yet.
pub fn add_facts<T: Fact>(list: &mut Vec<T>, more: &Vec<T>)
    ensures
        all_stated(final(list)@) == scope::joined_in(all_stated(old(list)@), all_stated(more@)),
{
    let ghost first = all_stated(list@);
    let ghost all = all_stated(more@);
    let mut k: usize = 0;
    while k < more.len()
        invariant
            k <= more@.len(),
            all == all_stated(more@),
            all_stated(list@) == scope::joined_in(first, all.take(k as int)),
        decreases more@.len() - k,
    {
        proof {
            assert(all.take(k + 1).drop_last() =~= all.take(k as int));
            assert(all.take(k + 1).last() == all[k as int]);
            assert(all[k as int] == more@[k as int].stated());
        }
        if !holds_fact(list, &more[k]) {
            let ghost before = list@;
            list.push(more[k].again());
            assert(all_stated(list@) =~= all_stated(before).push(all[k as int]));
        }
        k += 1;
    }
    assert(all.take(k as int) =~= all);
}

/// A class derives from a base.
#[derive(Debug, PartialEq, Eq)]
pub struct Inheritance {
    pub derived: String,
    pub base: String,
}

impl Fact for Inheritance {
    type Stated = (Seq<char>, Seq<char>);

    open spec fn stated(&self) -> (Seq<char>, Seq<char>) {
        (self.derived@, self.base@)
    }

    fn same(&self, other: &Self) -> (r: bool) {
        str_eq(self.derived.as_str(), other.derived.as_str()) && str_eq(
            self.base.as_str(),
            other.base.as_str(),
        )
    }

    fn again(&self) -> (r: Self) {
        Inheritance { derived: self.derived.clone(), base: self.base.clone() }
    }
}

/// A name: of a class that is final, or of a namespace.
#[derive(Debug, PartialEq, Eq)]
pub struct Named {
    pub name: String,
}

impl Fact for Named {
    type Stated = Seq<char>;

    open spec fn stated(&self) -> Seq<char> {
        self.name@
    }

    fn same(&self, other: &Self) -> (r: bool) {
        str_eq(self.name.as_str(), other.name.as_str())
    }

    fn again(&self) -> (r: Self) {
        Named { name: self.name.clone() }
    }
}

/// A class in an anonymous namespace of a file, and where it is stated of one
/// of its bases, the base.
#[derive(Debug, PartialEq, Eq)]
pub struct FileClass {
    pub name: String,
    pub file: FileId,
    pub base: Option<String>,
}

impl Fact for FileClass {
    type Stated = (Seq<char>, FileId, Option<Seq<char>>);

    open spec fn stated(&self) -> (Seq<char>, FileId, Option<Seq<char>>) {
        (self.name@, self.file, scope::opt_view(self.base))
    }

    fn same(&self, other: &Self) -> (r: bool) {
        self.file == other.file && str_eq(self.name.as_str(), other.name.as_str()) && match (
            &self.base,
            &other.base,
        ) {
            (Some(a), Some(b)) => str_eq(a.as_str(), b.as_str()),
            (None, None) => true,
            _ => false,
        }
    }

    fn again(&self) -> (r: Self) {
        FileClass {
            name: self.name.clone(),
            file: self.file,
            base: match &self.base {
                Some(b) => Some(b.clone()),
                None => None,
            },
        }
    }
}

/// What an `operator->` is stated to return.
pub struct ArrowView {
    pub class_name: Seq<char>,
    pub target: DescView,
    pub parameter: Option<usize>,
    pub pointer: bool,
}

fn same_position(a: Option<usize>, b: Option<usize>) -> (r: bool)
    ensures
        r == (a == b),
{
    match (a, b) {
        (Some(x), Some(y)) => x == y,
        (None, None) => true,
        _ => false,
    }
}

impl Fact for ArrowReturn {
    type Stated = ArrowView;

    open spec fn stated(&self) -> ArrowView {
        ArrowView {
            class_name: self.class_name@,
            target: self.target@,
            parameter: self.parameter,
            pointer: self.pointer,
        }
    }

    fn same(&self, other: &Self) -> (r: bool) {
        str_eq(self.class_name.as_str(), other.class_name.as_str()) && desc_eq(
            &self.target,
            &other.target,
        ) && same_position(self.parameter, other.parameter) && self.pointer == other.pointer
    }

    fn again(&self) -> (r: Self) {
        ArrowReturn {
            class_name: self.class_name.clone(),
            target: copy_desc(&self.target),
            parameter: self.parameter,
            pointer: self.pointer,
        }
    }
}

/// What a member of a class template is stated to return.
#[derive(Debug, PartialEq, Eq)]
pub struct MemberReturn {
    pub class_name: String,
    pub member: String,
    pub fact: TemplateReturn,
}

impl Fact for MemberReturn {
    type Stated = (Seq<char>, Seq<char>, TemplateReturn);

    open spec fn stated(&self) -> (Seq<char>, Seq<char>, TemplateReturn) {
        (self.class_name@, self.member@, self.fact)
    }

    fn same(&self, other: &Self) -> (r: bool) {
        str_eq(self.class_name.as_str(), other.class_name.as_str()) && str_eq(
            self.member.as_str(),
            other.member.as_str(),
        ) && self.fact.arity == other.fact.arity && same_position(
            self.fact.parameter,
            other.fact.parameter,
        ) && self.fact.pointer_depth == other.fact.pointer_depth
    }

    fn again(&self) -> (r: Self) {
        MemberReturn {
            class_name: self.class_name.clone(),
            member: self.member.clone(),
            fact: self.fact,
        }
    }
}

/// A base that a class spells with template arguments.
#[derive(Debug, PartialEq, Eq)]
pub struct ClassBase {
    pub class_name: String,
    pub base: TemplateBase,
}

impl Fact for ClassBase {
    type Stated = (Seq<char>, Seq<char>, Seq<char>, bool);

    open spec fn stated(&self) -> (Seq<char>, Seq<char>, Seq<char>, bool) {
        (
            self.class_name@,
            self.base.spelling@,
            self.base.declaration_scope@,
            self.base.is_dependent,
        )
    }

    fn same(&self, other: &Self) -> (r: bool) {
        str_eq(self.class_name.as_str(), other.class_name.as_str()) && str_eq(
            self.base.spelling.as_str(),
            other.base.spelling.as_str(),
        ) && str_eq(
            self.base.declaration_scope.as_str(),
            other.base.declaration_scope.as_str(),
        ) && self.base.is_dependent == other.base.is_dependent
    }

    fn again(&self) -> (r: Self) {
        ClassBase {
            class_name: self.class_name.clone(),
            base: TemplateBase {
                spelling: self.base.spelling.clone(),
                declaration_scope: self.base.declaration_scope.clone(),
                is_dependent: self.base.is_dependent,
            },
        }
    }
}

/// What is stated of classes.
#[derive(Debug, PartialEq, Eq)]
pub struct ClassFacts {
    /// How many types without a name have been named.
    pub anon_types: u32,
    pub inheritance: Vec<Inheritance>,
    pub template_bases: Vec<ClassBase>,
    pub arrow_returns: Vec<ArrowReturn>,
    pub member_returns: Vec<MemberReturn>,
    pub final_classes: Vec<Named>,
    pub namespaces: Vec<Named>,
    pub anonymous_classes: Vec<FileClass>,
    pub anonymous_final_classes: Vec<FileClass>,
    pub anonymous_bases: Vec<FileClass>,
}

pub open spec fn class_in(c: FileClass, map: FileMap) -> (Seq<char>, FileId, Option<Seq<char>>) {
    (c.name@, map.spec_of(c.file), scope::opt_view(c.base))
}

pub open spec fn classes_in(v: Seq<FileClass>, map: FileMap) -> Seq<
    (Seq<char>, FileId, Option<Seq<char>>),
> {
    v.map_values(|c: FileClass| class_in(c, map))
}

fn placed_classes(v: &Vec<FileClass>, map: &FileMap) -> (r: Vec<FileClass>)
    ensures
        all_stated(r@) == classes_in(v@, *map),
{
    let ghost all = classes_in(v@, *map);
    let mut out: Vec<FileClass> = Vec::new();
    let mut k: usize = 0;
    while k < v.len()
        invariant
            k <= v@.len(),
            all == classes_in(v@, *map),
            all_stated(out@) == all.take(k as int),
        decreases v@.len() - k,
    {
        let ghost before = out@;
        let mut own = v[k].again();
        own.file = map.of(v[k].file);
        out.push(own);
        proof {
            assert(all[k as int] == own.stated());
            assert(all_stated(out@) =~= all_stated(before).push(own.stated()));
            assert(all.take(k + 1) =~= all.take(k as int).push(all[k as int]));
        }
        k += 1;
    }
    assert(all.take(k as int) =~= all);
    out
}

impl ClassFacts {
    /// `self` is `before` with what the unit states taken over.
    pub open spec fn is_joined(&self, before: &ClassFacts, unit: &ClassFacts, map: FileMap) -> bool {
        &&& self.anon_types == if before.anon_types < unit.anon_types {
            unit.anon_types
        } else {
            before.anon_types
        }
        &&& all_stated(self.inheritance@) == scope::joined_in(
            all_stated(before.inheritance@),
            all_stated(unit.inheritance@),
        )
        &&& all_stated(self.template_bases@) == scope::joined_in(
            all_stated(before.template_bases@),
            all_stated(unit.template_bases@),
        )
        &&& all_stated(self.arrow_returns@) == scope::joined_in(
            all_stated(before.arrow_returns@),
            all_stated(unit.arrow_returns@),
        )
        &&& all_stated(self.member_returns@) == scope::joined_in(
            all_stated(before.member_returns@),
            all_stated(unit.member_returns@),
        )
        &&& all_stated(self.final_classes@) == scope::joined_in(
            all_stated(before.final_classes@),
            all_stated(unit.final_classes@),
        )
        &&& all_stated(self.namespaces@) == scope::joined_in(
            all_stated(before.namespaces@),
            all_stated(unit.namespaces@),
        )
        &&& all_stated(self.anonymous_classes@) == scope::joined_in(
            all_stated(before.anonymous_classes@),
            classes_in(unit.anonymous_classes@, map),
        )
        &&& all_stated(self.anonymous_final_classes@) == scope::joined_in(
            all_stated(before.anonymous_final_classes@),
            classes_in(unit.anonymous_final_classes@, map),
        )
        &&& all_stated(self.anonymous_bases@) == scope::joined_in(
            all_stated(before.anonymous_bases@),
            classes_in(unit.anonymous_bases@, map),
        )
    }

    /// The two state the same of classes.
    pub open spec fn states_what(&self, other: &ClassFacts) -> bool {
        &&& self.anon_types == other.anon_types
        &&& all_stated(self.inheritance@) == all_stated(other.inheritance@)
        &&& all_stated(self.template_bases@) == all_stated(other.template_bases@)
        &&& all_stated(self.arrow_returns@) == all_stated(other.arrow_returns@)
        &&& all_stated(self.member_returns@) == all_stated(other.member_returns@)
        &&& all_stated(self.final_classes@) == all_stated(other.final_classes@)
        &&& all_stated(self.namespaces@) == all_stated(other.namespaces@)
        &&& all_stated(self.anonymous_classes@) == all_stated(other.anonymous_classes@)
        &&& all_stated(self.anonymous_final_classes@) == all_stated(
            other.anonymous_final_classes@,
        )
        &&& all_stated(self.anonymous_bases@) == all_stated(other.anonymous_bases@)
    }

    /// Take over what a unit states, in whatever mode it is merged: every mode
    /// brings its types along.
    pub fn join(&mut self, unit: &ClassFacts, map: &FileMap)
        ensures
            final(self).is_joined(old(self), unit, *map),
    {
        if self.anon_types < unit.anon_types {
            self.anon_types = unit.anon_types;
        }
        add_facts(&mut self.inheritance, &unit.inheritance);
        add_facts(&mut self.template_bases, &unit.template_bases);
        add_facts(&mut self.arrow_returns, &unit.arrow_returns);
        add_facts(&mut self.member_returns, &unit.member_returns);
        add_facts(&mut self.final_classes, &unit.final_classes);
        add_facts(&mut self.namespaces, &unit.namespaces);
        add_facts(&mut self.anonymous_classes, &placed_classes(&unit.anonymous_classes, map));
        add_facts(
            &mut self.anonymous_final_classes,
            &placed_classes(&unit.anonymous_final_classes, map),
        );
        add_facts(&mut self.anonymous_bases, &placed_classes(&unit.anonymous_bases, map));
    }
}

/// The bases of a class that are templates with arguments, as they are recorded:
/// of the first `k`.
pub open spec fn template_facts(
    entry: ClassEntry,
    scope: Seq<char>,
    dependent: Seq<bool>,
    k: int,
) -> Seq<(Seq<char>, Seq<char>, Seq<char>, bool)>
    decreases k,
{
    if k <= 0 {
        seq![]
    } else {
        let before = template_facts(entry, scope, dependent, k - 1);
        match entry.bases@[k - 1].template {
            Some(spelling) => before.push(
                (entry.name@, spelling@, scope, dependent[k - 1]),
            ),
            None => before,
        }
    }
}

/// The bases of a class, as they are recorded: of the first `k`.
pub open spec fn base_facts(entry: ClassEntry, k: int) -> Seq<(Seq<char>, Seq<char>)> {
    Seq::new(
        if k > 0 {
            k as nat
        } else {
            0
        },
        |i: int| (entry.name@, entry.bases@[i].class@),
    )
}

/// The bases of a class of the file alone, as they are recorded: of the first `k`.
pub open spec fn file_base_facts(entry: ClassEntry, file: FileId, k: int) -> Seq<
    (Seq<char>, FileId, Option<Seq<char>>),
> {
    Seq::new(
        if entry.is_anonymous && k > 0 {
            k as nat
        } else {
            0
        },
        |i: int| (entry.name@, file, Some(entry.bases@[i].class@)),
    )
}

impl ClassFacts {
    /// Record what a specifier says of its class: that it is known to its file
    /// alone, that it is final, and its bases. `scope` is where it is declared,
    /// and `dependent` says of each base whether its arguments depend on a
    /// parameter of a template around.
    pub fn record_class(
        &mut self,
        entry: &ClassEntry,
        file: FileId,
        scope: &str,
        dependent: &Vec<bool>,
    )
        requires
            dependent@.len() == entry.bases@.len(),
        ensures
            all_stated(final(self).anonymous_classes@) == all_stated(
                old(self).anonymous_classes@,
            ) + if entry.is_anonymous {
                seq![(entry.name@, file, None)]
            } else {
                seq![]
            },
            all_stated(final(self).anonymous_final_classes@) == all_stated(
                old(self).anonymous_final_classes@,
            ) + if entry.is_anonymous && entry.is_final {
                seq![(entry.name@, file, None)]
            } else {
                seq![]
            },
            all_stated(final(self).final_classes@) == all_stated(old(self).final_classes@)
                + if entry.is_final && !entry.is_anonymous {
                seq![entry.name@]
            } else {
                seq![]
            },
            all_stated(final(self).template_bases@) == all_stated(old(self).template_bases@)
                + template_facts(*entry, scope@, dependent@, entry.bases@.len() as int),
            all_stated(final(self).anonymous_bases@) == all_stated(old(self).anonymous_bases@)
                + file_base_facts(*entry, file, entry.bases@.len() as int),
            all_stated(final(self).inheritance@) == all_stated(old(self).inheritance@)
                + base_facts(*entry, entry.bases@.len() as int),
            *final(self) == (ClassFacts {
                anonymous_classes: final(self).anonymous_classes,
                anonymous_final_classes: final(self).anonymous_final_classes,
                final_classes: final(self).final_classes,
                template_bases: final(self).template_bases,
                anonymous_bases: final(self).anonymous_bases,
                inheritance: final(self).inheritance,
                ..*old(self)
            }),
    {
        if entry.is_anonymous {
            let own = FileClass { name: entry.name.clone(), file, base: None };
            self.anonymous_classes.push(own);
            assert(all_stated(self.anonymous_classes@) =~= all_stated(
                old(self).anonymous_classes@,
            ) + seq![own.stated()]);
        } else {
            assert(all_stated(self.anonymous_classes@) =~= all_stated(
                old(self).anonymous_classes@,
            ) + seq![]);
        }
        if entry.is_final && entry.is_anonymous {
            let own = FileClass { name: entry.name.clone(), file, base: None };
            self.anonymous_final_classes.push(own);
            assert(all_stated(self.anonymous_final_classes@) =~= all_stated(
                old(self).anonymous_final_classes@,
            ) + seq![own.stated()]);
        } else {
            assert(all_stated(self.anonymous_final_classes@) =~= all_stated(
                old(self).anonymous_final_classes@,
            ) + seq![]);
        }
        if entry.is_final && !entry.is_anonymous {
            let own = Named { name: entry.name.clone() };
            self.final_classes.push(own);
            assert(all_stated(self.final_classes@) =~= all_stated(old(self).final_classes@)
                + seq![own.stated()]);
        } else {
            assert(all_stated(self.final_classes@) =~= all_stated(old(self).final_classes@)
                + seq![]);
        }
        self.record_bases(entry, file, scope, dependent);
    }

    fn record_bases(
        &mut self,
        entry: &ClassEntry,
        file: FileId,
        scope: &str,
        dependent: &Vec<bool>,
    )
        requires
            dependent@.len() == entry.bases@.len(),
        ensures
            all_stated(final(self).template_bases@) == all_stated(old(self).template_bases@)
                + template_facts(*entry, scope@, dependent@, entry.bases@.len() as int),
            all_stated(final(self).anonymous_bases@) == all_stated(old(self).anonymous_bases@)
                + file_base_facts(*entry, file, entry.bases@.len() as int),
            all_stated(final(self).inheritance@) == all_stated(old(self).inheritance@)
                + base_facts(*entry, entry.bases@.len() as int),
            *final(self) == (ClassFacts {
                template_bases: final(self).template_bases,
                anonymous_bases: final(self).anonymous_bases,
                inheritance: final(self).inheritance,
                ..*old(self)
            }),
    {
        let ghost templates = all_stated(self.template_bases@);
        let ghost file_bases = all_stated(self.anonymous_bases@);
        let ghost pairs = all_stated(self.inheritance@);
        let mut k: usize = 0;
        assert(templates + seq![] =~= templates);
        assert(file_bases + file_base_facts(*entry, file, 0) =~= file_bases);
        assert(pairs + base_facts(*entry, 0) =~= pairs);
        while k < entry.bases.len()
            invariant
                k <= entry.bases@.len(),
                dependent@.len() == entry.bases@.len(),
                all_stated(self.template_bases@) == templates + template_facts(
                    *entry,
                    scope@,
                    dependent@,
                    k as int,
                ),
                all_stated(self.anonymous_bases@) == file_bases + file_base_facts(
                    *entry,
                    file,
                    k as int,
                ),
                all_stated(self.inheritance@) == pairs + base_facts(*entry, k as int),
                *self == (ClassFacts {
                    template_bases: self.template_bases,
                    anonymous_bases: self.anonymous_bases,
                    inheritance: self.inheritance,
                    ..*old(self)
                }),
            decreases entry.bases@.len() - k,
        {
            let base = &entry.bases[k];
            match &base.template {
                Some(spelling) => {
                    let ghost before = self.template_bases@;
                    let own = ClassBase {
                        class_name: entry.name.clone(),
                        base: TemplateBase {
                            spelling: spelling.clone(),
                            declaration_scope: string_of(&chars_of(scope)),
                            is_dependent: dependent[k],
                        },
                    };
                    self.template_bases.push(own);
                    assert(all_stated(self.template_bases@) =~= all_stated(before).push(
                        own.stated(),
                    ));
                    assert(all_stated(self.template_bases@) =~= templates + template_facts(
                        *entry,
                        scope@,
                        dependent@,
                        k + 1,
                    ));
                },
                None => {},
            }
            if entry.is_anonymous {
                let ghost before = self.anonymous_bases@;
                let own = FileClass {
                    name: entry.name.clone(),
                    file,
                    base: Some(base.class.clone()),
                };
                self.anonymous_bases.push(own);
                assert(all_stated(self.anonymous_bases@) =~= all_stated(before).push(
                    own.stated(),
                ));
            }
            assert(all_stated(self.anonymous_bases@) =~= file_bases + file_base_facts(
                *entry,
                file,
                k + 1,
            ));
            let ghost before = self.inheritance@;
            let own = Inheritance { derived: entry.name.clone(), base: base.class.clone() };
            self.inheritance.push(own);
            assert(all_stated(self.inheritance@) =~= all_stated(before).push(own.stated()));
            assert(all_stated(self.inheritance@) =~= pairs + base_facts(*entry, k + 1));
            k += 1;
        }
    }
}

/// Taking a unit's facts over again changes nothing.
pub proof fn law_facts_are_taken_over_once<T>(list: Seq<T>, more: Seq<T>)
    ensures
        scope::joined_in(scope::joined_in(list, more), more) == scope::joined_in(list, more),
{
    let all = scope::joined_in(list, more);
    lemma_joined_holds(list, more);
    lemma_held_stays(all, more);
}

proof fn lemma_joined_holds<T>(list: Seq<T>, more: Seq<T>)
    ensures
        forall|x: T| more.contains(x) ==> #[trigger] scope::joined_in(list, more).contains(x),
        forall|x: T| list.contains(x) ==> #[trigger] scope::joined_in(list, more).contains(x),
    decreases more.len(),
{
    if more.len() > 0 {
        lemma_joined_holds(list, more.drop_last());
        let before = scope::joined_in(list, more.drop_last());
        let all = scope::joined_in(list, more);
        assert forall|x: T| before.contains(x) implies all.contains(x) by {
            if all != before {
                let k = choose|k: int| 0 <= k < before.len() && before[k] == x;
                assert(all[k] == x);
            }
        }
        assert(all.contains(more.last())) by {
            if !before.contains(more.last()) {
                assert(all[before.len() as int] == more.last());
            }
        }
        assert forall|x: T| more.contains(x) implies #[trigger] all.contains(x) by {
            let k = choose|k: int| 0 <= k < more.len() && more[k] == x;
            if k < more.len() - 1 {
                assert(more.drop_last()[k] == x);
                assert(more.drop_last().contains(x));
                assert(before.contains(x));
            }
        }
        assert forall|x: T| list.contains(x) implies #[trigger] all.contains(x) by {
            assert(before.contains(x));
        }
    }
}

proof fn lemma_held_stays<T>(all: Seq<T>, more: Seq<T>)
    requires
        forall|x: T| more.contains(x) ==> #[trigger] all.contains(x),
    ensures
        scope::joined_in(all, more) == all,
    decreases more.len(),
{
    if more.len() > 0 {
        assert forall|x: T| more.drop_last().contains(x) implies #[trigger] all.contains(x) by {
            let k = choose|k: int|
                0 <= k < more.drop_last().len() && more.drop_last()[k] == x;
            assert(more[k] == x);
            assert(more.contains(x));
        }
        lemma_held_stays(all, more.drop_last());
        assert(more.contains(more.last())) by {
            assert(more[more.len() - 1] == more.last());
        }
    }
}

} // verus!
