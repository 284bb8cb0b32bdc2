//! Classes and their bases: the order in which members are looked up, and the
//! members and fields found that way.

use crate::ir;
use crate::ir::{copy_desc, DescView, FnId, TypeDesc};
use crate::lookup;
use crate::lookup::ClassIndex;
use crate::methods;
use crate::methods::{MethodKind, MethodView};
use crate::naming;
use crate::scope;
use crate::spelling;
use crate::text::{chars_of, part, same, str_eq, string_of};
use vstd::prelude::*;

verus! {

/// How many bases the table lists in all.
pub open spec fn base_count(bases: Seq<(String, Vec<String>)>) -> nat
    decreases bases.len(),
{
    if bases.len() == 0 {
        0
    } else {
        base_count(bases.drop_last()) + bases.last().1@.len()
    }
}

/// The classes reached from those listed: the bases of each, from position `i`
/// on, behind the ones that are listed already.
pub open spec fn reached(x: ClassIndex, order: Seq<Seq<char>>, i: int, fuel: nat) -> Seq<Seq<char>>
    decreases fuel,
{
    if fuel == 0 || i < 0 || i >= order.len() {
        order
    } else {
        reached(
            x,
            scope::joined_in(order, x.spec_bases(order[i])),
            i + 1,
            (fuel - 1) as nat,
        )
    }
}

/// A class and its bases, nearest first, each once.
pub open spec fn ancestry(x: ClassIndex, cls: Seq<char>) -> Seq<Seq<char>> {
    reached(x, seq![cls], 0, base_count(x.bases@) + 1)
}

fn is_known(list: &Vec<Vec<char>>, name: &[char]) -> (r: bool)
    ensures
        r == naming::piece_views(list@).contains(name@),
{
    let mut k: usize = 0;
    while k < list.len()
        invariant
            k <= list@.len(),
            forall|j: int| 0 <= j < k ==> #[trigger] naming::piece_views(list@)[j] != name@,
        decreases list@.len() - k,
    {
        assert(naming::piece_views(list@)[k as int] == list@[k as int]@);
        if same(&list[k], name) {
            return true;
        }
        k += 1;
    }
    false
}

fn join_in(list: &mut Vec<Vec<char>>, more: Vec<Vec<char>>)
    ensures
        naming::piece_views(final(list)@) == scope::joined_in(
            naming::piece_views(old(list)@),
            naming::piece_views(more@),
        ),
{
    let ghost first = naming::piece_views(list@);
    let ghost all = naming::piece_views(more@);
    let mut k: usize = 0;
    assert(all.take(0) =~= seq![]);
    while k < more.len()
        invariant
            k <= more@.len(),
            all == naming::piece_views(more@),
            naming::piece_views(list@) == scope::joined_in(first, all.take(k as int)),
        decreases more@.len() - k,
    {
        let ghost before = list@;
        proof {
            assert(all.take(k + 1).drop_last() =~= all.take(k as int));
            assert(all.take(k + 1).last() == more@[k as int]@);
        }
        if !is_known(list, &more[k]) {
            let own = part(&more[k], 0, more[k].len());
            assert(own@ =~= more@[k as int]@);
            list.push(own);
            assert(naming::piece_views(list@) =~= naming::piece_views(before).push(own@));
        }
        k += 1;
    }
    assert(all.take(k as int) =~= all);
}

proof fn lemma_joined_in<T>(list: Seq<T>, more: Seq<T>)
    ensures
        list.is_prefix_of(scope::joined_in(list, more)),
        list.no_duplicates() ==> scope::joined_in(list, more).no_duplicates(),
        forall|x: T|
            #![trigger scope::joined_in(list, more).contains(x)]
            scope::joined_in(list, more).contains(x) <==> list.contains(x) || more.contains(x),
    decreases more.len(),
{
    if more.len() == 0 {
        assert(forall|x: T| !more.contains(x));
    } else {
        let before = scope::joined_in(list, more.drop_last());
        lemma_joined_in(list, more.drop_last());
        let after = scope::joined_in(list, more);
        let last = more.last();
        assert forall|x: T|
            #![trigger after.contains(x)]
            after.contains(x) <==> list.contains(x) || more.contains(x) by {
            assert(more =~= more.drop_last().push(last));
            if more.contains(x) {
                let k = choose|k: int| 0 <= k < more.len() && more[k] == x;
                if k < more.len() - 1 {
                    assert(more.drop_last()[k] == x);
                    assert(more.drop_last().contains(x));
                } else {
                    assert(x == last);
                }
            }
            if more.drop_last().contains(x) {
                let k = choose|k: int|
                    0 <= k < more.drop_last().len() && more.drop_last()[k] == x;
                assert(more[k] == x);
            }
            assert(more[more.len() - 1] == last);
            if before.contains(last) {
                assert(after == before);
            } else {
                assert(after == before.push(last));
                if after.contains(x) {
                    let k = choose|k: int| 0 <= k < after.len() && after[k] == x;
                    if k < before.len() {
                        assert(before[k] == x);
                    }
                }
                if before.contains(x) {
                    let k = choose|k: int| 0 <= k < before.len() && before[k] == x;
                    assert(after[k] == x);
                }
                assert(after[before.len() as int] == last);
            }
        }
    }
}

/// Every base of the first `i` classes is listed.
pub open spec fn closed_upto(x: ClassIndex, order: Seq<Seq<char>>, i: int) -> bool {
    forall|k: int, b: Seq<char>|
        0 <= k < i && k < order.len() && #[trigger] x.spec_bases(order[k]).contains(b)
            ==> order.contains(b)
}

/// The names that the table lists as bases.
pub open spec fn all_bases(bases: Seq<(String, Vec<String>)>) -> Set<Seq<char>>
    decreases bases.len(),
{
    if bases.len() == 0 {
        Set::empty()
    } else {
        all_bases(bases.drop_last()).union(spelling::views(bases.last().1@).to_set())
    }
}

proof fn lemma_all_bases(bases: Seq<(String, Vec<String>)>)
    ensures
        all_bases(bases).finite(),
        all_bases(bases).len() <= base_count(bases),
        forall|i: int, b: Seq<char>|
            0 <= i < bases.len() && #[trigger] spelling::views(bases[i].1@).contains(b)
                ==> all_bases(bases).contains(b),
    decreases bases.len(),
{
    if bases.len() > 0 {
        lemma_all_bases(bases.drop_last());
        let before = all_bases(bases.drop_last());
        let own = spelling::views(bases.last().1@);
        own.lemma_cardinality_of_set();
        vstd::set_lib::lemma_len_union(before, own.to_set());
        assert forall|i: int, b: Seq<char>|
            0 <= i < bases.len() && #[trigger] spelling::views(bases[i].1@).contains(
                b,
            ) implies all_bases(bases).contains(b) by {
            if i < bases.len() - 1 {
                assert(bases.drop_last()[i] == bases[i]);
            } else {
                assert(own.to_set().contains(b));
            }
        }
    }
}

proof fn lemma_bases_are_listed(bases: Seq<(String, Vec<String>)>, cls: Seq<char>, k: int)
    requires
        0 <= k,
    ensures
        forall|b: Seq<char>|
            #[trigger] lookup::bases_from(bases, cls, k).contains(b) ==> all_bases(bases).contains(b),
    decreases bases.len() - k,
{
    lemma_all_bases(bases);
    if k < bases.len() {
        if bases[k].0@ == cls {
            assert forall|b: Seq<char>| #[trigger] lookup::bases_from(bases, cls, k).contains(
                b,
            ) implies all_bases(bases).contains(b) by {
                assert(spelling::views(bases[k].1@).contains(b));
            }
        } else {
            lemma_bases_are_listed(bases, cls, k + 1);
            assert(lookup::bases_from(bases, cls, k) == lookup::bases_from(bases, cls, k + 1));
        }
    } else {
        assert(lookup::bases_from(bases, cls, k) =~= seq![]);
    }
}

/// What holds while a hierarchy is walked: nothing is listed twice, everything
/// listed is `cls` or a base, and what was passed over is closed.
spec fn walking(x: ClassIndex, cls: Seq<char>, order: Seq<Seq<char>>, i: int) -> bool {
    &&& order.no_duplicates()
    &&& 0 <= i <= order.len()
    &&& order.len() > 0 && order[0] == cls
    &&& forall|b: Seq<char>|
        #[trigger] order.contains(b) ==> b == cls || all_bases(x.bases@).contains(b)
    &&& closed_upto(x, order, i)
}

proof fn lemma_walking_is_bounded(x: ClassIndex, cls: Seq<char>, order: Seq<Seq<char>>, i: int)
    requires
        walking(x, cls, order, i),
    ensures
        order.len() <= base_count(x.bases@) + 1,
{
    lemma_all_bases(x.bases@);
    order.unique_seq_to_set();
    let all = all_bases(x.bases@).insert(cls);
    assert(order.to_set().subset_of(all)) by {
        assert forall|b: Seq<char>| order.to_set().contains(b) implies all.contains(b) by {
            assert(order.contains(b));
        }
    }
    vstd::set_lib::lemma_len_subset(order.to_set(), all);
}

proof fn lemma_walk_step(x: ClassIndex, cls: Seq<char>, order: Seq<Seq<char>>, i: int)
    requires
        walking(x, cls, order, i),
        i < order.len(),
    ensures
        walking(x, cls, scope::joined_in(order, x.spec_bases(order[i])), i + 1),
        order.is_prefix_of(scope::joined_in(order, x.spec_bases(order[i]))),
{
    let more = x.spec_bases(order[i]);
    let after = scope::joined_in(order, more);
    lemma_joined_in(order, more);
    lemma_bases_are_listed(x.bases@, order[i], 0);
    assert(after[0] == order[0]);
    assert forall|b: Seq<char>| #[trigger] after.contains(b) implies b == cls || all_bases(
        x.bases@,
    ).contains(b) by {
        if more.contains(b) {
            assert(lookup::bases_from(x.bases@, order[i], 0).contains(b));
        }
    }
    assert forall|k: int, b: Seq<char>|
        0 <= k < i + 1 && k < after.len() && #[trigger] x.spec_bases(after[k]).contains(
            b,
        ) implies after.contains(b) by {
        assert(after[k] == order[k]);
        if k < i {
            assert(x.spec_bases(order[k]).contains(b));
            assert(order.contains(b));
        } else {
            assert(more.contains(b));
        }
    }
}

proof fn lemma_reached(
    x: ClassIndex,
    cls: Seq<char>,
    order: Seq<Seq<char>>,
    i: int,
    fuel: nat,
)
    requires
        walking(x, cls, order, i),
        i + fuel >= base_count(x.bases@) + 1,
    ensures
        walking(x, cls, reached(x, order, i, fuel), reached(x, order, i, fuel).len() as int),
    decreases fuel,
{
    lemma_walking_is_bounded(x, cls, order, i);
    if fuel > 0 && i < order.len() {
        lemma_walk_step(x, cls, order, i);
        lemma_reached(
            x,
            cls,
            scope::joined_in(order, x.spec_bases(order[i])),
            i + 1,
            (fuel - 1) as nat,
        );
    } else {
        assert(i == order.len());
    }
}

/// The walk up a hierarchy misses nothing and asks no class twice: it starts
/// with the class itself, lists every base of every class it lists, and lists
/// none of them again, however the hierarchy is tangled.
pub proof fn law_ancestry_is_complete(x: ClassIndex, cls: Seq<char>)
    ensures
        ancestry(x, cls).len() > 0,
        ancestry(x, cls)[0] == cls,
        ancestry(x, cls).no_duplicates(),
        forall|k: int, b: Seq<char>|
            0 <= k < ancestry(x, cls).len() && #[trigger] x.spec_bases(
                ancestry(x, cls)[k],
            ).contains(b) ==> ancestry(x, cls).contains(b),
{
    let order = seq![cls];
    assert(order.no_duplicates());
    assert forall|b: Seq<char>| #[trigger] order.contains(b) implies b == cls by {
        let k = choose|k: int| 0 <= k < order.len() && order[k] == b;
    }
    lemma_reached(x, cls, order, 0, base_count(x.bases@) + 1);
}

/// The first of the classes, from position `k`, that has functions under the
/// member's name, and those functions.
pub open spec fn first_members(
    x: ClassIndex,
    order: Seq<Seq<char>>,
    kind: MethodView,
    k: int,
) -> Seq<FnId>
    decreases order.len() - k,
{
    if k < 0 || k >= order.len() {
        seq![]
    } else {
        let own = x.spec_members(methods::member_name(kind, order[k]));
        if own.len() > 0 {
            own
        } else {
            first_members(x, order, kind, k + 1)
        }
    }
}

/// The first field called `name`, from position `k`.
pub open spec fn field_from(fields: Seq<(Seq<char>, DescView)>, name: Seq<char>, k: int) -> Option<
    DescView,
>
    decreases fields.len() - k,
{
    if k < 0 || k >= fields.len() {
        None
    } else if fields[k].0 == name {
        Some(fields[k].1)
    } else {
        field_from(fields, name, k + 1)
    }
}

/// The field that a class itself has.
pub open spec fn own_field(x: ClassIndex, cls: Seq<char>, name: Seq<char>) -> Option<DescView> {
    match x.spec_typed(cls) {
        Some(DescView::Struct { fields, .. }) => field_from(fields, name, 0),
        _ => None,
    }
}

/// The field of the first of the classes, from position `k`, that has it.
pub open spec fn first_field(
    x: ClassIndex,
    order: Seq<Seq<char>>,
    name: Seq<char>,
    k: int,
) -> Option<DescView>
    decreases order.len() - k,
{
    if k < 0 || k >= order.len() {
        None
    } else {
        match own_field(x, order[k], name) {
            Some(d) => Some(d),
            None => first_field(x, order, name, k + 1),
        }
    }
}

impl ClassIndex {
    /// A class and its bases, nearest first.
    pub fn classes_upward(&self, cls: &[char]) -> (r: Vec<Vec<char>>)
        ensures
            naming::piece_views(r@) == ancestry(*self, cls@),
    {
        let own = part(cls, 0, cls.len());
        assert(own@ =~= cls@);
        let mut order: Vec<Vec<char>> = Vec::new();
        order.push(own);
        let mut i: usize = 0;
        let ghost bound = base_count(self.bases@) + 1;
        proof {
            let start = seq![cls@];
            assert(naming::piece_views(order@) =~= start);
            assert(start.no_duplicates());
            assert forall|b: Seq<char>| #[trigger] start.contains(b) implies b == cls@ by {
                let k = choose|k: int| 0 <= k < start.len() && start[k] == b;
            }
            lemma_walking_is_bounded(*self, cls@, start, 0);
        }
        while i < order.len()
            invariant
                i <= order@.len(),
                i <= bound,
                bound == base_count(self.bases@) + 1,
                walking(*self, cls@, naming::piece_views(order@), i as int),
                reached(*self, naming::piece_views(order@), i as int, (bound - i) as nat)
                    == ancestry(*self, cls@),
            decreases bound - i,
        {
            let ghost before = naming::piece_views(order@);
            proof {
                lemma_walking_is_bounded(*self, cls@, before, i as int);
                lemma_walk_step(*self, cls@, before, i as int);
                assert(before[i as int] == order@[i as int]@);
            }
            let more = self.base_names(&order[i]);
            join_in(&mut order, more);
            i += 1;
        }
        order
    }

    /// The functions that the nearest class up the hierarchy has for a member.
    pub fn declared_members_upward(&self, cls: &str, kind: &MethodKind) -> (r: Vec<FnId>)
        ensures
            r@ == first_members(*self, ancestry(*self, cls@), kind@, 0),
    {
        let order = self.classes_upward(&chars_of(cls));
        let ghost all = naming::piece_views(order@);
        let mut k: usize = 0;
        while k < order.len()
            invariant
                k <= order@.len(),
                all == naming::piece_views(order@),
                all == ancestry(*self, cls@),
                first_members(*self, all, kind@, 0) == first_members(*self, all, kind@, k as int),
            decreases order@.len() - k,
        {
            assert(all[k as int] == order@[k as int]@);
            let name = kind.name_on(string_of(&order[k]).as_str());
            let own = self.functions_named(name.as_str());
            if own.len() > 0 {
                return own;
            }
            k += 1;
        }
        Vec::new()
    }

    /// The type of a data member that a class itself has.
    pub fn own_field_desc(&self, cls: &[char], field: &str) -> (r: Option<TypeDesc>)
        ensures
            match r {
                Some(d) => own_field(*self, cls@, field@) == Some(d@),
                None => own_field(*self, cls@, field@) is None,
            },
    {
        match self.type_by_tag(cls) {
            Some(TypeDesc::Struct { name: _, fields }) => find_field(fields, field),
            _ => None,
        }
    }

    /// The type of a data member of a class or of one of its bases.
    pub fn class_field_desc(&self, cls: &str, field: &str) -> (r: Option<TypeDesc>)
        ensures
            match r {
                Some(d) => first_field(*self, ancestry(*self, cls@), field@, 0) == Some(d@),
                None => first_field(*self, ancestry(*self, cls@), field@, 0) is None,
            },
    {
        let order = self.classes_upward(&chars_of(cls));
        let ghost all = naming::piece_views(order@);
        let mut k: usize = 0;
        while k < order.len()
            invariant
                k <= order@.len(),
                all == naming::piece_views(order@),
                all == ancestry(*self, cls@),
                first_field(*self, all, field@, 0) == first_field(*self, all, field@, k as int),
            decreases order@.len() - k,
        {
            assert(all[k as int] == order@[k as int]@);
            match self.own_field_desc(&order[k], field) {
                Some(d) => {
                    return Some(d);
                },
                None => {},
            }
            k += 1;
        }
        None
    }
}

fn find_field(fields: &Vec<(String, TypeDesc)>, name: &str) -> (r: Option<TypeDesc>)
    ensures
        match r {
            Some(d) => field_from(ir::field_views(fields@), name@, 0) == Some(d@),
            None => field_from(ir::field_views(fields@), name@, 0) is None,
        },
{
    let ghost all = ir::field_views(fields@);
    proof {
        ir::lemma_field_list_views(fields@);
    }
    let mut k: usize = 0;
    while k < fields.len()
        invariant
            k <= fields@.len(),
            all == ir::field_views(fields@),
            all.len() == fields@.len(),
            forall|i: int| 0 <= i < fields@.len() ==> #[trigger] all[i] == (fields@[i].0@, fields@[i].1@),
            field_from(all, name@, 0) == field_from(all, name@, k as int),
        decreases fields@.len() - k,
    {
        assert(all[k as int] == (fields@[k as int].0@, fields@[k as int].1@));
        if str_eq(fields[k].0.as_str(), name) {
            return Some(copy_desc(&fields[k].1));
        }
        k += 1;
    }
    None
}

/// The functions a member call may reach. `own` are the declarations found up
/// the hierarchy and `expanded` the entries of the class's own subclasses: a
/// member that nothing declares, a destructor and a virtual function are
/// dispatched on the object, any other call reaches its declaration. A
/// constructor that is not in view stays unresolved.
pub fn dispatch_targets(
    kind: &MethodKind,
    own: Vec<FnId>,
    any_virtual: bool,
    expanded: Vec<FnId>,
) -> (r: Vec<FnId>)
    ensures
        r@ == if own@.len() == 0 && !(kind@ is Ctor) || kind@ is Dtor || own@.len() > 0
            && any_virtual {
            expanded@
        } else {
            own@
        },
{
    let is_ctor = match kind {
        MethodKind::Ctor => true,
        _ => false,
    };
    let is_dtor = match kind {
        MethodKind::Dtor => true,
        _ => false,
    };
    if own.len() == 0 && !is_ctor || is_dtor || own.len() > 0 && any_virtual {
        expanded
    } else {
        own
    }
}

} // verus!
