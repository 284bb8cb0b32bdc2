//! What members of class templates return for a receiver that names the
//! template's arguments.

use vstd::prelude::*;

use crate::infer;
use crate::ir::{DescView, TypeDesc};
use crate::lookup;
use crate::lookup::{ClassIndex, MAX_BASE_LOOKUP};
use crate::naming;
use crate::normalize;
use crate::normalize::{
    arguments_stripped, bare_type_chars, drop_prefix, is_std_smart_ptr_name,
};
use crate::receivers;
use crate::receivers::{agreed, argument_class, substituted_parameter, TemplateBase};
use crate::scope::NameScope;
use crate::spelling;
use crate::spelling::{position, split_pointer_suffix, template_arguments, template_tail};
use crate::templates::TemplateReturn;
use crate::text;
use crate::text::{append, begins, chars_of, part, rfind, same, str_eq, string_of};
use crate::types;

verus! {

/// The class that `name` names from the scope on outwards. A standard smart
/// pointer is taken on its name.
pub open spec fn class_from(x: ClassIndex, scope: Seq<char>, name: Seq<char>) -> Option<Seq<char>>
    decreases scope.len(),
    via class_from_decreases
{
    let rooted = text::starts_with(name, "::"@);
    let candidate = if rooted || scope.len() == 0 {
        normalize::after_prefix(name, "::"@)
    } else {
        scope + "::"@ + name
    };
    match lookup::class_named(x, candidate) {
        Some(cls) => Some(cls),
        None => if scope.len() == 0 || rooted {
            if normalize::smart_ptr_name(name) {
                Some(name)
            } else {
                None
            }
        } else {
            class_from(x, lookup::around(scope), name)
        },
    }
}

#[via_fn]
proof fn class_from_decreases(x: ClassIndex, scope: Seq<char>, name: Seq<char>) {
    if scope.len() > 0 {
        lookup::lemma_around(scope);
    }
}

fn find_class_from(index: &ClassIndex, scope: &[char], name: &[char]) -> (r: Option<Vec<char>>)
    ensures
        match r {
            Some(cls) => class_from(*index, scope@, name@) == Some(cls@),
            None => class_from(*index, scope@, name@) is None,
        },
    decreases scope@.len(),
{
    let sep = chars_of("::");
    let rooted = begins(name, &sep);
    let candidate = if rooted || scope.len() == 0 {
        drop_prefix(name, &sep)
    } else {
        let mut out = part(scope, 0, scope.len());
        assert(out@ =~= scope@);
        append(&mut out, &sep);
        append(&mut out, name);
        out
    };
    match index.declared_class_name(&candidate) {
        Some(cls) => {
            return Some(cls);
        },
        None => {},
    }
    if scope.len() == 0 || rooted {
        return if is_std_smart_ptr_name(string_of(name).as_str()) {
            let own = part(name, 0, name.len());
            assert(own@ =~= name@);
            Some(own)
        } else {
            None
        };
    }
    let to: usize = match rfind(scope, &sep) {
        Some(at) => at,
        None => 0,
    };
    let outer = part(scope, 0, to);
    proof {
        lookup::lemma_around(scope@);
        assert(outer@ =~= lookup::around(scope@));
    }
    find_class_from(index, &outer, name)
}

/// The class that a template argument names where it was declared, its own
/// arguments named there too.
pub open spec fn held_in(x: ClassIndex, scope: Seq<char>, arg: Seq<char>) -> Option<Seq<char>>
    decreases arg.len(), spelling::arguments_of(arg).len() + 1,
{
    match class_from(x, scope, normalize::without_arguments(arg)) {
        Some(cls) => if arg.contains('<') {
            Some(
                cls + "<"@ + types::listed(
                    held_upto(x, scope, arg, spelling::arguments_of(arg).len() as int),
                ) + ">"@ + spelling::tail_of(arg),
            )
        } else {
            Some(cls)
        },
        None => None,
    }
}

/// The first `k` arguments of a spelling, each with the class it names.
pub open spec fn held_upto(x: ClassIndex, scope: Seq<char>, arg: Seq<char>, k: int) -> Seq<Seq<char>>
    decreases arg.len(), k,
    via held_upto_decreases
{
    if k <= 0 || k > spelling::arguments_of(arg).len() {
        seq![]
    } else {
        let own = spelling::arguments_of(arg)[k - 1];
        let base = types::argument_base(own);
        let named = match held_in(x, scope, base) {
            Some(cls) => cls,
            None => base,
        };
        held_upto(x, scope, arg, k - 1).push(named + types::argument_suffix(own))
    }
}

#[via_fn]
proof fn held_upto_decreases(x: ClassIndex, scope: Seq<char>, arg: Seq<char>, k: int) {
    if 0 < k <= spelling::arguments_of(arg).len() {
        types::lemma_argument_base(arg, k - 1);
    }
}

/// Resolve a template argument in the scope it was declared in, without the
/// scope of the caller.
pub fn held_class_in_declaration_scope(index: &ClassIndex, scope: &str, arg: &str) -> (r: Option<
    String,
>)
    ensures
        match r {
            Some(cls) => held_in(*index, scope@, arg@) == Some(cls@),
            None => held_in(*index, scope@, arg@) is None,
        },
    decreases arg@.len(),
{
    let spelled = chars_of(arg);
    let cls = match find_class_from(index, &chars_of(scope), &arguments_stripped(&spelled)) {
        Some(cls) => cls,
        None => {
            return None;
        },
    };
    if position(&spelled, '<').is_none() {
        assert(!arg@.contains('<'));
        return Some(string_of(&cls));
    }
    let args = template_arguments(arg);
    let ghost all = spelling::arguments_of(arg@);
    let mut inner: Vec<char> = Vec::new();
    let mut k: usize = 0;
    assert(all.len() == args@.len());
    while k < args.len()
        invariant
            k <= args@.len(),
            spelling::views(args@) == all,
            all == spelling::arguments_of(arg@),
            all.len() == args@.len(),
            inner@ == types::listed(held_upto(*index, scope@, arg@, k as int)),
            held_upto(*index, scope@, arg@, k as int).len() == k,
        decreases args@.len() - k,
    {
        let ghost before = held_upto(*index, scope@, arg@, k as int);
        proof {
            assert(all[k as int] == spelling::views(args@)[k as int]);
            types::lemma_argument_base(arg@, k as int);
        }
        let (base, suffix) = split_pointer_suffix(args[k].as_str());
        let base = string_of(&bare_type_chars(&chars_of(base.as_str())));
        let mut own = match held_class_in_declaration_scope(index, scope, base.as_str()) {
            Some(cls) => chars_of(cls.as_str()),
            None => chars_of(base.as_str()),
        };
        append(&mut own, &chars_of(suffix.as_str()));
        if k > 0 {
            append(&mut inner, &chars_of(","));
        }
        append(&mut inner, &own);
        proof {
            let after = held_upto(*index, scope@, arg@, k + 1);
            assert(after == before.push(own@));
            assert(after.drop_last() =~= before);
            assert(k == 0 ==> inner@ =~= own@);
        }
        k += 1;
    }
    let mut out = cls;
    append(&mut out, &chars_of("<"));
    append(&mut out, &inner);
    append(&mut out, &chars_of(">"));
    append(&mut out, &chars_of(template_tail(arg).as_str()));
    Some(string_of(&out))
}

/// The bases among the first `k` that a walk takes up, as long as it has asked
/// about few enough.
pub open spec fn newly_seen(
    bases: Seq<Seq<char>>,
    queue: Seq<Seq<char>>,
    seen: Seq<Seq<char>>,
    k: int,
) -> (Seq<Seq<char>>, Seq<Seq<char>>)
    decreases k,
{
    if k <= 0 {
        (queue, seen)
    } else {
        let (q, s) = newly_seen(bases, queue, seen, k - 1);
        if s.len() < MAX_BASE_LOOKUP && !s.contains(bases[k - 1]) {
            (q.push(bases[k - 1]), s.push(bases[k - 1]))
        } else {
            (q, s)
        }
    }
}

proof fn lemma_newly_seen(
    bases: Seq<Seq<char>>,
    queue: Seq<Seq<char>>,
    seen: Seq<Seq<char>>,
    k: int,
)
    requires
        seen.len() <= MAX_BASE_LOOKUP,
    ensures
        ({
            let (q, s) = newly_seen(bases, queue, seen, k);
            q.len() - queue.len() == s.len() - seen.len() && s.len() <= MAX_BASE_LOOKUP
        }),
    decreases k,
{
    if k > 0 {
        lemma_newly_seen(bases, queue, seen, k - 1);
    }
}

/// The base through which one of the classes in the queue inherits `owner`.
pub open spec fn inherited_from(
    x: ClassIndex,
    table: Seq<(String, Vec<TemplateBase>)>,
    owner: Seq<char>,
    queue: Seq<Seq<char>>,
    seen: Seq<Seq<char>>,
) -> Option<TemplateBase>
    decreases queue.len() + MAX_BASE_LOOKUP - seen.len(),
    when seen.len() <= MAX_BASE_LOOKUP
    via inherited_from_decreases
{
    if queue.len() == 0 {
        None
    } else {
        match receivers::base_naming(
            receivers::template_bases_from(table, queue[0], 0),
            owner,
            0,
        ) {
            Some(base) => Some(base),
            None => {
                let bases = x.spec_bases(queue[0]);
                let (q, s) = newly_seen(bases, queue.skip(1), seen, bases.len() as int);
                inherited_from(x, table, owner, q, s)
            },
        }
    }
}

#[via_fn]
proof fn inherited_from_decreases(
    x: ClassIndex,
    table: Seq<(String, Vec<TemplateBase>)>,
    owner: Seq<char>,
    queue: Seq<Seq<char>>,
    seen: Seq<Seq<char>>,
) {
    if queue.len() > 0 {
        let bases = x.spec_bases(queue[0]);
        lemma_newly_seen(bases, queue.skip(1), seen, bases.len() as int);
    }
}

/// The arguments that a receiver gives a class template, and, where they come
/// from a base, the scope that the base was declared in.
pub open spec fn arguments_for(
    x: ClassIndex,
    table: Seq<(String, Vec<TemplateBase>)>,
    receiver: Seq<char>,
    owner: Seq<char>,
) -> Option<(Seq<Seq<char>>, Option<Seq<char>>)> {
    let cls = normalize::without_arguments(receiver);
    if cls == owner {
        Some((spelling::arguments_of(receiver), None))
    } else {
        match inherited_from(x, table, owner, seq![cls], seq![]) {
            Some(base) if !base.is_dependent => Some(
                (spelling::arguments_of(base.spelling@), Some(base.declaration_scope@)),
            ),
            _ => None,
        }
    }
}

fn find_bases<'a>(table: &'a Vec<(String, Vec<TemplateBase>)>, cls: &[char]) -> (r: Option<
    &'a Vec<TemplateBase>,
>)
    ensures
        match r {
            Some(v) => v@ == receivers::template_bases_from(table@, cls@, 0),
            None => receivers::template_bases_from(table@, cls@, 0) =~= seq![],
        },
{
    let wanted = string_of(cls);
    let mut k: usize = 0;
    while k < table.len()
        invariant
            k <= table@.len(),
            wanted@ == cls@,
            receivers::template_bases_from(table@, cls@, 0) == receivers::template_bases_from(
                table@,
                cls@,
                k as int,
            ),
        decreases table@.len() - k,
    {
        if str_eq(table[k].0.as_str(), wanted.as_str()) {
            return Some(&table[k].1);
        }
        k += 1;
    }
    None
}

fn find_base_naming<'a>(bases: &'a Vec<TemplateBase>, owner: &[char]) -> (r: Option<
    &'a TemplateBase,
>)
    ensures
        match r {
            Some(b) => receivers::base_naming(bases@, owner@, 0) == Some(*b),
            None => receivers::base_naming(bases@, owner@, 0) is None,
        },
{
    let mut k: usize = 0;
    while k < bases.len()
        invariant
            k <= bases@.len(),
            receivers::base_naming(bases@, owner@, 0) == receivers::base_naming(
                bases@,
                owner@,
                k as int,
            ),
        decreases bases@.len() - k,
    {
        if same(&arguments_stripped(&chars_of(bases[k].spelling.as_str())), owner) {
            return Some(&bases[k]);
        }
        k += 1;
    }
    None
}

fn is_seen(seen: &Vec<Vec<char>>, name: &[char]) -> (r: bool)
    ensures
        r == naming::piece_views(seen@).contains(name@),
{
    let mut k: usize = 0;
    while k < seen.len()
        invariant
            k <= seen@.len(),
            forall|j: int| 0 <= j < k ==> #[trigger] naming::piece_views(seen@)[j] != name@,
        decreases seen@.len() - k,
    {
        assert(naming::piece_views(seen@)[k as int] == seen@[k as int]@);
        if same(&seen[k], name) {
            return true;
        }
        k += 1;
    }
    false
}

fn take_up(bases: &Vec<Vec<char>>, queue: &mut Vec<Vec<char>>, seen: &mut Vec<Vec<char>>)
    requires
        old(seen)@.len() <= MAX_BASE_LOOKUP,
    ensures
        (naming::piece_views(final(queue)@), naming::piece_views(final(seen)@)) == newly_seen(
            naming::piece_views(bases@),
            naming::piece_views(old(queue)@),
            naming::piece_views(old(seen)@),
            bases@.len() as int,
        ),
{
    let ghost all = naming::piece_views(bases@);
    let ghost q0 = naming::piece_views(queue@);
    let ghost s0 = naming::piece_views(seen@);
    let mut k: usize = 0;
    while k < bases.len()
        invariant
            k <= bases@.len(),
            all == naming::piece_views(bases@),
            (naming::piece_views(queue@), naming::piece_views(seen@)) == newly_seen(
                all,
                q0,
                s0,
                k as int,
            ),
        decreases bases@.len() - k,
    {
        assert(all[k as int] == bases@[k as int]@);
        assert(naming::piece_views(seen@).len() == seen@.len());
        if seen.len() < MAX_BASE_LOOKUP && !is_seen(seen, &bases[k]) {
            let ghost q1 = naming::piece_views(queue@);
            let ghost s1 = naming::piece_views(seen@);
            let own = part(&bases[k], 0, bases[k].len());
            let once = part(&bases[k], 0, bases[k].len());
            assert(own@ =~= bases@[k as int]@);
            assert(once@ =~= bases@[k as int]@);
            queue.push(own);
            seen.push(once);
            assert(naming::piece_views(queue@) =~= q1.push(all[k as int]));
            assert(naming::piece_views(seen@) =~= s1.push(all[k as int]));
        }
        k += 1;
    }
}

fn find_inherited<'a>(
    index: &ClassIndex,
    table: &'a Vec<(String, Vec<TemplateBase>)>,
    owner: &[char],
    cls: &[char],
) -> (r: Option<&'a TemplateBase>)
    ensures
        match r {
            Some(b) => inherited_from(*index, table@, owner@, seq![cls@], seq![]) == Some(*b),
            None => inherited_from(*index, table@, owner@, seq![cls@], seq![]) is None,
        },
{
    let mut queue: Vec<Vec<char>> = Vec::new();
    let mut seen: Vec<Vec<char>> = Vec::new();
    let start = part(cls, 0, cls.len());
    assert(start@ =~= cls@);
    queue.push(start);
    assert(naming::piece_views(queue@) =~= seq![cls@]);
    assert(naming::piece_views(seen@) =~= seq![]);
    while queue.len() > 0
        invariant
            seen@.len() <= MAX_BASE_LOOKUP,
            inherited_from(*index, table@, owner@, seq![cls@], seq![]) == inherited_from(
                *index,
                table@,
                owner@,
                naming::piece_views(queue@),
                naming::piece_views(seen@),
            ),
        decreases queue@.len() + MAX_BASE_LOOKUP - seen@.len(),
    {
        let ghost q0 = naming::piece_views(queue@);
        let ghost s0 = naming::piece_views(seen@);
        let cur = queue.remove(0);
        assert(cur@ == q0[0]);
        assert(naming::piece_views(queue@) =~= q0.skip(1));
        match find_bases(table, &cur) {
            Some(v) => match find_base_naming(v, owner) {
                Some(b) => {
                    return Some(b);
                },
                None => {},
            },
            None => {},
        }
        let bases = index.base_names(&cur);
        assert(naming::piece_views(bases@).len() == bases@.len());
        proof {
            lemma_newly_seen(
                naming::piece_views(bases@),
                q0.skip(1),
                s0,
                bases@.len() as int,
            );
        }
        take_up(&bases, &mut queue, &mut seen);
        assert(naming::piece_views(queue@).len() == queue@.len());
        assert(naming::piece_views(seen@).len() == seen@.len());
    }
    assert(naming::piece_views(queue@).len() == 0);
    None
}

pub open spec fn opt_text(s: Option<String>) -> Option<Seq<char>> {
    match s {
        Some(t) => Some(t@),
        None => None,
    }
}

/// The template arguments that `receiver` gives `owner`: its own, when it
/// spells that class template, else those of the base it inherits `owner`
/// through. Only a base spelled with concrete arguments substitutes.
pub fn template_arguments_for(
    index: &ClassIndex,
    table: &Vec<(String, Vec<TemplateBase>)>,
    receiver: &str,
    owner: &str,
) -> (r: Option<(Vec<String>, Option<String>)>)
    ensures
        match r {
            Some((args, scope)) => arguments_for(*index, table@, receiver@, owner@) == Some(
                (spelling::views(args@), opt_text(scope)),
            ),
            None => arguments_for(*index, table@, receiver@, owner@) is None,
        },
{
    let cls = arguments_stripped(&chars_of(receiver));
    let wanted = chars_of(owner);
    if same(&cls, &wanted) {
        return Some((template_arguments(receiver), None));
    }
    match find_inherited(index, table, &wanted, &cls) {
        Some(base) => if base.is_dependent {
            None
        } else {
            Some(
                (
                    template_arguments(base.spelling.as_str()),
                    Some(string_of(&chars_of(base.declaration_scope.as_str()))),
                ),
            )
        },
        None => None,
    }
}

/// The class that the argument a fact substitutes names: where the base was
/// declared, or from the place of the call.
pub open spec fn held_for(
    s: NameScope,
    x: ClassIndex,
    args: Seq<Seq<char>>,
    scope: Option<Seq<char>>,
    fact: TemplateReturn,
) -> Option<Seq<char>> {
    match fact.parameter {
        Some(i) if i < args.len() => {
            let own = types::argument_base(args[i as int]);
            match scope {
                Some(scope) => held_in(x, scope, own),
                None => receivers::spec_held(s, x, own),
            }
        },
        _ => None,
    }
}

/// What the facts of the given arity, among the first `k`, substitute.
pub open spec fn substitutes_upto(
    s: NameScope,
    x: ClassIndex,
    args: Seq<Seq<char>>,
    scope: Option<Seq<char>>,
    facts: Seq<TemplateReturn>,
    arity: nat,
    k: int,
) -> Seq<Option<DescView>>
    decreases k,
{
    if k <= 0 {
        Seq::empty()
    } else {
        let before = substitutes_upto(s, x, args, scope, facts, arity, k - 1);
        if facts[k - 1].arity == arity {
            before.push(
                receivers::substituted(
                    args,
                    facts[k - 1],
                    held_for(s, x, args, scope, facts[k - 1]),
                ),
            )
        } else {
            before
        }
    }
}

/// What the template returns of one member substitute for a receiver that
/// gives the template these arguments: the one type that all facts of the
/// arity agree on.
pub open spec fn substituted_return(
    s: NameScope,
    x: ClassIndex,
    args: Seq<Seq<char>>,
    scope: Option<Seq<char>>,
    facts: Seq<TemplateReturn>,
    arity: nat,
) -> Option<DescView> {
    receivers::agreed_on(
        substitutes_upto(s, x, args, scope, facts, arity, facts.len() as int),
    )
}

fn find_held(
    s: &NameScope,
    index: &ClassIndex,
    args: &Vec<String>,
    scope: &Option<String>,
    fact: &TemplateReturn,
) -> (r: Option<String>)
    ensures
        opt_text(r) == held_for(*s, *index, spelling::views(args@), opt_text(*scope), *fact),
{
    match fact.parameter {
        Some(i) => {
            assert(spelling::views(args@).len() == args@.len());
            if i >= args.len() {
                return None;
            }
            assert(args@[i as int]@ == spelling::views(args@)[i as int]);
            let own = argument_class(args[i].as_str());
            match scope {
                Some(scope) => held_class_in_declaration_scope(
                    index,
                    scope.as_str(),
                    own.as_str(),
                ),
                None => s.held_class(index, own.as_str()),
            }
        },
        None => None,
    }
}

/// The argument that a fact substitutes leaves room for its pointer layers.
pub open spec fn substitutable(args: Seq<Seq<char>>, facts: Seq<TemplateReturn>) -> bool {
    forall|i: int, k: int|
        0 <= i < facts.len() && 0 <= k < args.len() ==> (#[trigger] args[k]).len() + (
        #[trigger] facts[i]).pointer_depth <= usize::MAX
}

fn is_substitutable(args: &Vec<String>, facts: &Vec<TemplateReturn>) -> (r: bool)
    ensures
        r == substitutable(spelling::views(args@), facts@),
{
    let ghost all = spelling::views(args@);
    assert(all.len() == args@.len());
    let mut i: usize = 0;
    while i < facts.len()
        invariant
            all == spelling::views(args@),
            all.len() == args@.len(),
            i <= facts@.len(),
            forall|j: int, k: int|
                0 <= j < i && 0 <= k < all.len() ==> (#[trigger] all[k]).len() + (
                #[trigger] facts@[j]).pointer_depth <= usize::MAX,
        decreases facts@.len() - i,
    {
        let mut k: usize = 0;
        while k < args.len()
            invariant
                all == spelling::views(args@),
                all.len() == args@.len(),
                i < facts@.len(),
                k <= args@.len(),
                forall|j: int|
                    0 <= j < k ==> (#[trigger] all[j]).len() + facts@[i as int].pointer_depth
                        <= usize::MAX,
            decreases args@.len() - k,
        {
            assert(all[k as int] == args@[k as int]@);
            let n = chars_of(args[k].as_str()).len();
            if n > usize::MAX - facts[i].pointer_depth {
                assert(all[k as int].len() + facts@[i as int].pointer_depth > usize::MAX);
                return false;
            }
            k += 1;
        }
        i += 1;
    }
    true
}

/// What a class-template member declared to return a bare type parameter
/// yields for a receiver that gives the template these arguments. Facts are
/// shared by the declarations of one name, so those of one arity must agree.
/// `None` also where an argument spells more pointers than can be counted.
pub fn substituted_template_return(
    s: &NameScope,
    index: &ClassIndex,
    args: &Vec<String>,
    scope: &Option<String>,
    facts: &Vec<TemplateReturn>,
    arity: usize,
) -> (r: Option<TypeDesc>)
    ensures
        ({
            let found = substituted_return(
                *s,
                *index,
                spelling::views(args@),
                opt_text(*scope),
                facts@,
                arity as nat,
            );
            match r {
                Some(d) => substitutable(spelling::views(args@), facts@) && found == Some(d@),
                None => !substitutable(spelling::views(args@), facts@) || found is None,
            }
        }),
{
    if !is_substitutable(args, facts) {
        return None;
    }
    let ghost all = spelling::views(args@);
    let mut found: Vec<Option<TypeDesc>> = Vec::new();
    let mut k: usize = 0;
    assert(receivers::opt_descs(found@) =~= Seq::empty());
    while k < facts.len()
        invariant
            k <= facts@.len(),
            all == spelling::views(args@),
            substitutable(all, facts@),
            receivers::opt_descs(found@) == substitutes_upto(
                *s,
                *index,
                all,
                opt_text(*scope),
                facts@,
                arity as nat,
                k as int,
            ),
        decreases facts@.len() - k,
    {
        if facts[k].arity as usize == arity {
            let held = find_held(s, index, args, scope, &facts[k]);
            proof {
                assert(all.len() == args@.len());
                assert forall|j: int| 0 <= j < args@.len() implies (#[trigger] args@[j])@.len()
                    + facts@[k as int].pointer_depth <= usize::MAX by {
                    assert(all[j] == args@[j]@);
                }
            }
            let own = match &held {
                Some(cls) => substituted_parameter(args, &facts[k], Some(cls.as_str())),
                None => substituted_parameter(args, &facts[k], None),
            };
            let ghost before = receivers::opt_descs(found@);
            let ghost one = infer::opt_desc(own);
            found.push(own);
            assert(receivers::opt_descs(found@) =~= before.push(one));
        }
        k += 1;
    }
    agreed(&found)
}

} // verus!
