//! The plan of an indexing run: the languages a header is read in, the headers
//! that get a unit of their own, the expansions that are lowered, and the
//! units whose declarations a unit is lowered with. Files go by their position
//! among the sorted paths of the project.

use crate::closure;
use crate::closure::close_over;
use crate::merge::MergeMode;
use crate::parse::SourceLang;
use vstd::prelude::*;

verus! {

/// The languages a header is read in: the forced one; else C++ where its name
/// or a C++ unit says so and C where a C unit does; else what its name says.
pub open spec fn languages(
    forced: Option<SourceLang>,
    is_cpp_header: bool,
    from_cpp_units: bool,
    from_c_units: bool,
    by_name: SourceLang,
) -> Seq<SourceLang> {
    match forced {
        Some(l) => seq![l],
        None => {
            let cpp = if is_cpp_header || from_cpp_units {
                seq![SourceLang::Cpp]
            } else {
                seq![]
            };
            let both = if from_c_units {
                cpp.push(SourceLang::C)
            } else {
                cpp
            };
            if both.len() == 0 {
                seq![by_name]
            } else {
                both
            }
        },
    }
}

/// The languages a header is expanded in. The first is the one it is parsed
/// as; a unit replays the tokens its own lexer would produce.
pub fn warm_languages(
    forced: Option<SourceLang>,
    is_cpp_header: bool,
    from_cpp_units: bool,
    from_c_units: bool,
    by_name: SourceLang,
) -> (r: Vec<SourceLang>)
    ensures
        r@ == languages(forced, is_cpp_header, from_cpp_units, from_c_units, by_name),
{
    match forced {
        Some(l) => {
            return vec![l];
        },
        None => {},
    }
    let mut out: Vec<SourceLang> = Vec::new();
    if is_cpp_header || from_cpp_units {
        out.push(SourceLang::Cpp);
    }
    if from_c_units {
        out.push(SourceLang::C);
    }
    if out.len() == 0 {
        out.push(by_name);
    }
    assert(out@ =~= languages(forced, is_cpp_header, from_cpp_units, from_c_units, by_name));
    out
}

pub open spec fn language_of(
    forced: Option<SourceLang>,
    from_cpp_units: bool,
    no_c_units: bool,
    is_header: bool,
    by_name: SourceLang,
) -> SourceLang {
    match forced {
        Some(l) => l,
        None => if from_cpp_units || by_name == SourceLang::Cpp || (no_c_units && is_header) {
            SourceLang::Cpp
        } else {
            SourceLang::C
        },
    }
}

/// The one language a file is lexed and parsed as. A file that a C++ unit
/// reaches is C++; and where the tree holds no C unit at all, so is a header
/// whose name leaves it open.
pub fn index_language(
    forced: Option<SourceLang>,
    from_cpp_units: bool,
    no_c_units: bool,
    is_header: bool,
    by_name: SourceLang,
) -> (r: SourceLang)
    ensures
        r == language_of(forced, from_cpp_units, no_c_units, is_header, by_name),
{
    match forced {
        Some(l) => l,
        None => {
            if from_cpp_units {
                return SourceLang::Cpp;
            }
            match by_name {
                SourceLang::Cpp => SourceLang::Cpp,
                SourceLang::C => if no_c_units && is_header {
                    SourceLang::Cpp
                } else {
                    SourceLang::C
                },
            }
        },
    }
}

/// A header is parsed as the first of the languages it is expanded in, where
/// the tree holds a C unit.
pub proof fn law_headers_are_parsed_as_first_expanded(
    forced: Option<SourceLang>,
    is_cpp_header: bool,
    from_cpp_units: bool,
    from_c_units: bool,
    by_name: SourceLang,
)
    requires
        is_cpp_header ==> by_name == SourceLang::Cpp,
        by_name == SourceLang::Cpp ==> is_cpp_header,
    ensures
        languages(forced, is_cpp_header, from_cpp_units, from_c_units, by_name)[0] == language_of(
            forced,
            from_cpp_units,
            false,
            true,
            by_name,
        ),
{
}

/// What is known of a header of the project once the units are preprocessed.
#[derive(Debug, Clone, Copy, PartialEq, Eq)]
pub struct HeaderFacts {
    /// A unit reaches it over includes.
    pub reachable: bool,
    /// A unit brought it in while it was preprocessed.
    pub included: bool,
    /// Some unit expanded it for itself.
    pub inlined: bool,
    /// Some unit took its stored expansion, or that of a header over it.
    pub consumed: bool,
    /// It lies under a dependency root.
    pub is_dep: bool,
}

/// How a header is indexed.
#[derive(Debug, Clone, Copy, PartialEq, Eq, Structural)]
pub enum HeaderRole {
    /// Not at all: every unit that reads it expanded it for itself, and a unit
    /// of its own would carry a configuration that none of them has.
    Skipped,
    /// Ahead of the units, which merge what it declares.
    Preamble,
    /// On its own, since no unit reads it.
    Orphan,
    /// Not at all: it is a dependency's, and no unit reads it.
    Unread,
}

pub open spec fn role_of(h: HeaderFacts) -> HeaderRole {
    if h.inlined && !h.consumed {
        HeaderRole::Skipped
    } else if h.reachable || h.included {
        HeaderRole::Preamble
    } else if !h.is_dep {
        HeaderRole::Orphan
    } else {
        HeaderRole::Unread
    }
}

/// How a header is indexed.
pub fn header_role(h: &HeaderFacts) -> (r: HeaderRole)
    ensures
        r == role_of(*h),
{
    if h.inlined && !h.consumed {
        HeaderRole::Skipped
    } else if h.reachable || h.included {
        HeaderRole::Preamble
    } else if !h.is_dep {
        HeaderRole::Orphan
    } else {
        HeaderRole::Unread
    }
}

/// The headers of a role, of the first `k`.
pub open spec fn with_role(all: Seq<HeaderFacts>, role: HeaderRole, k: int) -> Seq<usize>
    decreases k,
{
    if k <= 0 {
        seq![]
    } else {
        let before = with_role(all, role, k - 1);
        if role_of(all[k - 1]) == role {
            before.push((k - 1) as usize)
        } else {
            before
        }
    }
}

/// The headers of a role, in order.
pub fn headers_with_role(all: &Vec<HeaderFacts>, role: HeaderRole) -> (r: Vec<usize>)
    ensures
        r@ == with_role(all@, role, all@.len() as int),
{
    let mut out: Vec<usize> = Vec::new();
    let mut k: usize = 0;
    while k < all.len()
        invariant
            k <= all@.len(),
            out@ == with_role(all@, role, k as int),
        decreases all@.len() - k,
    {
        if header_role(&all[k]) == role {
            out.push(k);
        }
        k += 1;
    }
    out
}

/// A header whose stored expansion a unit took, and that is read by a unit,
/// is indexed ahead of the units: nothing a unit replays goes missing.
pub proof fn law_consumed_headers_are_indexed(h: HeaderFacts)
    requires
        h.consumed,
        h.reachable || h.included,
    ensures
        role_of(h) == HeaderRole::Preamble,
{
}

/// The mode a header's own unit is merged in. A dependency's bodies are not
/// the program's code.
pub fn header_mode(is_dep: bool) -> (r: MergeMode)
    ensures
        r == (if is_dep {
            MergeMode::SymbolsOnly
        } else {
            MergeMode::HeaderPreamble
        }),
{
    if is_dep {
        MergeMode::SymbolsOnly
    } else {
        MergeMode::HeaderPreamble
    }
}

fn stored(v: &Vec<usize>, n: usize) -> (r: Vec<usize>)
    ensures
        forall|x: usize| r@.contains(x) <==> v@.contains(x) && x < n,
{
    let mut r: Vec<usize> = Vec::new();
    let mut k: usize = 0;
    while k < v.len()
        invariant
            k <= v@.len(),
            forall|x: usize| r@.contains(x) <==> v@.take(k as int).contains(x) && x < n,
        decreases v@.len() - k,
    {
        let x = v[k];
        let ghost before = r@;
        if x < n {
            r.push(x);
        }
        proof {
            let part = v@.take(k as int);
            assert(v@.take(k + 1) =~= part.push(x));
            assert forall|y: usize| r@.contains(y) <==> part.push(x).contains(y) && y < n by {
                if r@.contains(y) {
                    let i = choose|i: int| 0 <= i < r@.len() && r@[i] == y;
                    if i < before.len() {
                        assert(before.contains(y));
                        let j = choose|j: int| 0 <= j < part.len() && part[j] == y;
                        assert(part.push(x)[j] == y);
                    } else {
                        assert(part.push(x)[part.len() as int] == y);
                    }
                }
                if part.push(x).contains(y) && y < n {
                    let j = choose|j: int| 0 <= j < part.push(x).len() && part.push(x)[j] == y;
                    if j < part.len() {
                        assert(part[j] == y);
                        assert(before.contains(y));
                        let i = choose|i: int| 0 <= i < before.len() && before[i] == y;
                        assert(r@[i] == y);
                    } else {
                        assert(r@[before.len() as int] == y);
                    }
                }
            }
        }
        k += 1;
    }
    assert(v@.take(k as int) =~= v@);
    r
}

/// Edges that lead nowhere do not decide what is reached.
proof fn lemma_dangling_edges(
    all: Seq<Seq<usize>>,
    kept: Seq<Seq<usize>>,
    a: usize,
    b: usize,
)
    requires
        all.len() == kept.len(),
        forall|i: int, x: usize|
            0 <= i < all.len() ==> (#[trigger] kept[i].contains(x) <==> all[i].contains(x) && x
                < all.len()),
        b < all.len(),
    ensures
        closure::reaches(all, a, b) == closure::reaches(kept, a, b),
        closure::reaches(all, a, b) ==> a < all.len(),
{
    if closure::reaches(all, a, b) {
        let path = choose|path: Seq<usize>| #[trigger]
            closure::is_chain(all, path) && path[0] == a && path.last() == b;
        assert forall|i: int| 0 <= i < path.len() - 1 implies closure::edge(
            kept,
            #[trigger] path[i],
            path[i + 1],
        ) by {
            assert(closure::edge(all, path[i], path[i + 1]));
            if i + 1 < path.len() - 1 {
                assert(closure::edge(all, path[i + 1], path[i + 2]));
            }
            assert(path[i + 1] < all.len());
            assert(kept[path[i] as int].contains(path[i + 1]));
        }
        assert(closure::is_chain(kept, path));
        if path.len() > 1 {
            assert(closure::edge(all, path[0], path[1]));
        }
    }
    if closure::reaches(kept, a, b) {
        let path = choose|path: Seq<usize>| #[trigger]
            closure::is_chain(kept, path) && path[0] == a && path.last() == b;
        assert forall|i: int| 0 <= i < path.len() - 1 implies closure::edge(
            all,
            #[trigger] path[i],
            path[i + 1],
        ) by {
            assert(closure::edge(kept, path[i], path[i + 1]));
            assert(kept[path[i] as int].contains(path[i + 1]));
        }
        assert(closure::is_chain(all, path));
    }
}

/// The expansions that units depend on, given those they replayed: replaying
/// one pins the ones it replayed in turn. An expansion goes by its position in
/// the store, and `nested` holds the positions of those it replayed. One that is
/// not in the store pins nothing.
pub fn close_over_nested_variants(nested: &Vec<Vec<usize>>, consumed: &Vec<usize>) -> (r: Vec<bool>)
    ensures
        r@.len() == nested@.len(),
        forall|i: usize|
            i < nested@.len() ==> r@[i as int] == #[trigger] closure::reached(
                closure::edge_lists(nested@),
                consumed@,
                i,
            ),
{
    let n = nested.len();
    let mut kept: Vec<Vec<usize>> = Vec::new();
    let mut k: usize = 0;
    while k < nested.len()
        invariant
            n == nested@.len(),
            k <= nested@.len(),
            kept@.len() == k,
            forall|i: int, x: usize|
                0 <= i < k ==> (#[trigger] kept@[i]@.contains(x) <==> nested@[i]@.contains(x) && x
                    < n),
        decreases nested@.len() - k,
    {
        kept.push(stored(&nested[k], n));
        k += 1;
    }
    let starts = stored(consumed, n);
    let ghost all = closure::edge_lists(nested@);
    let ghost own = closure::edge_lists(kept@);
    proof {
        assert forall|i: int, x: usize| 0 <= i < all.len() implies (#[trigger] own[i].contains(x)
            <==> all[i].contains(x) && x < all.len()) by {
            assert(own[i] == kept@[i]@);
            assert(kept@[i]@.contains(x) <==> nested@[i]@.contains(x) && x < n);
        }
        assert forall|a: usize, b: usize| #[trigger] closure::edge(own, a, b) implies b
            < own.len() by {
            assert(own[a as int].contains(b));
        }
        assert forall|j: int| 0 <= j < starts@.len() implies #[trigger] starts@[j] < n by {
            assert(starts@.contains(starts@[j]));
        }
    }
    let r = close_over(&kept, &starts);
    proof {
        assert forall|i: usize| i < n implies r@[i as int] == #[trigger] closure::reached(
            all,
            consumed@,
            i,
        ) by {
            assert(r@[i as int] == closure::reached(own, starts@, i));
            if closure::reached(own, starts@, i) {
                let j = choose|j: int|
                    0 <= j < starts@.len() && closure::reaches(own, #[trigger] starts@[j], i);
                assert(starts@.contains(starts@[j]));
                let c = choose|c: int| 0 <= c < consumed@.len() && consumed@[c] == starts@[j];
                lemma_dangling_edges(all, own, consumed@[c], i);
            }
            if closure::reached(all, consumed@, i) {
                let c = choose|c: int|
                    0 <= c < consumed@.len() && closure::reaches(all, #[trigger] consumed@[c], i);
                lemma_dangling_edges(all, own, consumed@[c], i);
                assert(consumed@.contains(consumed@[c]));
                let j = choose|j: int| 0 <= j < starts@.len() && starts@[j] == consumed@[c];
                assert(closure::reaches(own, starts@[j], i));
            }
        }
    }
    r
}

/// The positions that are marked, of the first `k`.
pub open spec fn marked(marks: Seq<bool>, k: int) -> Seq<usize>
    decreases k,
{
    if k <= 0 {
        seq![]
    } else {
        let before = marked(marks, k - 1);
        if marks[k - 1] {
            before.push((k - 1) as usize)
        } else {
            before
        }
    }
}

pub open spec fn up_to(n: nat) -> Seq<usize> {
    Seq::new(n, |i: int| i as usize)
}

/// The expansions of a header to lower: those that units depend on, by marks
/// on its stored expansions; all of them where no unit recorded any, so that a
/// declaration never goes missing with a configuration.
pub fn variants_to_lower(wanted: &Vec<bool>) -> (r: Vec<usize>)
    ensures
        r@ == if wanted@.contains(true) {
            marked(wanted@, wanted@.len() as int)
        } else {
            up_to(wanted@.len())
        },
{
    let mut own: Vec<usize> = Vec::new();
    let mut all: Vec<usize> = Vec::new();
    let mut any = false;
    let mut k: usize = 0;
    while k < wanted.len()
        invariant
            k <= wanted@.len(),
            own@ == marked(wanted@, k as int),
            all@ == up_to(k as nat),
            any == exists|j: int| 0 <= j < k && #[trigger] wanted@[j],
        decreases wanted@.len() - k,
    {
        if wanted[k] {
            own.push(k);
            any = true;
        }
        all.push(k);
        assert(all@ =~= up_to((k + 1) as nat));
        k += 1;
    }
    proof {
        if any {
            let j = choose|j: int| 0 <= j < k && #[trigger] wanted@[j];
            assert(wanted@[j] == true);
            assert(wanted@.contains(true));
        } else if wanted@.contains(true) {
            let j = choose|j: int| 0 <= j < wanted@.len() && wanted@[j] == true;
            assert(wanted@[j]);
        }
    }
    if any {
        own
    } else {
        all
    }
}

/// A header whose declarations a unit is lowered with: one it includes that is
/// no unit itself.
pub open spec fn is_wanted(
    own: usize,
    near: Seq<usize>,
    included: Seq<usize>,
    is_header: Seq<bool>,
    h: usize,
) -> bool {
    h != own && h < is_header.len() && is_header[h as int] && (near.contains(h)
        || included.contains(h))
}

fn holds(v: &Vec<usize>, x: usize) -> (r: bool)
    ensures
        r == v@.contains(x),
{
    let mut k: usize = 0;
    while k < v.len()
        invariant
            k <= v@.len(),
            forall|j: int| 0 <= j < k ==> #[trigger] v@[j] != x,
        decreases v@.len() - k,
    {
        if v[k] == x {
            assert(v@[k as int] == x);
            return true;
        }
        k += 1;
    }
    false
}

fn wants(
    own: usize,
    near: &Vec<usize>,
    included: &Vec<usize>,
    is_header: &Vec<bool>,
    h: usize,
) -> (r: bool)
    ensures
        r == is_wanted(own, near@, included@, is_header@, h),
{
    h != own && h < is_header.len() && is_header[h] && (holds(near, h) || holds(included, h))
}

/// The headers a unit is lowered with, in the order of the preambles and
/// those without a place there after them, by their numbers. So that these come
/// in the order of their paths, the numbers ascend with the paths. `near` are the headers the unit
/// reaches, or for a header's own unit those it includes directly: the units
/// of those hold what they include in turn.
pub fn headers_to_merge(
    own: usize,
    near: &Vec<usize>,
    included: &Vec<usize>,
    is_header: &Vec<bool>,
    order: &Vec<usize>,
) -> (r: Vec<usize>)
    ensures
        r@ == wanted_in_order(own, near@, included@, is_header@, order@, order@.len() as int)
            + wanted_besides(
            own,
            near@,
            included@,
            is_header@,
            order@,
            is_header@.len() as int,
        ),
{
    let mut out: Vec<usize> = Vec::new();
    let mut k: usize = 0;
    while k < order.len()
        invariant
            k <= order@.len(),
            out@ == wanted_in_order(own, near@, included@, is_header@, order@, k as int),
        decreases order@.len() - k,
    {
        if wants(own, near, included, is_header, order[k]) && !holds(&out, order[k]) {
            out.push(order[k]);
        }
        k += 1;
    }
    let ghost first = out@;
    let mut h: usize = 0;
    assert(first + seq![] =~= first);
    while h < is_header.len()
        invariant
            h <= is_header@.len(),
            first == wanted_in_order(
                own,
                near@,
                included@,
                is_header@,
                order@,
                order@.len() as int,
            ),
            out@ == first + wanted_besides(
                own,
                near@,
                included@,
                is_header@,
                order@,
                h as int,
            ),
        decreases is_header@.len() - h,
    {
        if wants(own, near, included, is_header, h) && !holds(order, h) {
            let ghost before = wanted_besides(own, near@, included@, is_header@, order@, h as int);
            out.push(h);
            assert(out@ =~= first + before.push(h));
        }
        h += 1;
    }
    out
}

/// The wanted headers in the order given, of its first `k`.
pub open spec fn wanted_in_order(
    own: usize,
    near: Seq<usize>,
    included: Seq<usize>,
    is_header: Seq<bool>,
    order: Seq<usize>,
    k: int,
) -> Seq<usize>
    decreases k,
{
    if k <= 0 {
        seq![]
    } else {
        let before = wanted_in_order(own, near, included, is_header, order, k - 1);
        let h = order[k - 1];
        if is_wanted(own, near, included, is_header, h) && !before.contains(h) {
            before.push(h)
        } else {
            before
        }
    }
}

/// The wanted headers that the order does not list, of the first `k` files.
pub open spec fn wanted_besides(
    own: usize,
    near: Seq<usize>,
    included: Seq<usize>,
    is_header: Seq<bool>,
    order: Seq<usize>,
    k: int,
) -> Seq<usize>
    decreases k,
{
    if k <= 0 {
        seq![]
    } else {
        let before = wanted_besides(own, near, included, is_header, order, k - 1);
        let h = (k - 1) as usize;
        if is_wanted(own, near, included, is_header, h) && !order.contains(h) {
            before.push(h)
        } else {
            before
        }
    }
}

proof fn lemma_in_order(
    own: usize,
    near: Seq<usize>,
    included: Seq<usize>,
    is_header: Seq<bool>,
    order: Seq<usize>,
    k: int,
)
    requires
        0 <= k <= order.len(),
    ensures
        wanted_in_order(own, near, included, is_header, order, k).no_duplicates(),
        forall|h: usize| #[trigger]
            wanted_in_order(own, near, included, is_header, order, k).contains(h) <==> is_wanted(
                own,
                near,
                included,
                is_header,
                h,
            ) && order.take(k).contains(h),
    decreases k,
{
    let all = wanted_in_order(own, near, included, is_header, order, k);
    if k > 0 {
        lemma_in_order(own, near, included, is_header, order, k - 1);
        let before = wanted_in_order(own, near, included, is_header, order, k - 1);
        let last = order[k - 1];
        assert forall|h: usize| #[trigger] all.contains(h) <==> is_wanted(
            own,
            near,
            included,
            is_header,
            h,
        ) && order.take(k).contains(h) by {
            lemma_take_contains(order, k, h);
            if all != before {
                lemma_push_contains(before, last, h);
            }
        }
    } else {
        assert forall|h: usize| !#[trigger] order.take(0).contains(h) by {}
    }
}

proof fn lemma_take_contains(v: Seq<usize>, k: int, h: usize)
    requires
        0 < k <= v.len(),
    ensures
        v.take(k).contains(h) <==> v.take(k - 1).contains(h) || v[k - 1] == h,
{
    if v.take(k).contains(h) {
        let longer = v.take(k);
        let j = choose|j: int| 0 <= j < longer.len() && longer[j] == h;
        if j < k - 1 {
            assert(v.take(k - 1)[j] == h);
        }
    }
    if v.take(k - 1).contains(h) {
        let shorter = v.take(k - 1);
        let j = choose|j: int| 0 <= j < shorter.len() && shorter[j] == h;
        assert(v.take(k)[j] == h);
    }
    if v[k - 1] == h {
        assert(v.take(k)[k - 1] == h);
    }
}

proof fn lemma_push_contains(v: Seq<usize>, x: usize, h: usize)
    ensures
        v.push(x).contains(h) <==> v.contains(h) || x == h,
{
    if v.push(x).contains(h) {
        let j = choose|j: int| 0 <= j < v.push(x).len() && v.push(x)[j] == h;
        if j < v.len() {
            assert(v[j] == h);
        }
    }
    if v.contains(h) {
        let j = choose|j: int| 0 <= j < v.len() && v[j] == h;
        assert(v.push(x)[j] == h);
    }
    assert(v.push(x)[v.len() as int] == x);
}

proof fn lemma_besides(
    own: usize,
    near: Seq<usize>,
    included: Seq<usize>,
    is_header: Seq<bool>,
    order: Seq<usize>,
    k: int,
)
    requires
        0 <= k <= is_header.len() <= usize::MAX,
    ensures
        wanted_besides(own, near, included, is_header, order, k).no_duplicates(),
        forall|h: usize| #[trigger]
            wanted_besides(own, near, included, is_header, order, k).contains(h) <==> is_wanted(
                own,
                near,
                included,
                is_header,
                h,
            ) && !order.contains(h) && h < k,
    decreases k,
{
    let all = wanted_besides(own, near, included, is_header, order, k);
    if k > 0 {
        lemma_besides(own, near, included, is_header, order, k - 1);
        let before = wanted_besides(own, near, included, is_header, order, k - 1);
        let last = (k - 1) as usize;
        assert forall|h: usize| #[trigger] all.contains(h) <==> is_wanted(
            own,
            near,
            included,
            is_header,
            h,
        ) && !order.contains(h) && h < k by {
            if all != before {
                lemma_push_contains(before, last, h);
            }
        }
        assert(!before.contains(last));
    }
}

/// Every header a unit includes is merged before the unit is lowered, once,
/// and no other file is.
pub proof fn law_wanted_headers_are_merged_once(
    own: usize,
    near: Seq<usize>,
    included: Seq<usize>,
    is_header: Seq<bool>,
    order: Seq<usize>,
)
    requires
        is_header.len() <= usize::MAX,
    ensures
        ({
            let all = wanted_in_order(own, near, included, is_header, order, order.len() as int)
                + wanted_besides(own, near, included, is_header, order, is_header.len() as int);
            all.no_duplicates() && forall|h: usize| #[trigger]
                all.contains(h) <==> is_wanted(own, near, included, is_header, h)
        }),
{
    let a = wanted_in_order(own, near, included, is_header, order, order.len() as int);
    let b = wanted_besides(own, near, included, is_header, order, is_header.len() as int);
    let all = a + b;
    lemma_in_order(own, near, included, is_header, order, order.len() as int);
    lemma_besides(own, near, included, is_header, order, is_header.len() as int);
    assert(order.take(order.len() as int) =~= order);
    assert forall|h: usize| #[trigger] all.contains(h) <==> is_wanted(
        own,
        near,
        included,
        is_header,
        h,
    ) by {
        if all.contains(h) {
            let j = choose|j: int| 0 <= j < all.len() && all[j] == h;
            if j < a.len() {
                assert(a[j] == h);
                assert(a.contains(h));
            } else {
                assert(b[j - a.len()] == h);
                assert(b.contains(h));
            }
        }
        if is_wanted(own, near, included, is_header, h) {
            if order.contains(h) {
                assert(a.contains(h));
                let j = choose|j: int| 0 <= j < a.len() && a[j] == h;
                assert(all[j] == h);
            } else {
                assert(b.contains(h));
                let j = choose|j: int| 0 <= j < b.len() && b[j] == h;
                assert(all[a.len() + j] == h);
            }
        }
    }
    assert(all.no_duplicates()) by {
        assert forall|i: int, j: int|
            0 <= i < all.len() && 0 <= j < all.len() && i != j implies all[i] != all[j] by {
            if i < a.len() && j >= a.len() {
                assert(a.contains(all[i]));
                assert(b[j - a.len()] == all[j]);
                assert(b.contains(all[j]));
            }
            if j < a.len() && i >= a.len() {
                assert(a.contains(all[j]));
                assert(b[i - a.len()] == all[i]);
                assert(b.contains(all[i]));
            }
        }
    }
}

/// A header whose languages a round of includes changed, or that only now is
/// read, is expanded again.
pub open spec fn is_stale(warmed: Option<Seq<SourceLang>>, now: Seq<SourceLang>) -> bool {
    warmed != Some(now)
}

/// Whether a header has to be expanded again.
pub fn needs_warming(warmed: Option<&Vec<SourceLang>>, now: &Vec<SourceLang>) -> (r: bool)
    ensures
        r == is_stale(
            match warmed {
                Some(l) => Some(l@),
                None => None,
            },
            now@,
        ),
{
    match warmed {
        Some(l) => !same_languages(l, now),
        None => true,
    }
}

/// The languages that the header `h` was expanded in last, from position `k`.
pub open spec fn warmed_in(
    warmed: Seq<(usize, Vec<SourceLang>)>,
    h: usize,
    k: int,
) -> Option<Seq<SourceLang>>
    decreases warmed.len() - k,
{
    if k < 0 || k >= warmed.len() {
        None
    } else if warmed[k].0 == h {
        Some(warmed[k].1@)
    } else {
        warmed_in(warmed, h, k + 1)
    }
}

/// The places of the first `k` headers that have to be expanded again.
pub open spec fn stale_places(
    warmed: Seq<(usize, Vec<SourceLang>)>,
    now: Seq<(usize, Vec<SourceLang>)>,
    k: int,
) -> Seq<usize>
    decreases k,
{
    if k <= 0 {
        seq![]
    } else if is_stale(warmed_in(warmed, now[k - 1].0, 0), now[k - 1].1@) {
        stale_places(warmed, now, k - 1).push((k - 1) as usize)
    } else {
        stale_places(warmed, now, k - 1)
    }
}

/// Which headers the next round expands: the places in `now`, in order, of those
/// that were not expanded yet or whose languages have changed since. Warming is
/// done once there is none.
pub fn next_round(
    warmed: &Vec<(usize, Vec<SourceLang>)>,
    now: &Vec<(usize, Vec<SourceLang>)>,
) -> (r: Vec<usize>)
    ensures
        r@ == stale_places(warmed@, now@, now@.len() as int),
{
    let mut out: Vec<usize> = Vec::new();
    let mut k: usize = 0;
    while k < now.len()
        invariant
            k <= now@.len(),
            out@ == stale_places(warmed@, now@, k as int),
        decreases now@.len() - k,
    {
        let h = now[k].0;
        let mut j: usize = 0;
        let mut before: Option<usize> = None;
        while j < warmed.len() && before.is_none()
            invariant
                j <= warmed@.len(),
                match before {
                    Some(p) => p < warmed@.len() && warmed_in(warmed@, h, 0) == Some(
                        warmed@[p as int].1@,
                    ),
                    None => warmed_in(warmed@, h, 0) == warmed_in(warmed@, h, j as int),
                },
            decreases warmed@.len() - j,
        {
            if warmed[j].0 == h {
                before = Some(j);
            }
            j += 1;
        }
        let known = match before {
            Some(p) => Some(&warmed[p].1),
            None => None,
        };
        if needs_warming(known, &now[k].1) {
            out.push(k);
        }
        k += 1;
    }
    out
}

/// Note what a round expanded: a header is known by the languages it was expanded
/// in last.
pub open spec fn noted(
    warmed: Seq<(usize, Vec<SourceLang>)>,
    h: usize,
    languages: Vec<SourceLang>,
) -> Seq<(usize, Vec<SourceLang>)> {
    seq![(h, languages)] + warmed
}

pub fn note_warmed(
    warmed: &mut Vec<(usize, Vec<SourceLang>)>,
    h: usize,
    languages: Vec<SourceLang>,
)
    ensures
        final(warmed)@ == noted(old(warmed)@, h, languages),
{
    warmed.insert(0, (h, languages));
    assert(warmed@ =~= seq![(h, languages)] + old(warmed)@);
}

/// A header that was expanded is not expanded again in the same languages.
pub proof fn law_a_warmed_header_is_warmed_once(
    warmed: Seq<(usize, Vec<SourceLang>)>,
    h: usize,
    languages: Vec<SourceLang>,
)
    ensures
        !is_stale(warmed_in(noted(warmed, h, languages), h, 0), languages@),
{
    assert(noted(warmed, h, languages)[0] == (h, languages));
}

fn same_languages(a: &Vec<SourceLang>, b: &Vec<SourceLang>) -> (r: bool)
    ensures
        r == (a@ == b@),
{
    if a.len() != b.len() {
        return false;
    }
    let mut k: usize = 0;
    while k < a.len()
        invariant
            k <= a@.len(),
            a@.len() == b@.len(),
            forall|j: int| 0 <= j < k ==> #[trigger] a@[j] == b@[j],
        decreases a@.len() - k,
    {
        if a[k] != b[k] {
            assert(a@[k as int] != b@[k as int]);
            return false;
        }
        k += 1;
    }
    assert(a@ =~= b@);
    true
}

/// The sources and headers of a project that its own units are made of: a
/// dependency root contributes headers only, and those apart.
pub open spec fn own_files(under_dep: Seq<bool>, k: int) -> Seq<usize>
    decreases k,
{
    if k <= 0 {
        seq![]
    } else {
        let before = own_files(under_dep, k - 1);
        if under_dep[k - 1] {
            before
        } else {
            before.push((k - 1) as usize)
        }
    }
}

/// The files that lie under no dependency root, in order.
pub fn files_outside_deps(under_dep: &Vec<bool>) -> (r: Vec<usize>)
    ensures
        r@ == own_files(under_dep@, under_dep@.len() as int),
{
    let mut out: Vec<usize> = Vec::new();
    let mut k: usize = 0;
    while k < under_dep.len()
        invariant
            k <= under_dep@.len(),
            out@ == own_files(under_dep@, k as int),
        decreases under_dep@.len() - k,
    {
        if !under_dep[k] {
            out.push(k);
        }
        k += 1;
    }
    out
}

/// How a run goes on once the project's files and commands are known.
#[derive(Debug, Clone, Copy, PartialEq, Eq, Structural)]
pub enum RunKind {
    /// There is nothing to index, which is an error.
    Empty,
    /// Compile or link commands say how the units are made.
    Configured,
    /// The include graph alone does.
    Inferred,
}

/// How a run goes on.
pub fn run_kind(sources: usize, headers: usize, commands: usize, targets: usize) -> (r: RunKind)
    ensures
        r == (if sources == 0 && headers == 0 {
            RunKind::Empty
        } else if commands > 0 || targets > 0 {
            RunKind::Configured
        } else {
            RunKind::Inferred
        }),
{
    if sources == 0 && headers == 0 {
        RunKind::Empty
    } else if commands > 0 || targets > 0 {
        RunKind::Configured
    } else {
        RunKind::Inferred
    }
}

/// Whether a header's configuration goes into the preamble of a unit: the ones
/// the unit replayed, where its record speaks of them. A record in another
/// language counts that language's configurations and says nothing here.
pub fn takes_configuration(same_language: bool, replayed: Option<&Vec<usize>>, variant: usize) -> (r:
    bool)
    ensures
        r == match replayed {
            Some(v) => same_language ==> v@.contains(variant),
            None => true,
        },
{
    match replayed {
        Some(v) => {
            if !same_language {
                return true;
            }
            let mut k: usize = 0;
            while k < v.len()
                invariant
                    k <= v@.len(),
                    same_language,
                    replayed == Some(v),
                    forall|j: int| 0 <= j < k ==> v@[j] != variant,
                decreases v@.len() - k,
            {
                if v[k] == variant {
                    assert(v@[k as int] == variant);
                    return true;
                }
                k += 1;
            }
            false
        },
        None => true,
    }
}

proof fn lemma_marks_are_kept(marks: Seq<bool>, i: int, k: int)
    requires
        0 <= i < k <= marks.len(),
        marks[i],
    ensures
        marked(marks, k).len() > 0,
    decreases k,
{
    if i < k - 1 {
        lemma_marks_are_kept(marks, i, k - 1);
    }
}

/// A header that has a stored expansion is lowered from one: dropping a
/// configuration is never how a declaration goes missing.
pub proof fn law_stored_headers_are_lowered(wanted: Seq<bool>)
    requires
        wanted.len() > 0,
    ensures
        wanted.contains(true) ==> marked(wanted, wanted.len() as int).len() > 0,
        !wanted.contains(true) ==> up_to(wanted.len()).len() > 0,
{
    if wanted.contains(true) {
        let i = choose|i: int| 0 <= i < wanted.len() && wanted[i];
        lemma_marks_are_kept(wanted, i, wanted.len() as int);
    }
}

} // verus!
