//! Callees that no source of the project declares: each name becomes one
//! function without a body, and the calls that spell it reach that one.

use crate::calls::SiteView;
use crate::ir::{FnId, Linkage, Span, TargetId, TypeId};
use crate::methods;
use crate::methods::is_synthesizable_extern;
use crate::program;
use crate::program::{function_index, CallRecord, FnTraits, FnView, Function, RecordView};
use crate::text::{chars_of, str_eq};
use vstd::prelude::*;

verus! {

/// Text `a` comes before text `b`, by their first difference.
pub open spec fn comes_before(a: Seq<char>, b: Seq<char>) -> bool
    decreases a.len(),
{
    if b.len() == 0 {
        false
    } else if a.len() == 0 {
        true
    } else if a[0] != b[0] {
        a[0] < b[0]
    } else {
        comes_before(a.skip(1), b.skip(1))
    }
}

proof fn lemma_order_total(a: Seq<char>, b: Seq<char>)
    ensures
        comes_before(a, b) || comes_before(b, a) || a == b,
        !(comes_before(a, b) && comes_before(b, a)),
        !comes_before(a, a),
    decreases a.len(),
{
    if a.len() > 0 && b.len() > 0 && a[0] == b[0] {
        lemma_order_total(a.skip(1), b.skip(1));
        if a.skip(1) == b.skip(1) {
            assert(a =~= b) by {
                assert forall|i: int| 0 <= i < a.len() implies a[i] == b[i] by {
                    if i > 0 {
                        assert(a.skip(1)[i - 1] == b.skip(1)[i - 1]);
                    }
                }
                assert(a.skip(1).len() == b.skip(1).len());
            }
        }
    } else if a.len() == 0 && b.len() == 0 {
        assert(a =~= b);
    }
    if a.len() > 0 {
        lemma_order_irreflexive(a);
    }
}

proof fn lemma_order_irreflexive(a: Seq<char>)
    ensures
        !comes_before(a, a),
    decreases a.len(),
{
    if a.len() > 0 {
        lemma_order_irreflexive(a.skip(1));
    }
}

proof fn lemma_order_transitive(a: Seq<char>, b: Seq<char>, c: Seq<char>)
    requires
        comes_before(a, b),
        comes_before(b, c),
    ensures
        comes_before(a, c),
    decreases a.len(),
{
    if a.len() > 0 && b.len() > 0 && c.len() > 0 && a[0] == b[0] && b[0] == c[0] {
        lemma_order_transitive(a.skip(1), b.skip(1), c.skip(1));
    }
}

fn is_before(a: &[char], b: &[char], from: usize) -> (r: bool)
    requires
        from <= a@.len(),
        from <= b@.len(),
    ensures
        r == comes_before(a@.skip(from as int), b@.skip(from as int)),
    decreases a@.len() - from,
{
    let ghost x = a@.skip(from as int);
    let ghost y = b@.skip(from as int);
    if from == b.len() {
        return false;
    }
    if from == a.len() {
        return true;
    }
    assert(x[0] == a@[from as int] && y[0] == b@[from as int]);
    if a[from] != b[from] {
        return a[from] < b[from];
    }
    proof {
        assert(x.skip(1) =~= a@.skip(from + 1));
        assert(y.skip(1) =~= b@.skip(from + 1));
    }
    is_before(a, b, from + 1)
}

/// An image comes before another: what has none first, then by number.
pub open spec fn image_before(a: Option<TargetId>, b: Option<TargetId>) -> bool {
    match (a, b) {
        (None, Some(_)) => true,
        (Some(x), Some(y)) => x.0 < y.0,
        _ => false,
    }
}

/// A callee that nothing declares: its name and the image its callers are of.
#[derive(Debug, PartialEq, Eq)]
pub struct Missing {
    pub name: String,
    pub image: Option<TargetId>,
}

pub open spec fn key_before(
    m: Seq<char>,
    s: Option<TargetId>,
    n: Seq<char>,
    t: Option<TargetId>,
) -> bool {
    comes_before(m, n) || m == n && image_before(s, t)
}

/// The list is in order, each callee once.
pub open spec fn is_sorted(v: Seq<Missing>) -> bool {
    forall|i: int, j: int|
        0 <= i < j < v.len() ==> key_before(
            (#[trigger] v[i]).name@,
            v[i].image,
            (#[trigger] v[j]).name@,
            v[j].image,
        )
}

pub open spec fn lists_callee(v: Seq<Missing>, name: Seq<char>, image: Option<TargetId>) -> bool {
    exists|k: int| 0 <= k < v.len() && (#[trigger] v[k]).name@ == name && v[k].image == image
}

proof fn lemma_key_total(
    m: Seq<char>,
    s: Option<TargetId>,
    n: Seq<char>,
    t: Option<TargetId>,
)
    ensures
        key_before(m, s, n, t) || key_before(n, t, m, s) || (m == n && s == t),
        !(key_before(m, s, n, t) && key_before(n, t, m, s)),
{
    lemma_order_total(m, n);
    lemma_order_total(n, m);
}

proof fn lemma_key_transitive(
    l: Seq<char>,
    r: Option<TargetId>,
    m: Seq<char>,
    s: Option<TargetId>,
    n: Seq<char>,
    t: Option<TargetId>,
)
    requires
        key_before(l, r, m, s),
        key_before(m, s, n, t),
    ensures
        key_before(l, r, n, t),
{
    if comes_before(l, m) && comes_before(m, n) {
        lemma_order_transitive(l, m, n);
    }
}

fn same_image(a: Option<TargetId>, b: Option<TargetId>) -> (r: bool)
    ensures
        r == (a == b),
{
    match (a, b) {
        (Some(x), Some(y)) => x == y,
        (None, None) => true,
        _ => false,
    }
}

fn is_key_before(e: &Missing, name: &String, image: Option<TargetId>) -> (r: bool)
    ensures
        r == key_before(e.name@, e.image, name@, image),
{
    let m = chars_of(e.name.as_str());
    let n = chars_of(name.as_str());
    assert(m@.skip(0) =~= m@);
    assert(n@.skip(0) =~= n@);
    if is_before(&m, &n, 0) {
        return true;
    }
    if !str_eq(e.name.as_str(), name.as_str()) {
        return false;
    }
    match (e.image, image) {
        (None, Some(_)) => true,
        (Some(x), Some(y)) => x.0 < y.0,
        _ => false,
    }
}

/// Put a callee at its place in the list, where it is not there.
fn enter(v: &mut Vec<Missing>, name: &String, image: Option<TargetId>)
    requires
        is_sorted(old(v)@),
    ensures
        is_sorted(final(v)@),
        lists_callee(final(v)@, name@, image),
        forall|n: Seq<char>, t: Option<TargetId>| #[trigger]
            lists_callee(final(v)@, n, t) <==> lists_callee(old(v)@, n, t) || (n == name@ && t
                == image),
{
    let ghost first = v@;
    let mut k: usize = 0;
    while k < v.len() && is_key_before(&v[k], name, image)
        invariant
            k <= v@.len(),
            v@ == first,
            is_sorted(first),
            forall|j: int|
                0 <= j < k ==> key_before(
                    (#[trigger] first[j]).name@,
                    first[j].image,
                    name@,
                    image,
                ),
        decreases v@.len() - k,
    {
        k += 1;
    }
    if k < v.len() && str_eq(v[k].name.as_str(), name.as_str()) && same_image(v[k].image, image) {
        return;
    }
    let own = Missing { name: name.clone(), image };
    v.insert(k, own);
    proof {
        assert(v@ =~= first.insert(k as int, own));
        if k < first.len() {
            lemma_key_total(first[k as int].name@, first[k as int].image, name@, image);
        }
        assert forall|i: int, j: int| 0 <= i < j < v@.len() implies key_before(
            (#[trigger] v@[i]).name@,
            v@[i].image,
            (#[trigger] v@[j]).name@,
            v@[j].image,
        ) by {
            let x = if i < k {
                i
            } else {
                i - 1
            };
            let y = if j < k {
                j
            } else {
                j - 1
            };
            if i != k {
                assert(v@[i] == first[x]);
            }
            if j != k {
                assert(v@[j] == first[y]);
            }
            if i != k && j != k {
                assert(key_before(first[x].name@, first[x].image, first[y].name@, first[y].image));
            } else if i == k {
                if y > k {
                    assert(key_before(
                        first[k as int].name@,
                        first[k as int].image,
                        first[y].name@,
                        first[y].image,
                    ));
                    lemma_key_transitive(
                        name@,
                        image,
                        first[k as int].name@,
                        first[k as int].image,
                        first[y].name@,
                        first[y].image,
                    );
                }
            }
        }
        assert forall|n: Seq<char>, t: Option<TargetId>| #[trigger]
            lists_callee(v@, n, t) <==> lists_callee(first, n, t) || (n == name@ && t == image) by {
            if lists_callee(v@, n, t) {
                let i = choose|i: int|
                    0 <= i < v@.len() && (#[trigger] v@[i]).name@ == n && v@[i].image == t;
                if i < k {
                    assert(v@[i] == first[i]);
                } else if i > k {
                    assert(v@[i] == first[i - 1]);
                }
            }
            if lists_callee(first, n, t) {
                let i = choose|i: int|
                    0 <= i < first.len() && (#[trigger] first[i]).name@ == n && first[i].image == t;
                if i < k {
                    assert(v@[i] == first[i]);
                } else {
                    assert(v@[i + 1] == first[i]);
                }
            }
            assert(v@[k as int] == own);
        }
    }
}

/// A call that resolved to nothing and spells a callee that can stand outside
/// the project. Where no image is linked, a call that is direct is left alone.
pub open spec fn is_open(r: RecordView, in_images: bool) -> bool {
    (in_images || !r.site.is_direct) && r.site.callee_var is None && r.site.callee_fn_id is None
        && methods::synthesizable(r.site.callee_name)
}

/// The image a call is of: its caller's.
pub open spec fn image_of(fns: Seq<FnView>, r: RecordView, in_images: bool) -> Option<TargetId> {
    if in_images {
        match program::fn_by_id(fns, r.site.caller) {
            Some(f) => f.target,
            None => None,
        }
    } else {
        None
    }
}

/// Some of the first `k` calls is open under that name and image.
pub open spec fn opens(
    fns: Seq<FnView>,
    calls: Seq<RecordView>,
    in_images: bool,
    name: Seq<char>,
    image: Option<TargetId>,
    k: int,
) -> bool {
    exists|i: int|
        0 <= i < k && is_open(#[trigger] calls[i], in_images) && calls[i].site.callee_name == name
            && image_of(fns, calls[i], in_images) == image
}

fn call_is_open(r: &CallRecord, in_images: bool) -> (b: bool)
    ensures
        b == is_open(r@, in_images),
{
    (in_images || !r.site.is_direct) && r.site.callee_var.is_none()
        && r.site.callee_fn_id.is_none() && is_synthesizable_extern(r.site.callee_name.as_str())
}

fn call_image(fns: &Vec<Function>, r: &CallRecord, in_images: bool) -> (b: Option<TargetId>)
    ensures
        b == image_of(program::fn_views(fns@), r@, in_images),
{
    if in_images {
        match function_index(fns, r.site.caller) {
            Some(k) => {
                assert(program::fn_views(fns@)[k as int] == fns@[k as int]@);
                fns[k].target
            },
            None => None,
        }
    } else {
        None
    }
}

/// The callees that open calls spell, in order and each once. In a project
/// with link images a name is a callee of each image that calls it.
pub fn open_callees(fns: &Vec<Function>, calls: &Vec<CallRecord>, in_images: bool) -> (r: Vec<
    Missing,
>)
    ensures
        is_sorted(r@),
        forall|name: Seq<char>, image: Option<TargetId>| #[trigger]
            lists_callee(r@, name, image) <==> opens(
                program::fn_views(fns@),
                program::record_views(calls@),
                in_images,
                name,
                image,
                calls@.len() as int,
            ),
{
    let ghost views = program::fn_views(fns@);
    let ghost all = program::record_views(calls@);
    let mut out: Vec<Missing> = Vec::new();
    let mut k: usize = 0;
    while k < calls.len()
        invariant
            k <= calls@.len(),
            views == program::fn_views(fns@),
            all == program::record_views(calls@),
            is_sorted(out@),
            forall|name: Seq<char>, image: Option<TargetId>| #[trigger]
                lists_callee(out@, name, image) <==> opens(
                    views,
                    all,
                    in_images,
                    name,
                    image,
                    k as int,
                ),
        decreases calls@.len() - k,
    {
        let r = &calls[k];
        assert(all[k as int] == r@);
        let ghost before = out@;
        let open = call_is_open(r, in_images);
        if open {
            enter(&mut out, &r.site.callee_name, call_image(fns, r, in_images));
        }
        proof {
            assert forall|name: Seq<char>, image: Option<TargetId>| #[trigger]
                lists_callee(out@, name, image) <==> opens(
                    views,
                    all,
                    in_images,
                    name,
                    image,
                    k + 1,
                ) by {
                assert(lists_callee(before, name, image) == opens(
                    views,
                    all,
                    in_images,
                    name,
                    image,
                    k as int,
                ));
                if opens(views, all, in_images, name, image, k as int) {
                    let i = choose|i: int|
                        0 <= i < k && is_open(#[trigger] all[i], in_images)
                            && all[i].site.callee_name == name && image_of(
                            views,
                            all[i],
                            in_images,
                        ) == image;
                    assert(is_open(all[i], in_images));
                    assert(opens(views, all, in_images, name, image, k + 1));
                }
                if opens(views, all, in_images, name, image, k + 1) {
                    let i = choose|i: int|
                        0 <= i < k + 1 && is_open(#[trigger] all[i], in_images)
                            && all[i].site.callee_name == name && image_of(
                            views,
                            all[i],
                            in_images,
                        ) == image;
                    if i < k {
                        assert(opens(views, all, in_images, name, image, k as int));
                    }
                }
                if open && all[k as int].site.callee_name == name && image_of(
                    views,
                    all[k as int],
                    in_images,
                ) == image {
                    assert(is_open(all[k as int], in_images));
                    assert(opens(views, all, in_images, name, image, k + 1));
                }
            }
        }
        k += 1;
    }
    out
}

/// The place a callee is entered at: without images the first by file and line
/// of the open calls that spell it, else that of the first such call.
pub open spec fn spelled_at(
    fns: Seq<FnView>,
    calls: Seq<RecordView>,
    in_images: bool,
    name: Seq<char>,
    image: Option<TargetId>,
    k: int,
) -> Option<Span>
    decreases k,
{
    if k <= 0 {
        None
    } else {
        let before = spelled_at(fns, calls, in_images, name, image, k - 1);
        let r = calls[k - 1];
        if is_open(r, in_images) && r.site.callee_name == name && image_of(fns, r, in_images)
            == image {
            match before {
                Some(s) => if !in_images && stands_before(r.site.span, s) {
                    Some(Span { col: 0, ..r.site.span })
                } else {
                    before
                },
                None => Some(
                    if in_images {
                        r.site.span
                    } else {
                        Span { col: 0, ..r.site.span }
                    },
                ),
            }
        } else {
            before
        }
    }
}

pub open spec fn stands_before(a: Span, b: Span) -> bool {
    a.file.0 < b.file.0 || (a.file.0 == b.file.0 && a.line < b.line)
}

/// The place a callee is entered at.
pub fn callee_place(
    fns: &Vec<Function>,
    calls: &Vec<CallRecord>,
    in_images: bool,
    callee: &Missing,
) -> (r: Option<Span>)
    ensures
        r == spelled_at(
            program::fn_views(fns@),
            program::record_views(calls@),
            in_images,
            callee.name@,
            callee.image,
            calls@.len() as int,
        ),
{
    let ghost views = program::fn_views(fns@);
    let ghost all = program::record_views(calls@);
    let mut best: Option<Span> = None;
    let mut k: usize = 0;
    while k < calls.len()
        invariant
            k <= calls@.len(),
            views == program::fn_views(fns@),
            all == program::record_views(calls@),
            best == spelled_at(views, all, in_images, callee.name@, callee.image, k as int),
        decreases calls@.len() - k,
    {
        let r = &calls[k];
        assert(all[k as int] == r@);
        if call_is_open(r, in_images) && str_eq(r.site.callee_name.as_str(), callee.name.as_str())
            && same_image(call_image(fns, r, in_images), callee.image) {
            let span = r.site.span;
            match best {
                Some(s) => {
                    if !in_images && (span.file.0 < s.file.0 || (span.file.0 == s.file.0
                        && span.line < s.line)) {
                        best = Some(Span { file: span.file, line: span.line, col: 0 });
                    }
                },
                None => {
                    best = Some(
                        if in_images {
                            span
                        } else {
                            Span { file: span.file, line: span.line, col: 0 }
                        },
                    );
                },
            }
        }
        k += 1;
    }
    best
}

/// The function that stands for a callee no source declares.
pub open spec fn outside_fn(
    id: FnId,
    name: Seq<char>,
    image: Option<TargetId>,
    at: Span,
    return_type: TypeId,
) -> FnView {
    FnView {
        id,
        name,
        traits: FnTraits {
            linkage: Linkage::External,
            is_defined: false,
            is_weak: false,
            is_cpp: false,
            is_virtual: false,
            is_final: false,
            variadic: false,
            owner_unresolved: false,
            defaulted_in_class: false,
            declared_in_class: false,
            explicit_arity: None,
            default_args: 0,
        },
        return_type,
        params: seq![],
        param_type_ids: seq![],
        locals: seq![],
        span: at,
        end_line: at.line,
        file: at.file,
        tu: None,
        target: image,
    }
}

/// The function that stands for a callee no source declares.
pub fn outside_function(callee: &Missing, id: FnId, at: Span, return_type: TypeId) -> (r: Function)
    ensures
        r@ == outside_fn(id, callee.name@, callee.image, at, return_type),
{
    let r = Function {
        id,
        name: callee.name.clone(),
        traits: FnTraits {
            linkage: Linkage::External,
            is_defined: false,
            is_weak: false,
            is_cpp: false,
            is_virtual: false,
            is_final: false,
            variadic: false,
            owner_unresolved: false,
            defaulted_in_class: false,
            declared_in_class: false,
            explicit_arity: None,
            default_args: 0,
        },
        return_type,
        params: Vec::new(),
        param_type_ids: Vec::new(),
        locals: Vec::new(),
        span: at,
        end_line: at.line,
        file: at.file,
        tu: None,
        target: callee.image,
    };
    proof {
        assert(r.params@ =~= seq![]);
        assert(r.param_type_ids@ =~= seq![]);
        assert(r.locals@ =~= seq![]);
    }
    r
}

/// The call reaches the callee from here on: it spells its name, and it is not
/// resolved otherwise.
pub open spec fn claims(
    fns: Seq<FnView>,
    r: RecordView,
    in_images: bool,
    name: Seq<char>,
    image: Option<TargetId>,
) -> bool {
    if in_images {
        is_open(r, true) && r.site.callee_name == name && image_of(fns, r, true) == image
    } else {
        !r.site.is_direct && r.site.callee_var is None && r.site.callee_name == name
    }
}

/// A call once the callee exists.
pub open spec fn claimed(
    fns: Seq<FnView>,
    r: RecordView,
    in_images: bool,
    name: Seq<char>,
    image: Option<TargetId>,
    id: FnId,
) -> RecordView {
    if claims(fns, r, in_images, name, image) {
        RecordView {
            site: SiteView { is_direct: true, callee_fn_id: Some(id), ..r.site },
            ..r
        }
    } else {
        r
    }
}

/// Let the calls that spell a callee reach the function that stands for it.
pub fn claim_calls(
    fns: &Vec<Function>,
    calls: &mut Vec<CallRecord>,
    in_images: bool,
    callee: &Missing,
    id: FnId,
)
    ensures
        program::record_views(final(calls)@) == program::record_views(old(calls)@).map_values(
            |r: RecordView|
                claimed(
                    program::fn_views(fns@),
                    r,
                    in_images,
                    callee.name@,
                    callee.image,
                    id,
                ),
        ),
{
    let ghost views = program::fn_views(fns@);
    let ghost first = program::record_views(calls@);
    let ghost done = first.map_values(
        |r: RecordView| claimed(views, r, in_images, callee.name@, callee.image, id),
    );
    let mut k: usize = 0;
    while k < calls.len()
        invariant
            k <= calls@.len(),
            calls@.len() == first.len(),
            views == program::fn_views(fns@),
            done == first.map_values(
                |r: RecordView| claimed(views, r, in_images, callee.name@, callee.image, id),
            ),
            forall|j: int| 0 <= j < k ==> (#[trigger] calls@[j])@ == done[j],
            forall|j: int| k <= j < first.len() ==> (#[trigger] calls@[j])@ == first[j],
        decreases calls@.len() - k,
    {
        let ghost before = calls@;
        assert(before[k as int]@ == first[k as int]);
        let takes = if in_images {
            call_is_open(&calls[k], true) && str_eq(
                calls[k].site.callee_name.as_str(),
                callee.name.as_str(),
            ) && same_image(call_image(fns, &calls[k], true), callee.image)
        } else {
            !calls[k].site.is_direct && calls[k].site.callee_var.is_none() && str_eq(
                calls[k].site.callee_name.as_str(),
                callee.name.as_str(),
            )
        };
        assert(takes == claims(views, first[k as int], in_images, callee.name@, callee.image));
        if takes {
            calls[k].site.is_direct = true;
            calls[k].site.callee_fn_id = Some(id);
        }
        proof {
            assert(calls@[k as int]@ == done[k as int]);
            assert forall|j: int| 0 <= j < k implies (#[trigger] calls@[j])@ == done[j] by {
                assert(before[j]@ == done[j]);
            }
            assert forall|j: int| k < j < first.len() implies (#[trigger] calls@[j])@ == first[j] by {
                assert(before[j]@ == first[j]);
            }
        }
        k += 1;
    }
    assert(program::record_views(calls@) =~= done);
}

/// Once a callee's calls are claimed, none of them is open.
pub proof fn law_claimed_calls_are_resolved(
    fns: Seq<FnView>,
    r: RecordView,
    in_images: bool,
    name: Seq<char>,
    image: Option<TargetId>,
    id: FnId,
)
    requires
        is_open(r, in_images),
        r.site.callee_name == name,
        image_of(fns, r, in_images) == image,
    ensures
        claimed(fns, r, in_images, name, image, id).site.callee_fn_id == Some(id),
        !is_open(claimed(fns, r, in_images, name, image, id), in_images),
{
}

/// The functions and calls while callees are entered, and the number the next
/// function gets.
pub struct Entered {
    pub fns: Seq<FnView>,
    pub calls: Seq<RecordView>,
    pub next: u32,
}

/// The type that a function entered for an outside callee returns: where images
/// are linked the unknown one, else the table's first.
pub open spec fn outside_return(in_images: bool, unknown: TypeId) -> TypeId {
    if in_images {
        unknown
    } else {
        TypeId(0)
    }
}

/// The state once one callee is entered. A callee that a source declares, in
/// whatever unit, is left to be found by its name: a function entered over it
/// would hide the real one.
pub open spec fn enter_callee(
    e: Entered,
    callee: Missing,
    place: Option<Span>,
    declared: Seq<Missing>,
    in_images: bool,
    unknown: TypeId,
) -> Entered {
    match place {
        Some(at) => if lists_callee(declared, callee.name@, callee.image) {
            e
        } else {
            Entered {
                fns: e.fns.push(
                    outside_fn(
                        FnId(e.next),
                        callee.name@,
                        callee.image,
                        at,
                        outside_return(in_images, unknown),
                    ),
                ),
                calls: e.calls.map_values(
                    |r: RecordView|
                        claimed(
                            e.fns,
                            r,
                            in_images,
                            callee.name@,
                            callee.image,
                            FnId(e.next),
                        ),
                ),
                next: (e.next + 1) as u32,
            }
        },
        None => e,
    }
}

/// The state once the first `k` callees are entered.
pub open spec fn enter_callees(
    e: Entered,
    callees: Seq<Missing>,
    places: Seq<Option<Span>>,
    declared: Seq<Missing>,
    in_images: bool,
    unknown: TypeId,
    k: int,
) -> Entered
    decreases k,
{
    if k <= 0 {
        e
    } else {
        enter_callee(
            enter_callees(e, callees, places, declared, in_images, unknown, k - 1),
            callees[k - 1],
            places[k - 1],
            declared,
            in_images,
            unknown,
        )
    }
}

fn is_declared(declared: &Vec<Missing>, callee: &Missing) -> (r: bool)
    ensures
        r == lists_callee(declared@, callee.name@, callee.image),
{
    let mut k: usize = 0;
    while k < declared.len()
        invariant
            k <= declared@.len(),
            forall|j: int|
                0 <= j < k ==> !((#[trigger] declared@[j]).name@ == callee.name@
                    && declared@[j].image == callee.image),
        decreases declared@.len() - k,
    {
        if str_eq(declared[k].name.as_str(), callee.name.as_str()) && same_image(
            declared[k].image,
            callee.image,
        ) {
            return true;
        }
        k += 1;
    }
    false
}

/// Enter a function for every callee that open calls spell and that no source
/// declares, in order, and let those calls reach it. `declared` lists the
/// callees that a source declares, `places` those of the open callees.
pub fn finalize_extern_callees(
    fns: &mut Vec<Function>,
    calls: &mut Vec<CallRecord>,
    next_fn: &mut u32,
    callees: &Vec<Missing>,
    places: &Vec<Option<Span>>,
    declared: &Vec<Missing>,
    in_images: bool,
    unknown: TypeId,
)
    requires
        callees@.len() == places@.len(),
        *old(next_fn) + callees@.len() <= u32::MAX,
    ensures
        ({
            let e = enter_callees(
                Entered {
                    fns: program::fn_views(old(fns)@),
                    calls: program::record_views(old(calls)@),
                    next: *old(next_fn),
                },
                callees@,
                places@,
                declared@,
                in_images,
                unknown,
                callees@.len() as int,
            );
            program::fn_views(final(fns)@) == e.fns && program::record_views(final(calls)@)
                == e.calls && *final(next_fn) == e.next
        }),
{
    let ghost start = Entered {
        fns: program::fn_views(fns@),
        calls: program::record_views(calls@),
        next: *next_fn,
    };
    let mut k: usize = 0;
    while k < callees.len()
        invariant
            k <= callees@.len(),
            callees@.len() == places@.len(),
            start.next + callees@.len() <= u32::MAX,
            *next_fn <= start.next + k,
            enter_callees(start, callees@, places@, declared@, in_images, unknown, k as int) == (
            Entered {
                fns: program::fn_views(fns@),
                calls: program::record_views(calls@),
                next: *next_fn,
            }),
        decreases callees@.len() - k,
    {
        match places[k] {
            Some(at) => {
                if !is_declared(declared, &callees[k]) {
                    let id = FnId(*next_fn);
                    claim_calls(fns, calls, in_images, &callees[k], id);
                    let return_type = if in_images {
                        unknown
                    } else {
                        TypeId(0)
                    };
                    let own = outside_function(&callees[k], id, at, return_type);
                    let ghost before = fns@;
                    fns.push(own);
                    assert(program::fn_views(fns@) =~= program::fn_views(before).push(own@));
                    *next_fn = *next_fn + 1;
                }
            },
            None => {},
        }
        k += 1;
    }
}

} // verus!
