//! Calls of a configuration that repeats the first one of its source.

use crate::idmap;
use crate::ir::FnId;
use crate::merge::MergeMode;
use crate::merge_calls;
use crate::merge_calls::{CallContext, CallTablesView, SiteKey};
use crate::program;
use crate::program::{CallRecord, Occurrence, RecordView};
use vstd::prelude::*;

verus! {

/// Two contexts of the calls of one unit: its first configuration and another one,
/// in which its files, functions and variables have the same numbers.
pub open spec fn are_call_configurations(a: CallContext<'_>, b: CallContext<'_>) -> bool {
    &&& a.mode == MergeMode::Full
    &&& b.mode == MergeMode::Variant
    &&& a.map.files@ == b.map.files@
    &&& a.map.primary == b.map.primary
    &&& a.files@ == b.files@
    &&& program::fn_views(a.functions@) == program::fn_views(b.functions@)
    &&& a.users@ == b.users@
    &&& a.fn_map@ == b.fn_map@
    &&& a.var_map@ == b.var_map@
    &&& a.dropped@ == b.dropped@
}

/// The place of a unit's call in the program.
pub open spec fn place_in(c: CallContext<'_>, r: RecordView) -> (Occurrence, Seq<char>) {
    (merge_calls::occurrence_in(*c.map, r.occurrence), r.site.callee_name)
}

/// The calls that are merged each have a place of their own, in which the program
/// has none. Those of functions that other units cannot see, and of header bodies
/// that units share, have no such place.
pub open spec fn calls_stand_apart(
    s: CallTablesView,
    c: CallContext<'_>,
    calls: Seq<CallRecord>,
) -> bool {
    &&& forall|k: int|
        0 <= k < calls.len() ==> (merge_calls::merged_caller(
            c,
            (#[trigger] calls[k])@,
        ) matches Some(caller) ==> {
            &&& !merge_calls::caller_is_internal(c, caller)
            &&& !merge_calls::caller_is_shared(c, caller)
            &&& merge_calls::key_at(
                s.keys,
                place_in(c, calls[k]@).0,
                place_in(c, calls[k]@).1,
                0,
            ) is None
        })
    &&& forall|j: int, k: int|
        0 <= j < k < calls.len() && merge_calls::merged_caller(c, (#[trigger] calls[j])@) is Some
            && merge_calls::merged_caller(c, (#[trigger] calls[k])@) is Some ==> place_in(
            c,
            calls[j]@,
        ) != place_in(c, calls[k]@)
}

/// The numbers of the records come before the next one.
pub open spec fn are_numbered(s: CallTablesView) -> bool {
    forall|i: int| 0 <= i < s.records.len() ==> (#[trigger] s.records[i]).site.id < s.next_call
}

/// The program holds the call at its place.
#[verifier::opaque]
spec fn is_found(s: CallTablesView, c: CallContext<'_>, r: RecordView, caller: FnId) -> bool {
    match merge_calls::key_at(s.keys, place_in(c, r).0, place_in(c, r).1, 0) {
        Some(id) => merge_calls::states(s.records, id, merge_calls::record_in(c, r, caller)),
        None => false,
    }
}

proof fn lemma_key_pushed(v: Seq<SiteKey>, e: SiteKey, at: Occurrence, name: Seq<char>, k: int)
    requires
        0 <= k <= v.len(),
    ensures
        merge_calls::key_at(v.push(e), at, name, k) == match merge_calls::key_at(v, at, name, k) {
            Some(id) => Some(id),
            None => if e.occurrence == at && e.name@ == name {
                Some(e.id)
            } else {
                None
            },
        },
    decreases v.len() - k,
{
    if k < v.len() {
        assert(v.push(e)[k] == v[k]);
        if !(v[k].occurrence == at && v[k].name@ == name) {
            lemma_key_pushed(v, e, at, name, k + 1);
        }
    } else {
        assert(v.push(e)[k] == e);
        assert(merge_calls::key_at(v.push(e), at, name, k + 1) is None);
    }
}

proof fn lemma_record_pushed(v: Seq<RecordView>, e: RecordView, id: u32, k: int)
    requires
        0 <= k <= v.len(),
    ensures
        merge_calls::record_at(v.push(e), id, k) == match merge_calls::record_at(v, id, k) {
            Some(r) => Some(r),
            None => if e.site.id == id {
                Some(e)
            } else {
                None
            },
        },
    decreases v.len() - k,
{
    if k < v.len() {
        assert(v.push(e)[k] == v[k]);
        if v[k].site.id != id {
            lemma_record_pushed(v, e, id, k + 1);
        }
    } else {
        assert(v.push(e)[k] == e);
        assert(merge_calls::record_at(v.push(e), id, k + 1) is None);
    }
}

proof fn lemma_next_is_new(v: Seq<RecordView>, next: u32, k: int)
    requires
        0 <= k <= v.len(),
        forall|i: int| 0 <= i < v.len() ==> (#[trigger] v[i]).site.id < next,
    ensures
        merge_calls::record_at(v, next, k) is None,
    decreases v.len() - k,
{
    if k < v.len() {
        lemma_next_is_new(v, next, k + 1);
    }
}

/// What the first configuration makes of the first `k` calls.
#[verifier::opaque]
spec fn are_first(
    s: CallTablesView,
    r: CallTablesView,
    c: CallContext<'_>,
    calls: Seq<CallRecord>,
    k: int,
) -> bool {
    &&& are_numbered(r)
    &&& r.next_call <= s.next_call + k
    &&& forall|j: int|
        0 <= j < k ==> (merge_calls::merged_caller(c, (#[trigger] calls[j])@) matches Some(caller)
            ==> is_found(r, c, calls[j]@, caller))
    &&& forall|j: int|
        k <= j < calls.len() && merge_calls::merged_caller(c, (#[trigger] calls[j])@) is Some
            ==> merge_calls::key_at(
            r.keys,
            place_in(c, calls[j]@).0,
            place_in(c, calls[j]@).1,
            0,
        ) is None
}

proof fn lemma_still_found(
    s: CallTablesView,
    t: CallTablesView,
    c: CallContext<'_>,
    r: RecordView,
    caller: FnId,
    e: SiteKey,
    record: RecordView,
)
    requires
        is_found(s, c, r, caller),
        t.keys == s.keys.push(e),
        t.records == s.records.push(record),
    ensures
        is_found(t, c, r, caller),
{
    reveal(is_found);
    let (at, name) = place_in(c, r);
    lemma_key_pushed(s.keys, e, at, name, 0);
    let id = merge_calls::key_at(s.keys, at, name, 0)->0;
    lemma_record_pushed(s.records, record, id, 0);
}

proof fn lemma_new_call(
    s: CallTablesView,
    b: CallTablesView,
    c: CallContext<'_>,
    calls: Seq<CallRecord>,
    k: int,
    caller: FnId,
)
    requires
        0 < k <= calls.len(),
        c.mode == MergeMode::Full,
        calls_stand_apart(s, c, calls),
        s.next_call + calls.len() <= u32::MAX,
        are_first(s, b, c, calls, k - 1),
        merge_calls::merged_caller(c, calls[k - 1]@) == Some(caller),
    ensures
        are_first(
            s,
            merge_calls::call_step(b, c, calls[k - 1]@, calls[k - 1].site.callee_name),
            c,
            calls,
            k,
        ),
{
    reveal(are_first);
    let r = calls[k - 1]@;
    let name = calls[k - 1].site.callee_name;
    let t = merge_calls::call_step(b, c, r, name);
    let own = merge_calls::record_in(c, r, caller);
    let place = place_in(c, r);
    assert(merge_calls::key_at(b.keys, place.0, place.1, 0) is None);
    assert(!merge_calls::caller_is_internal(c, caller));
    assert(!merge_calls::caller_is_shared(c, caller));
    assert(own.occurrence == place.0 && own.site.callee_name == place.1);
    let e = SiteKey { occurrence: own.occurrence, name, id: b.next_call };
    assert(name@ == place.1);
    let record = t.records.last();
    assert(t.keys == b.keys.push(e));
    assert(t.records == b.records.push(record));
    assert(record.site.id == b.next_call);
    assert(merge_calls::facts(record) == merge_calls::facts(own));
    assert(are_numbered(t));
    assert forall|j: int| 0 <= j < k implies (merge_calls::merged_caller(
        c,
        (#[trigger] calls[j])@,
    ) matches Some(by) ==> is_found(t, c, calls[j]@, by)) by {
        if let Some(by) = merge_calls::merged_caller(c, calls[j]@) {
            if j < k - 1 {
                lemma_still_found(b, t, c, calls[j]@, by, e, record);
            } else {
                reveal(is_found);
                lemma_key_pushed(b.keys, e, place.0, place.1, 0);
                lemma_next_is_new(b.records, b.next_call, 0);
                lemma_record_pushed(b.records, record, b.next_call, 0);
            }
        }
    }
    assert forall|j: int|
        k <= j < calls.len() && merge_calls::merged_caller(
            c,
            (#[trigger] calls[j])@,
        ) is Some implies merge_calls::key_at(
        t.keys,
        place_in(c, calls[j]@).0,
        place_in(c, calls[j]@).1,
        0,
    ) is None by {
        assert(place_in(c, calls[k - 1]@) != place_in(c, calls[j]@));
        lemma_key_pushed(b.keys, e, place_in(c, calls[j]@).0, place_in(c, calls[j]@).1, 0);
    }
}

proof fn lemma_first_calls(
    s: CallTablesView,
    c: CallContext<'_>,
    calls: Seq<CallRecord>,
    k: int,
)
    requires
        0 <= k <= calls.len(),
        c.mode == MergeMode::Full,
        are_numbered(s),
        calls_stand_apart(s, c, calls),
        s.next_call + calls.len() <= u32::MAX,
    ensures
        are_first(s, merge_calls::calls_merged(s, c, calls, k), c, calls, k),
    decreases k,
{
    if k == 0 {
        reveal(are_first);
    } else {
        lemma_first_calls(s, c, calls, k - 1);
        let b = merge_calls::calls_merged(s, c, calls, k - 1);
        match merge_calls::merged_caller(c, calls[k - 1]@) {
            Some(caller) => lemma_new_call(s, b, c, calls, k, caller),
            None => {
                reveal(are_first);
                assert(merge_calls::calls_merged(s, c, calls, k) == b);
            },
        }
    }
}

proof fn lemma_same_record(a: CallContext<'_>, b: CallContext<'_>, r: RecordView, caller: FnId)
    requires
        are_call_configurations(a, b),
    ensures
        merge_calls::merged_caller(a, r) == merge_calls::merged_caller(b, r),
        merge_calls::record_in(a, r, caller) == merge_calls::record_in(b, r, caller),
        place_in(a, r) == place_in(b, r),
        merge_calls::caller_is_shared(a, caller) == merge_calls::caller_is_shared(b, caller),
{
}

proof fn lemma_again_calls(
    t: CallTablesView,
    a: CallContext<'_>,
    b: CallContext<'_>,
    calls: Seq<CallRecord>,
    k: int,
)
    requires
        0 <= k <= calls.len(),
        are_call_configurations(a, b),
        forall|j: int|
            0 <= j < calls.len() ==> (merge_calls::merged_caller(
                a,
                (#[trigger] calls[j])@,
            ) matches Some(caller) ==> is_found(t, a, calls[j]@, caller)
                && !merge_calls::caller_is_shared(a, caller)),
    ensures
        merge_calls::calls_merged(t, b, calls, k) == (CallTablesView {
            call_map: merge_calls::calls_merged(t, b, calls, k).call_map,
            ..t
        }),
    decreases k,
{
    if k > 0 {
        lemma_again_calls(t, a, b, calls, k - 1);
        let r = calls[k - 1]@;
        if let Some(caller) = merge_calls::merged_caller(a, r) {
            lemma_same_record(a, b, r, caller);
            reveal(is_found);
        } else {
            lemma_same_record(a, b, r, FnId(0));
        }
    }
}

/// A configuration whose calls are those of the first one adds none, nor any place
/// or user of one: it finds each where the first one recorded it.
pub proof fn law_a_repeated_configuration_adds_no_call(
    s: CallTablesView,
    a: CallContext<'_>,
    b: CallContext<'_>,
    calls: Seq<CallRecord>,
)
    requires
        are_call_configurations(a, b),
        are_numbered(s),
        calls_stand_apart(s, a, calls),
        s.next_call + calls.len() <= u32::MAX,
    ensures
        ({
            let first = merge_calls::calls_merged(s, a, calls, calls.len() as int);
            let again = merge_calls::calls_merged(
                CallTablesView { call_map: idmap::no_entries(), ..first },
                b,
                calls,
                calls.len() as int,
            );
            again == (CallTablesView { call_map: again.call_map, ..first })
        }),
{
    lemma_first_calls(s, a, calls, calls.len() as int);
    let first = merge_calls::calls_merged(s, a, calls, calls.len() as int);
    let begun = CallTablesView { call_map: idmap::no_entries(), ..first };
    assert forall|j: int| 0 <= j < calls.len() implies (merge_calls::merged_caller(
        a,
        (#[trigger] calls[j])@,
    ) matches Some(caller) ==> is_found(begun, a, calls[j]@, caller)
        && !merge_calls::caller_is_shared(a, caller)) by {
        reveal(are_first);
        reveal(is_found);
        if let Some(caller) = merge_calls::merged_caller(a, calls[j]@) {
            assert(is_found(first, a, calls[j]@, caller));
        }
    }
    lemma_again_calls(begun, a, b, calls, calls.len() as int);
}

} // verus!
