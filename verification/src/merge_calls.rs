//! Merging the calls of a unit: one record for each thing a call states at its
//! place, however many units and configurations state it.

use crate::calls::{copy_positions, ArgsView, CallSite, SiteView};
use crate::idmap;
use crate::idmap::{IdMap, IdSet};
use crate::ir::{FileId, FnId, Span, VarId};
use crate::merge::{FileInfo, FileMap, MergeMode};
use crate::merge_fns;
use crate::merge_fns::is_shared_header_function;
use crate::merge_vars;
use crate::merge_vars::is_dep_file;
use crate::program;
use crate::program::{is_internal_function, CallRecord, FnView, Function, Occurrence, RecordView, Variable};
use crate::scope;
use crate::text::str_eq;
use vstd::prelude::*;

verus! {

/// A record by the place of its call and the callee's spelling.
pub struct SiteKey {
    pub occurrence: Occurrence,
    pub name: String,
    pub id: u32,
}

fn same_span(a: Option<Span>, b: Option<Span>) -> (r: bool)
    ensures
        r == (a == b),
{
    match (a, b) {
        (Some(x), Some(y)) => x == y,
        (None, None) => true,
        _ => false,
    }
}

fn same_number(a: Option<u32>, b: Option<u32>) -> (r: bool)
    ensures
        r == (a == b),
{
    match (a, b) {
        (Some(x), Some(y)) => x == y,
        (None, None) => true,
        _ => false,
    }
}

fn same_occurrence(a: &Occurrence, b: &Occurrence) -> (r: bool)
    ensures
        r == (*a == *b),
{
    a.span == b.span && same_span(a.expansion_span, b.expansion_span) && same_number(
        a.expansion_id,
        b.expansion_id,
    )
}

/// The first record at that place, from position `k`.
pub open spec fn key_at(v: Seq<SiteKey>, at: Occurrence, name: Seq<char>, k: int) -> Option<u32>
    decreases v.len() - k,
{
    if k < 0 || k >= v.len() {
        None
    } else if v[k].occurrence == at && v[k].name@ == name {
        Some(v[k].id)
    } else {
        key_at(v, at, name, k + 1)
    }
}

fn find_key(v: &Vec<SiteKey>, at: &Occurrence, name: &str) -> (r: Option<u32>)
    ensures
        r == key_at(v@, *at, name@, 0),
{
    let mut k: usize = 0;
    while k < v.len()
        invariant
            k <= v@.len(),
            key_at(v@, *at, name@, 0) == key_at(v@, *at, name@, k as int),
        decreases v@.len() - k,
    {
        if same_occurrence(&v[k].occurrence, at) && str_eq(v[k].name.as_str(), name) {
            return Some(v[k].id);
        }
        k += 1;
    }
    None
}

/// What a record states, apart from its number and the unit that states it.
pub open spec fn facts(r: RecordView) -> RecordView {
    RecordView { site: SiteView { id: 0, tu: None, ..r.site }, ..r }
}

fn same_vars(a: &Vec<(u32, VarId)>, b: &Vec<(u32, VarId)>) -> (r: bool)
    ensures
        r == (a@ == b@),
{
    if a.len() != b.len() {
        return false;
    }
    let mut k: usize = 0;
    while k < a.len()
        invariant
            k <= a@.len(),
            a@.len() == b@.len(),
            forall|j: int| 0 <= j < k ==> #[trigger] a@[j] == b@[j],
        decreases a@.len() - k,
    {
        if a[k].0 != b[k].0 || a[k].1 != b[k].1 {
            assert(a@[k as int] != b@[k as int]);
            return false;
        }
        k += 1;
    }
    assert(a@ =~= b@);
    true
}

fn same_fns(a: &Vec<(u32, FnId)>, b: &Vec<(u32, FnId)>) -> (r: bool)
    ensures
        r == (a@ == b@),
{
    if a.len() != b.len() {
        return false;
    }
    let mut k: usize = 0;
    while k < a.len()
        invariant
            k <= a@.len(),
            a@.len() == b@.len(),
            forall|j: int| 0 <= j < k ==> #[trigger] a@[j] == b@[j],
        decreases a@.len() - k,
    {
        if a[k].0 != b[k].0 || a[k].1 != b[k].1 {
            assert(a@[k as int] != b@[k as int]);
            return false;
        }
        k += 1;
    }
    assert(a@ =~= b@);
    true
}

fn same_positions(a: &Vec<u32>, b: &Vec<u32>) -> (r: bool)
    ensures
        r == (a@ == b@),
{
    if a.len() != b.len() {
        return false;
    }
    let mut k: usize = 0;
    while k < a.len()
        invariant
            k <= a@.len(),
            a@.len() == b@.len(),
            forall|j: int| 0 <= j < k ==> #[trigger] a@[j] == b@[j],
        decreases a@.len() - k,
    {
        if a[k] != b[k] {
            assert(a@[k as int] != b@[k as int]);
            return false;
        }
        k += 1;
    }
    assert(a@ =~= b@);
    true
}

fn same_var(a: Option<VarId>, b: Option<VarId>) -> (r: bool)
    ensures
        r == (a == b),
{
    match (a, b) {
        (Some(x), Some(y)) => x == y,
        (None, None) => true,
        _ => false,
    }
}

fn same_fn(a: Option<FnId>, b: Option<FnId>) -> (r: bool)
    ensures
        r == (a == b),
{
    match (a, b) {
        (Some(x), Some(y)) => x == y,
        (None, None) => true,
        _ => false,
    }
}

fn same_text(a: &Option<String>, b: &Option<String>) -> (r: bool)
    ensures
        r == (scope::opt_view(*a) == scope::opt_view(*b)),
{
    match (a, b) {
        (Some(x), Some(y)) => str_eq(x.as_str(), y.as_str()),
        (None, None) => true,
        _ => false,
    }
}

/// Whether two records state the same: the caller, the callee, every argument
/// and the result, at the same place.
pub fn same_facts(a: &CallRecord, b: &CallRecord) -> (r: bool)
    ensures
        r == (facts(a@) == facts(b@)),
{
    let x = &a.site;
    let y = &b.site;
    let r = x.caller == y.caller && str_eq(x.callee_name.as_str(), y.callee_name.as_str())
        && same_var(x.callee_var, y.callee_var) && same_fn(x.callee_fn_id, y.callee_fn_id)
        && same_vars(&x.var_args, &y.var_args) && same_fns(&x.fn_args, &y.fn_args)
        && same_positions(&x.addr_of_member_args, &y.addr_of_member_args)
        && x.args_bound_past_this == y.args_bound_past_this && x.span == y.span && x.is_direct
        == y.is_direct && same_text(&x.receiver_class, &y.receiver_class) && same_var(
        x.return_dst,
        y.return_dst,
    ) && same_positions(&a.addr_of_args, &b.addr_of_args) && same_span(
        a.expansion_span,
        b.expansion_span,
    ) && a.scope_file == b.scope_file && same_occurrence(&a.occurrence, &b.occurrence);
    proof {
        let p = facts(a@);
        let q = facts(b@);
        if p == q {
            assert(p.site.args == q.site.args);
        }
    }
    r
}

/// The first record with that number, from position `k`.
pub open spec fn record_at(v: Seq<RecordView>, id: u32, k: int) -> Option<RecordView>
    decreases v.len() - k,
{
    if k < 0 || k >= v.len() {
        None
    } else if v[k].site.id == id {
        Some(v[k])
    } else {
        record_at(v, id, k + 1)
    }
}

/// The record with that number states what `r` does.
pub open spec fn states(v: Seq<RecordView>, id: u32, r: RecordView) -> bool {
    match record_at(v, id, 0) {
        Some(own) => facts(own) == facts(r),
        None => false,
    }
}

fn record_states(v: &Vec<CallRecord>, id: u32, r: &CallRecord) -> (b: bool)
    ensures
        b == states(program::record_views(v@), id, r@),
{
    let ghost all = program::record_views(v@);
    let mut k: usize = 0;
    while k < v.len()
        invariant
            k <= v@.len(),
            all == program::record_views(v@),
            record_at(all, id, 0) == record_at(all, id, k as int),
        decreases v@.len() - k,
    {
        assert(all[k as int] == v@[k as int]@);
        if v[k].site.id == id {
            return same_facts(&v[k], r);
        }
        k += 1;
    }
    false
}

/// The first record that bodies merged into others left at that place and that
/// states what `r` does, from position `k`.
pub open spec fn repeated_at(
    v: Seq<SiteKey>,
    records: Seq<RecordView>,
    r: RecordView,
    k: int,
) -> Option<u32>
    decreases v.len() - k,
{
    if k < 0 || k >= v.len() {
        None
    } else if v[k].occurrence == r.occurrence && v[k].name@ == r.site.callee_name && states(
        records,
        v[k].id,
        r,
    ) {
        Some(v[k].id)
    } else {
        repeated_at(v, records, r, k + 1)
    }
}

/// What the calls of a unit are merged along with.
pub struct CallContext<'a> {
    pub mode: MergeMode,
    pub map: &'a FileMap,
    pub files: &'a Vec<FileInfo>,
    pub functions: &'a Vec<Function>,
    /// The header bodies that units share.
    pub users: &'a Vec<(FnId, FileId)>,
    pub fn_map: &'a IdMap,
    pub var_map: &'a IdMap,
    pub dropped: &'a IdSet,
}

pub struct CallTables {
    pub records: Vec<CallRecord>,
    pub next_call: u32,
    /// The record that stands for a place.
    pub keys: Vec<SiteKey>,
    /// The records that bodies merged into others left at a place.
    pub repeats: Vec<SiteKey>,
    /// The units that share a record of a header body.
    pub users: Vec<(u32, FileId)>,
    /// The numbers of the unit's calls in the program.
    pub call_map: IdMap,
}

pub struct CallTablesView {
    pub records: Seq<RecordView>,
    pub next_call: u32,
    pub keys: Seq<SiteKey>,
    pub repeats: Seq<SiteKey>,
    pub users: Seq<(u32, FileId)>,
    pub call_map: Map<u32, u32>,
}

impl CallTables {
    pub open spec fn view(&self) -> CallTablesView {
        CallTablesView {
            records: program::record_views(self.records@),
            next_call: self.next_call,
            keys: self.keys@,
            repeats: self.repeats@,
            users: self.users@,
            call_map: self.call_map@,
        }
    }
}

pub open spec fn fn_found(fns: Map<u32, u32>, f: Option<FnId>) -> Option<FnId> {
    match f {
        Some(f) => match idmap::found(fns, f.0) {
            Some(id) => Some(FnId(id)),
            None => None,
        },
        None => None,
    }
}

pub open spec fn var_found(vars: Map<u32, u32>, v: Option<VarId>) -> Option<VarId> {
    match v {
        Some(v) => match idmap::found(vars, v.0) {
            Some(id) => Some(VarId(id)),
            None => None,
        },
        None => None,
    }
}

/// The arguments among the first `k` that have a number in the program.
pub open spec fn var_args_in(args: Seq<(u32, VarId)>, vars: Map<u32, u32>, k: int) -> Seq<
    (u32, VarId),
>
    decreases k,
{
    if k <= 0 {
        seq![]
    } else {
        let before = var_args_in(args, vars, k - 1);
        match idmap::found(vars, args[k - 1].1.0) {
            Some(id) => before.push((args[k - 1].0, VarId(id))),
            None => before,
        }
    }
}

pub open spec fn fn_args_in(args: Seq<(u32, FnId)>, fns: Map<u32, u32>, k: int) -> Seq<(u32, FnId)>
    decreases k,
{
    if k <= 0 {
        seq![]
    } else {
        let before = fn_args_in(args, fns, k - 1);
        match idmap::found(fns, args[k - 1].1.0) {
            Some(id) => before.push((args[k - 1].0, FnId(id))),
            None => before,
        }
    }
}

pub open spec fn span_in(map: FileMap, span: Option<Span>) -> Option<Span> {
    match span {
        Some(s) => Some(map.spec_span(s)),
        None => None,
    }
}

pub open spec fn occurrence_in(map: FileMap, at: Occurrence) -> Occurrence {
    Occurrence {
        span: map.spec_span(at.span),
        expansion_span: span_in(map, at.expansion_span),
        expansion_id: at.expansion_id,
    }
}

/// A call of the function `caller`, over the program's numbers. What has no
/// number there is left out.
pub open spec fn record_in(c: CallContext<'_>, r: RecordView, caller: FnId) -> RecordView {
    RecordView {
        site: SiteView {
            caller,
            callee_fn_id: fn_found(c.fn_map@, r.site.callee_fn_id),
            callee_var: var_found(c.var_map@, r.site.callee_var),
            args: ArgsView {
                var_args: var_args_in(
                    r.site.args.var_args,
                    c.var_map@,
                    r.site.args.var_args.len() as int,
                ),
                fn_args: fn_args_in(
                    r.site.args.fn_args,
                    c.fn_map@,
                    r.site.args.fn_args.len() as int,
                ),
                addr_of_member_args: r.site.args.addr_of_member_args,
            },
            return_dst: var_found(c.var_map@, r.site.return_dst),
            span: c.map.spec_span(r.site.span),
            ..r.site
        },
        addr_of_args: r.addr_of_args,
        expansion_span: span_in(*c.map, r.expansion_span),
        scope_file: c.map.spec_of(r.scope_file),
        occurrence: occurrence_in(*c.map, r.occurrence),
    }
}

fn placed_var_args(args: &Vec<(u32, VarId)>, vars: &IdMap) -> (r: Vec<(u32, VarId)>)
    ensures
        r@ == var_args_in(args@, vars@, args@.len() as int),
{
    let mut out: Vec<(u32, VarId)> = Vec::new();
    let mut k: usize = 0;
    while k < args.len()
        invariant
            k <= args@.len(),
            out@ == var_args_in(args@, vars@, k as int),
        decreases args@.len() - k,
    {
        match vars.get(args[k].1.0) {
            Some(id) => out.push((args[k].0, VarId(id))),
            None => {},
        }
        k += 1;
    }
    out
}

fn placed_fn_args(args: &Vec<(u32, FnId)>, fns: &IdMap) -> (r: Vec<(u32, FnId)>)
    ensures
        r@ == fn_args_in(args@, fns@, args@.len() as int),
{
    let mut out: Vec<(u32, FnId)> = Vec::new();
    let mut k: usize = 0;
    while k < args.len()
        invariant
            k <= args@.len(),
            out@ == fn_args_in(args@, fns@, k as int),
        decreases args@.len() - k,
    {
        match fns.get(args[k].1.0) {
            Some(id) => out.push((args[k].0, FnId(id))),
            None => {},
        }
        k += 1;
    }
    out
}

fn placed_fn(fns: &IdMap, f: Option<FnId>) -> (r: Option<FnId>)
    ensures
        r == fn_found(fns@, f),
{
    match f {
        Some(f) => match fns.get(f.0) {
            Some(id) => Some(FnId(id)),
            None => None,
        },
        None => None,
    }
}

fn placed_var(vars: &IdMap, v: Option<VarId>) -> (r: Option<VarId>)
    ensures
        r == var_found(vars@, v),
{
    match v {
        Some(v) => match vars.get(v.0) {
            Some(id) => Some(VarId(id)),
            None => None,
        },
        None => None,
    }
}

fn placed_span(map: &FileMap, span: Option<Span>) -> (r: Option<Span>)
    ensures
        r == span_in(*map, span),
{
    match span {
        Some(s) => Some(map.span(s)),
        None => None,
    }
}

fn placed_record(c: &CallContext<'_>, r: &CallRecord, caller: FnId) -> (own: CallRecord)
    ensures
        own@ == record_in(*c, r@, caller),
{
    let site = &r.site;
    CallRecord {
        site: CallSite {
            id: site.id,
            caller,
            callee_name: site.callee_name.clone(),
            callee_var: placed_var(c.var_map, site.callee_var),
            callee_fn_id: placed_fn(c.fn_map, site.callee_fn_id),
            var_args: placed_var_args(&site.var_args, c.var_map),
            fn_args: placed_fn_args(&site.fn_args, c.fn_map),
            addr_of_member_args: copy_positions(&site.addr_of_member_args),
            args_bound_past_this: site.args_bound_past_this,
            span: c.map.span(site.span),
            is_direct: site.is_direct,
            receiver_class: match &site.receiver_class {
                Some(s) => Some(s.clone()),
                None => None,
            },
            return_dst: placed_var(c.var_map, site.return_dst),
            tu: site.tu,
        },
        addr_of_args: copy_positions(&r.addr_of_args),
        expansion_span: placed_span(c.map, r.expansion_span),
        scope_file: c.map.of(r.scope_file),
        occurrence: Occurrence {
            span: c.map.span(r.occurrence.span),
            expansion_span: placed_span(c.map, r.occurrence.expansion_span),
            expansion_id: r.occurrence.expansion_id,
        },
    }
}

/// The caller of a call in the program, where the call is merged at all: its
/// function is, its code is the program's own, and the mode takes it over.
pub open spec fn merged_caller(c: CallContext<'_>, r: RecordView) -> Option<FnId> {
    match idmap::found(c.fn_map@, r.site.caller.0) {
        Some(id) => if c.dropped@.contains(r.site.caller.0) || merge_vars::is_dep(
            c.files@,
            c.map.spec_of(r.scope_file),
        ) || (c.mode == MergeMode::SymbolsOnly && !program::is_internal_fn(
            program::fn_views(c.functions@),
            FnId(id),
        )) {
            None
        } else {
            Some(FnId(id))
        },
        None => None,
    }
}

pub open spec fn caller_is_internal(c: CallContext<'_>, caller: FnId) -> bool {
    program::is_internal_fn(program::fn_views(c.functions@), caller)
}

pub open spec fn caller_is_shared(c: CallContext<'_>, caller: FnId) -> bool {
    merge_fns::is_shared(c.users@, caller)
}

/// The call's body is merged into one the program holds.
pub open spec fn is_remerge(c: CallContext<'_>, caller: FnId) -> bool {
    c.mode == MergeMode::Variant || caller_is_shared(c, caller)
}

/// What becomes of a call.
pub enum CallRoute {
    Skipped,
    /// The program holds it as that record. A shared body's users are noted.
    Is { id: u32, shared: bool },
    /// The program takes the record in.
    New { record: RecordView, caller: FnId },
}

pub open spec fn call_route(s: CallTablesView, c: CallContext<'_>, r: RecordView) -> CallRoute {
    match merged_caller(c, r) {
        None => CallRoute::Skipped,
        Some(caller) => {
            let own = record_in(c, r, caller);
            let standing = key_at(s.keys, own.occurrence, own.site.callee_name, 0);
            if c.mode != MergeMode::Variant && !caller_is_internal(c, caller) && standing is Some {
                CallRoute::Is { id: standing->0, shared: false }
            } else if !is_remerge(c, caller) {
                CallRoute::New { record: own, caller }
            } else if standing is Some && states(s.records, standing->0, own) {
                CallRoute::Is { id: standing->0, shared: caller_is_shared(c, caller) }
            } else {
                match repeated_at(s.repeats, s.records, own, 0) {
                    Some(id) => CallRoute::Is { id, shared: caller_is_shared(c, caller) },
                    None => CallRoute::New { record: own, caller },
                }
            }
        },
    }
}

pub open spec fn with_call_user(users: Seq<(u32, FileId)>, id: u32, unit: FileId) -> Seq<
    (u32, FileId),
> {
    if users.contains((id, unit)) {
        users
    } else {
        users.push((id, unit))
    }
}

/// The record of a place, the first one that claimed it.
pub open spec fn with_key(keys: Seq<SiteKey>, e: SiteKey) -> Seq<SiteKey> {
    if key_at(keys, e.occurrence, e.name@, 0) is Some {
        keys
    } else {
        keys.push(e)
    }
}

/// The tables once the call is merged, where `name` is its callee's spelling.
pub open spec fn call_step(
    s: CallTablesView,
    c: CallContext<'_>,
    r: RecordView,
    name: String,
) -> CallTablesView {
    match call_route(s, c, r) {
        CallRoute::Skipped => s,
        CallRoute::Is { id, shared } => CallTablesView {
            users: if shared {
                with_call_user(s.users, id, c.map.primary)
            } else {
                s.users
            },
            call_map: s.call_map.insert(r.site.id, id),
            ..s
        },
        CallRoute::New { record, caller } => {
            let id = s.next_call;
            let e = SiteKey { occurrence: record.occurrence, name, id };
            let stands = !caller_is_internal(c, caller) || caller_is_shared(c, caller);
            CallTablesView {
                records: s.records.push(
                    RecordView {
                        site: SiteView { id, tu: Some(c.map.primary), ..record.site },
                        ..record
                    },
                ),
                next_call: (s.next_call + 1) as u32,
                keys: if stands {
                    with_key(s.keys, e)
                } else {
                    s.keys
                },
                repeats: if stands && is_remerge(c, caller) {
                    s.repeats.push(e)
                } else {
                    s.repeats
                },
                users: if caller_is_shared(c, caller) {
                    with_call_user(s.users, id, c.map.primary)
                } else {
                    s.users
                },
                call_map: s.call_map.insert(r.site.id, id),
            }
        },
    }
}

/// The tables once the first `k` calls of the unit are merged.
pub open spec fn calls_merged(
    s: CallTablesView,
    c: CallContext<'_>,
    unit: Seq<CallRecord>,
    k: int,
) -> CallTablesView
    decreases k,
{
    if k <= 0 {
        s
    } else {
        call_step(
            calls_merged(s, c, unit, k - 1),
            c,
            unit[k - 1]@,
            unit[k - 1].site.callee_name,
        )
    }
}

impl CallTables {
    fn add_user(&mut self, id: u32, unit: FileId)
        ensures
            final(self)@ == (CallTablesView {
                users: with_call_user(old(self)@.users, id, unit),
                ..old(self)@
            }),
    {
        let mut k: usize = 0;
        while k < self.users.len()
            invariant
                k <= self.users@.len(),
                self@ == old(self)@,
                forall|j: int| 0 <= j < k ==> #[trigger] self.users@[j] != (id, unit),
            decreases self.users@.len() - k,
        {
            if self.users[k].0 == id && self.users[k].1 == unit {
                assert(self.users@[k as int] == (id, unit));
                return;
            }
            k += 1;
        }
        self.users.push((id, unit));
    }

    fn repeated(&self, r: &CallRecord) -> (b: Option<u32>)
        ensures
            b == repeated_at(self@.repeats, self@.records, r@, 0),
    {
        let mut k: usize = 0;
        while k < self.repeats.len()
            invariant
                k <= self.repeats@.len(),
                repeated_at(self@.repeats, self@.records, r@, 0) == repeated_at(
                    self@.repeats,
                    self@.records,
                    r@,
                    k as int,
                ),
            decreases self.repeats@.len() - k,
        {
            let e = &self.repeats[k];
            if same_occurrence(&e.occurrence, &r.occurrence) && str_eq(
                e.name.as_str(),
                r.site.callee_name.as_str(),
            ) && record_states(&self.records, e.id, r) {
                return Some(e.id);
            }
            k += 1;
        }
        None
    }

    /// Merge one call of the unit.
    pub fn merge_call(&mut self, c: &CallContext<'_>, r: &CallRecord)
        requires
            old(self).next_call < u32::MAX,
        ensures
            final(self)@ == call_step(old(self)@, *c, r@, r.site.callee_name),
    {
        if c.dropped.contains(r.site.caller.0) {
            return;
        }
        let caller = match c.fn_map.get(r.site.caller.0) {
            Some(id) => FnId(id),
            None => {
                return;
            },
        };
        if is_dep_file(c.files, c.map.of(r.scope_file)) {
            return;
        }
        let internal = is_internal_function(c.functions, caller);
        if c.mode == MergeMode::SymbolsOnly && !internal {
            return;
        }
        assert(merged_caller(*c, r@) == Some(caller));
        let shared = is_shared_header_function(c.users, caller);
        let remerge = c.mode == MergeMode::Variant || shared;
        let mut own = placed_record(c, r, caller);
        let standing = find_key(
            &self.keys,
            &own.occurrence,
            own.site.callee_name.as_str(),
        );
        if c.mode != MergeMode::Variant && !internal {
            match standing {
                Some(id) => {
                    self.call_map.insert(r.site.id, id);
                    return;
                },
                None => {},
            }
        }
        if remerge {
            let known = match standing {
                Some(id) => if record_states(&self.records, id, &own) {
                    Some(id)
                } else {
                    self.repeated(&own)
                },
                None => self.repeated(&own),
            };
            match known {
                Some(id) => {
                    if shared {
                        self.add_user(id, c.map.primary);
                    }
                    self.call_map.insert(r.site.id, id);
                    return;
                },
                None => {},
            }
        }
        let ghost placed = own@;
        let ghost before = self@;
        let id = self.next_call;
        self.next_call = self.next_call + 1;
        own.site.id = id;
        own.site.tu = Some(c.map.primary);
        let at = own.occurrence;
        let ghost records = self.records@;
        assert(own@ == (RecordView {
            site: SiteView { id, tu: Some(c.map.primary), ..placed.site },
            ..placed
        }));
        self.records.push(own);
        assert(program::record_views(self.records@) =~= program::record_views(records).push(own@));
        if shared {
            self.add_user(id, c.map.primary);
        }
        if !internal || shared {
            if remerge {
                self.repeats.push(
                    SiteKey { occurrence: at, name: r.site.callee_name.clone(), id },
                );
            }
            if standing.is_none() {
                self.keys.push(SiteKey { occurrence: at, name: r.site.callee_name.clone(), id });
            }
        }
        self.call_map.insert(r.site.id, id);
        assert(self@ == call_step(before, *c, r@, r.site.callee_name));
    }

    /// Merge the calls of a unit in turn.
    pub fn merge_calls(&mut self, c: &CallContext<'_>, unit: &Vec<CallRecord>)
        requires
            old(self).next_call + unit@.len() <= u32::MAX,
        ensures
            final(self)@ == calls_merged(old(self)@, *c, unit@, unit@.len() as int),
    {
        let ghost first = self@;
        let mut k: usize = 0;
        while k < unit.len()
            invariant
                k <= unit@.len(),
                first.next_call + unit@.len() <= u32::MAX,
                self@ == calls_merged(first, *c, unit@, k as int),
                self.next_call <= first.next_call + k,
            decreases unit@.len() - k,
        {
            self.merge_call(c, &unit[k]);
            k += 1;
        }
    }
}

/// A body that is merged again adds no record for what is stated already: the
/// call is the record that stands at its place and states it.
pub proof fn law_a_call_is_recorded_once(
    s: CallTablesView,
    c: CallContext<'_>,
    r: RecordView,
    name: String,
    caller: FnId,
)
    requires
        merged_caller(c, r) == Some(caller),
        is_remerge(c, caller),
        key_at(s.keys, occurrence_in(*c.map, r.occurrence), r.site.callee_name, 0) matches Some(id)
            && states(s.records, id, record_in(c, r, caller)),
    ensures
        call_step(s, c, r, name).records == s.records,
        call_step(s, c, r, name).call_map.dom().contains(r.site.id),
{
}

/// Merging calls keeps the records there are, each under its number, and the
/// records that stand for places.
pub proof fn law_records_stay(
    s: CallTablesView,
    c: CallContext<'_>,
    unit: Seq<CallRecord>,
    k: int,
)
    requires
        0 <= k <= unit.len(),
    ensures
        s.records.is_prefix_of(calls_merged(s, c, unit, k).records),
        s.keys.is_prefix_of(calls_merged(s, c, unit, k).keys),
        calls_merged(s, c, unit, k).records.len() <= s.records.len() + k,
    decreases k,
{
    if k > 0 {
        law_records_stay(s, c, unit, k - 1);
    }
}

/// What a body states differently at a place is a record of its own, beside
/// the one that stands for the place.
pub proof fn law_differing_calls_stay_apart(
    s: CallTablesView,
    c: CallContext<'_>,
    r: RecordView,
    name: String,
    caller: FnId,
)
    requires
        merged_caller(c, r) == Some(caller),
        c.mode == MergeMode::Variant,
        forall|id: u32| !(#[trigger] states(s.records, id, record_in(c, r, caller))),
    ensures
        call_step(s, c, r, name).records.len() == s.records.len() + 1,
        facts(call_step(s, c, r, name).records.last()) == facts(record_in(c, r, caller)),
        key_at(s.keys, occurrence_in(*c.map, r.occurrence), name@, 0) is Some ==> call_step(
            s,
            c,
            r,
            name,
        ).keys == s.keys,
{
    lemma_nothing_repeated(s.repeats, s.records, record_in(c, r, caller), 0);
}

proof fn lemma_nothing_repeated(
    v: Seq<SiteKey>,
    records: Seq<RecordView>,
    r: RecordView,
    k: int,
)
    requires
        0 <= k,
        forall|id: u32| !(#[trigger] states(records, id, r)),
    ensures
        repeated_at(v, records, r, k) is None,
    decreases v.len() - k,
{
    if k < v.len() {
        lemma_nothing_repeated(v, records, r, k + 1);
    }
}

/// The call names variables and functions of the program only.
pub open spec fn names_held(r: RecordView, vars: Seq<Variable>, fns: Seq<FnView>) -> bool {
    &&& program::holds_fn(fns, r.site.caller)
    &&& r.site.callee_fn_id matches Some(f) ==> program::holds_fn(fns, f)
    &&& r.site.callee_var matches Some(v) ==> program::holds_var(vars, v)
    &&& r.site.return_dst matches Some(v) ==> program::holds_var(vars, v)
    &&& forall|k: int|
        0 <= k < r.site.args.var_args.len() ==> program::holds_var(
            vars,
            (#[trigger] r.site.args.var_args[k]).1,
        )
    &&& forall|k: int|
        0 <= k < r.site.args.fn_args.len() ==> program::holds_fn(
            fns,
            (#[trigger] r.site.args.fn_args[k]).1,
        )
}

proof fn lemma_var_args_held(
    args: Seq<(u32, VarId)>,
    map: Map<u32, u32>,
    vars: Seq<Variable>,
    k: int,
)
    requires
        0 <= k <= args.len(),
        program::gives_vars(map, vars),
    ensures
        forall|i: int|
            0 <= i < var_args_in(args, map, k).len() ==> program::holds_var(
                vars,
                (#[trigger] var_args_in(args, map, k)[i]).1,
            ),
    decreases k,
{
    if k > 0 {
        lemma_var_args_held(args, map, vars, k - 1);
        let before = var_args_in(args, map, k - 1);
        let after = var_args_in(args, map, k);
        assert forall|i: int| 0 <= i < after.len() implies program::holds_var(
            vars,
            (#[trigger] after[i]).1,
        ) by {
            if i < before.len() {
                assert(after[i] == before[i]);
            } else {
                assert(map.dom().contains(args[k - 1].1.0));
            }
        }
    }
}

proof fn lemma_fn_args_held(args: Seq<(u32, FnId)>, map: Map<u32, u32>, fns: Seq<FnView>, k: int)
    requires
        0 <= k <= args.len(),
        program::gives_fns(map, fns),
    ensures
        forall|i: int|
            0 <= i < fn_args_in(args, map, k).len() ==> program::holds_fn(
                fns,
                (#[trigger] fn_args_in(args, map, k)[i]).1,
            ),
    decreases k,
{
    if k > 0 {
        lemma_fn_args_held(args, map, fns, k - 1);
        let before = fn_args_in(args, map, k - 1);
        let after = fn_args_in(args, map, k);
        assert forall|i: int| 0 <= i < after.len() implies program::holds_fn(
            fns,
            (#[trigger] after[i]).1,
        ) by {
            if i < before.len() {
                assert(after[i] == before[i]);
            } else {
                assert(map.dom().contains(args[k - 1].1.0));
            }
        }
    }
}

/// Merging a unit keeps the records there are, and those it adds name variables
/// and functions of the program only.
pub proof fn law_added_calls_name_the_programs(
    s: CallTablesView,
    c: CallContext<'_>,
    unit: Seq<CallRecord>,
    vars: Seq<Variable>,
    k: int,
)
    requires
        0 <= k <= unit.len(),
        program::gives_vars(c.var_map@, vars),
        program::gives_fns(c.fn_map@, program::fn_views(c.functions@)),
    ensures
        s.records.is_prefix_of(calls_merged(s, c, unit, k).records),
        forall|i: int|
            s.records.len() <= i < calls_merged(s, c, unit, k).records.len() ==> names_held(
                #[trigger] calls_merged(s, c, unit, k).records[i],
                vars,
                program::fn_views(c.functions@),
            ),
    decreases k,
{
    if k > 0 {
        law_added_calls_name_the_programs(s, c, unit, vars, k - 1);
        let before = calls_merged(s, c, unit, k - 1);
        let after = calls_merged(s, c, unit, k);
        let fns = program::fn_views(c.functions@);
        let r = unit[k - 1]@;
        if let Some(caller) = merged_caller(c, r) {
            let args = r.site.args;
            lemma_var_args_held(args.var_args, c.var_map@, vars, args.var_args.len() as int);
            lemma_fn_args_held(args.fn_args, c.fn_map@, fns, args.fn_args.len() as int);
            assert(c.fn_map@.dom().contains(r.site.caller.0));
            assert(names_held(record_in(c, r, caller), vars, fns));
        }
        assert forall|i: int| s.records.len() <= i < after.records.len() implies names_held(
            #[trigger] after.records[i],
            vars,
            fns,
        ) by {
            if i < before.records.len() {
                assert(after.records[i] == before.records[i]);
            }
        }
    }
}

} // verus!
