//! The merge of a unit's functions: those the program has a place for are
//! settled in a row, and each of the others waits for its number.

use crate::facts::ClassFacts;
use crate::idmap::IdMap;
use crate::ir::{FileId, FnId};
use crate::merge;
use crate::merge::MergeMode;
use crate::merge_calls::{CallTables, CallTablesView};
use crate::merge_flow;
use crate::merge_flow::{FlowTables, FlowTablesView, Returns};
use crate::merge_fns;
use crate::merge_fns::{
    place_function, FnContext, FnKeys, FnMerge, FnMergeView, Placement, Registered,
};
use crate::merge_vars::VarTables;
use crate::program;
use crate::program::definition_text;
use crate::target;
use crate::target::{link_target, LinkSpec};
use crate::unit::{Program, UnitIndex};
use vstd::prelude::*;

verus! {

impl ClassFacts {
    pub fn new() -> (r: ClassFacts)
        ensures
            r.anon_types == 0,
            r.inheritance@.len() == 0,
            r.template_bases@.len() == 0,
            r.arrow_returns@.len() == 0,
            r.member_returns@.len() == 0,
            r.final_classes@.len() == 0,
            r.namespaces@.len() == 0,
            r.anonymous_classes@.len() == 0,
            r.anonymous_final_classes@.len() == 0,
            r.anonymous_bases@.len() == 0,
    {
        ClassFacts {
            anon_types: 0,
            inheritance: Vec::new(),
            template_bases: Vec::new(),
            arrow_returns: Vec::new(),
            member_returns: Vec::new(),
            final_classes: Vec::new(),
            namespaces: Vec::new(),
            anonymous_classes: Vec::new(),
            anonymous_final_classes: Vec::new(),
            anonymous_bases: Vec::new(),
        }
    }
}

impl Program {
    /// Nothing was merged yet.
    pub open spec fn is_empty(&self) -> bool {
        &&& self.files@.len() == 0
        &&& self.brought_in@.len() == 0
        &&& self.diagnostics@.len() == 0
        &&& self.findings@.len() == 0
        &&& self.keys.headers@.len() == 0
        &&& self.keys.lines@.len() == 0
        &&& self.keys.bases@.len() == 0
        &&& self.header_users@.len() == 0
        &&& self.definitions@.len() == 0
        &&& self.symbols@.functions.len() == 0
        &&& self.symbols@.variables.len() == 0
        &&& self.symbols@.next_var == 0
        &&& self.symbols@.file_vars.len() == 0
        &&& self.calls@.records.len() == 0
        &&& self.calls@.next_call == 0
        &&& self.calls@.keys.len() == 0
        &&& self.calls@.repeats.len() == 0
        &&& self.calls@.users.len() == 0
        &&& self.flow@.flow.len() == 0
        &&& self.flow@.header_flow.len() == 0
        &&& self.flow@.variant_flow.len() == 0
        &&& self.returns.entries@.len() == 0
        &&& self.sources@.len() == 0
        &&& self.variants_merged == 0
        &&& !self.layouts_unioned
        &&& self.link_targets@.len() == 0
    }

    pub fn new() -> (r: Program)
        ensures
            r.is_empty(),
    {
        Program {
            classes: ClassFacts::new(),
            files: Vec::new(),
            brought_in: Vec::new(),
            diagnostics: Vec::new(),
            findings: Vec::new(),
            keys: FnKeys { headers: Vec::new(), lines: Vec::new(), bases: Vec::new() },
            header_users: Vec::new(),
            definitions: Vec::new(),
            symbols: VarTables {
                functions: Vec::new(),
                variables: Vec::new(),
                next_var: 0,
                file_vars: Vec::new(),
                var_map: IdMap::new(),
                locals: Vec::new(),
                temps: Vec::new(),
                given: Vec::new(),
            },
            calls: CallTables {
                records: Vec::new(),
                next_call: 0,
                keys: Vec::new(),
                repeats: Vec::new(),
                users: Vec::new(),
                call_map: IdMap::new(),
            },
            flow: FlowTables {
                flow: Vec::new(),
                header_flow: Vec::new(),
                variant_flow: Vec::new(),
            },
            returns: Returns { entries: Vec::new() },
            sources: Vec::new(),
            variants_merged: 0,
            layouts_unioned: false,
            link_targets: Vec::new(),
        }
    }

    /// Where the program has a place for a unit's function.
    pub open spec fn place_of(&self, c: FnContext<'_>, unit: UnitIndex, k: int) -> Placement {
        merge_fns::placement(
            self.keys,
            self.symbols@.functions,
            self.symbols.variables@,
            c,
            unit.functions@[k]@,
            program::text_at(unit.internal_definitions@, unit.functions@[k].id, 0),
        )
    }

    /// The first of a unit's functions from position `k` that the program has
    /// to take in.
    pub open spec fn first_new(&self, c: FnContext<'_>, unit: UnitIndex, k: int) -> int
        decreases unit.functions@.len() - k,
    {
        if k >= unit.functions@.len() || self.place_of(c, unit, k) == Placement::New {
            k
        } else {
            self.first_new(c, unit, k + 1)
        }
    }

    /// The unit's merge once its functions from `from` up to `k` have their
    /// places.
    pub open spec fn settled_up_to(
        &self,
        s: FnMergeView,
        c: FnContext<'_>,
        unit: UnitIndex,
        from: int,
        k: int,
    ) -> FnMergeView
        decreases k,
    {
        if k <= from || k <= 0 {
            s
        } else {
            merge_fns::settled(
                self.settled_up_to(s, c, unit, from, k - 1),
                self.symbols@.functions,
                self.symbols.variables@,
                unit.variables@,
                unit.functions@[k - 1]@,
                self.place_of(c, unit, k - 1),
            )
        }
    }

    /// The units that share a header body, once the functions from `from` up
    /// to `k` have their places.
    pub open spec fn users_up_to(
        &self,
        c: FnContext<'_>,
        unit: UnitIndex,
        from: int,
        k: int,
    ) -> Seq<(FnId, FileId)>
        decreases k,
    {
        if k <= from || k <= 0 {
            self.header_users@
        } else {
            let before = self.users_up_to(c, unit, from, k - 1);
            match self.place_of(c, unit, k - 1) {
                Placement::Extends { id, shared: true } => merge_fns::with_user(
                    before,
                    id,
                    c.map.primary,
                ),
                _ => before,
            }
        }
    }

    /// The program is `before` with a unit's functions from `from` up to `to`
    /// settled, which makes `after` of the unit's merge.
    pub open spec fn are_placed(
        &self,
        before: &Program,
        fns: FnMergeView,
        after: FnMergeView,
        c: FnContext<'_>,
        unit: UnitIndex,
        from: int,
        to: int,
    ) -> bool {
        &&& after == before.settled_up_to(fns, c, unit, from, to)
        &&& self.header_users@ == before.users_up_to(c, unit, from, to)
        &&& *self == (Program { header_users: self.header_users, ..*before })
    }

    /// Settle a unit's functions from position `from`, up to the first the
    /// program has to take in.
    pub fn place_functions(
        &mut self,
        c: &FnContext<'_>,
        unit: &UnitIndex,
        fns: &mut FnMerge,
        from: usize,
    ) -> (r: usize)
        requires
            from <= unit.functions@.len(),
        ensures
            r == old(self).first_new(*c, *unit, from as int),
            from <= r <= unit.functions@.len(),
            final(self).are_placed(old(self), old(fns)@, final(fns)@, *c, *unit, from as int, r as int),
    {
        let ghost before = *self;
        let ghost started = fns@;
        let mut k: usize = from;
        while k < unit.functions.len()
            invariant
                from <= k <= unit.functions@.len(),
                before == *old(self),
                started == old(fns)@,
                *self == (Program { header_users: self.header_users, ..before }),
                fns@ == before.settled_up_to(started, *c, *unit, from as int, k as int),
                self.header_users@ == before.users_up_to(*c, *unit, from as int, k as int),
                before.first_new(*c, *unit, from as int) == before.first_new(
                    *c,
                    *unit,
                    k as int,
                ),
            decreases unit.functions@.len() - k,
        {
            let f = &unit.functions[k];
            let place = match definition_text(&unit.internal_definitions, f.id) {
                Some(t) => place_function(
                    &self.keys,
                    &self.symbols.functions,
                    &self.symbols.variables,
                    c,
                    f,
                    Some(t.as_str()),
                ),
                None => place_function(
                    &self.keys,
                    &self.symbols.functions,
                    &self.symbols.variables,
                    c,
                    f,
                    None,
                ),
            };
            assert(place == before.place_of(*c, *unit, k as int));
            if let Placement::New = place {
                return k;
            }
            fns.settle(
                &mut self.header_users,
                &self.symbols.functions,
                &self.symbols.variables,
                &unit.variables,
                c.map,
                f,
                &place,
            );
            k += 1;
        }
        k
    }

    /// Take in the function at position `k` under the number it got.
    pub fn take_in(
        &mut self,
        c: &FnContext<'_>,
        unit: &UnitIndex,
        fns: &mut FnMerge,
        k: usize,
        got: Registered,
    )
        requires
            k < unit.functions@.len(),
        ensures
            final(fns)@ == merge_fns::entered(
                old(fns)@,
                *c.map,
                unit.functions@[k as int]@,
                program::text_at(
                    unit.internal_definitions@,
                    unit.functions@[k as int].id,
                    0,
                ),
                got,
            ),
            final(self).is_taken_in(old(self), *c, *unit, k as int, got),
    {
        let f = &unit.functions[k];
        let text = match definition_text(&unit.internal_definitions, f.id) {
            Some(t) => Some(t.as_str()),
            None => None,
        };
        fns.enter(
            &mut self.keys,
            &mut self.header_users,
            &mut self.definitions,
            c,
            f,
            text,
            got,
        );
    }

    /// The program knows a unit's function by its number: by its text where
    /// its body stands in a header, by where it stands where other units see
    /// it, and with its text where the unit is a preamble.
    pub open spec fn is_taken_in(
        &self,
        before: &Program,
        c: FnContext<'_>,
        unit: UnitIndex,
        k: int,
        got: Registered,
    ) -> bool {
        let f = unit.functions@[k]@;
        let text = program::text_at(unit.internal_definitions@, unit.functions@[k].id, 0);
        &&& *self == (Program {
            keys: self.keys,
            header_users: self.header_users,
            definitions: self.definitions,
            ..*before
        })
        &&& self.keys.bases@ == before.keys.bases@
        &&& match merge_fns::header_text(*c.map, f, text) {
            Some(t) => {
                &&& self.keys.headers@.len() == before.keys.headers@.len() + 1
                &&& self.keys.headers@.drop_last() == before.keys.headers@
                &&& self.keys.headers@.last().origin == c.map.spec_span(f.span)
                &&& self.keys.headers@.last().name@ == f.name
                &&& self.keys.headers@.last().text@ == t
                &&& self.keys.headers@.last().id == got.id
                &&& self.header_users@ == merge_fns::with_user(
                    before.header_users@,
                    got.id,
                    c.map.primary,
                )
            },
            None => {
                &&& self.keys.headers@ == before.keys.headers@
                &&& self.header_users@ == before.header_users@
            },
        }
        &&& if program::internal_cpp(f.traits) {
            self.keys.lines@ == before.keys.lines@
        } else {
            &&& self.keys.lines@.len() == before.keys.lines@.len() + 1
            &&& self.keys.lines@.drop_last() == before.keys.lines@
            &&& self.keys.lines@.last().file == c.map.spec_of(f.span.file)
            &&& self.keys.lines@.last().name@ == f.name
            &&& self.keys.lines@.last().line == f.span.line
            &&& self.keys.lines@.last().id == got.id
        }
        &&& match text {
            Some(t) if c.mode == MergeMode::SymbolsOnly => {
                &&& self.definitions@.len() == before.definitions@.len() + 1
                &&& self.definitions@.drop_last() == before.definitions@
                &&& self.definitions@.last().id == got.id
                &&& self.definitions@.last().text@ == t
            },
            _ => self.definitions@ == before.definitions@,
        }
    }
}

/// A unit merged again finds every function that other units see, so that
/// nothing of it is taken in twice.
pub proof fn law_a_unit_is_taken_in_once(p: Program, c: FnContext<'_>, unit: UnitIndex)
    requires
        forall|k: int|
            0 <= k < unit.functions@.len() ==> {
                let f = (#[trigger] unit.functions@[k])@;
                &&& !program::internal_cpp(f.traits)
                &&& merge_fns::line_fn(
                    p.keys.lines@,
                    c.map.spec_of(f.span.file),
                    f.name,
                    f.span.line,
                    p.keys.lines@.len() as int,
                ) is Some
            },
    ensures
        p.first_new(c, unit, 0) == unit.functions@.len(),
{
    lemma_none_is_new(p, c, unit, 0);
}

proof fn lemma_none_is_new(p: Program, c: FnContext<'_>, unit: UnitIndex, k: int)
    requires
        0 <= k <= unit.functions@.len(),
        forall|j: int|
            0 <= j < unit.functions@.len() ==> {
                let f = (#[trigger] unit.functions@[j])@;
                &&& !program::internal_cpp(f.traits)
                &&& merge_fns::line_fn(
                    p.keys.lines@,
                    c.map.spec_of(f.span.file),
                    f.name,
                    f.span.line,
                    p.keys.lines@.len() as int,
                ) is Some
            },
    ensures
        p.first_new(c, unit, k) == unit.functions@.len(),
    decreases unit.functions@.len() - k,
{
    if k < unit.functions@.len() {
        let f = unit.functions@[k];
        assert(p.place_of(c, unit, k) != Placement::New);
        lemma_none_is_new(p, c, unit, k + 1);
    }
}

impl Program {
    /// Enter a link image.
    pub fn enter_target(&mut self, spec: &LinkSpec, in_deps: &Vec<bool>)
        requires
            old(self).files@.len() + spec.sources@.len() <= u32::MAX,
            in_deps@.len() == spec.sources@.len(),
            old(self).link_targets@.len() <= u32::MAX,
            forall|k: int|
                0 <= k < spec.dependencies@.len() ==> #[trigger] spec.dependencies@[k] <= u32::MAX,
        ensures
            final(self).files@ == merge::with_files(
                old(self).files@,
                target::source_files(*spec, in_deps@),
            ),
            final(self).link_targets@.len() == old(self).link_targets@.len() + 1,
            final(self).link_targets@.drop_last() == old(self).link_targets@,
            ({
                let own = final(self).link_targets@.last();
                &&& own.id.0 == old(self).link_targets@.len()
                &&& own.name@ == spec.name@
                &&& own.output@ == spec.output@
                &&& own.sources@.len() == spec.sources@.len()
                &&& forall|k: int|
                    0 <= k < spec.sources@.len() ==> (#[trigger] own.sources@[k]).0
                        == merge::path_at(final(self).files@, spec.sources@[k]@, 0)
                &&& own.dependencies@.len() == spec.dependencies@.len()
                &&& forall|k: int|
                    0 <= k < spec.dependencies@.len() ==> (#[trigger] own.dependencies@[k]).0
                        == spec.dependencies@[k]
            }),
            *final(self) == (Program {
                files: final(self).files,
                link_targets: final(self).link_targets,
                ..*old(self)
            }),
    {
        let index = self.link_targets.len();
        let own = link_target(&mut self.files, spec, in_deps, index);
        let ghost before = self.link_targets@;
        self.link_targets.push(own);
        assert(self.link_targets@.drop_last() =~= before);
    }

    /// The program is `before` with its link image's entries forgotten.
    pub open spec fn is_cleared(&self, before: &Program) -> bool {
        &&& self.keys.headers@.len() == 0
        &&& self.keys.lines@.len() == 0
        &&& self.keys.bases@.len() == 0
        &&& self.definitions@.len() == 0
        &&& self.calls@ == (CallTablesView {
            keys: Seq::empty(),
            repeats: Seq::empty(),
            ..before.calls@
        })
        &&& self.flow@ == (FlowTablesView {
            header_flow: Seq::empty(),
            ..before.flow@
        })
        &&& self.classes == before.classes
        &&& self.files == before.files
        &&& self.brought_in == before.brought_in
        &&& self.diagnostics == before.diagnostics
        &&& self.findings == before.findings
        &&& self.header_users == before.header_users
        &&& self.symbols == before.symbols
        &&& self.returns == before.returns
        &&& self.sources == before.sources
        &&& self.variants_merged == before.variants_merged
        &&& self.layouts_unioned == before.layouts_unioned
        &&& self.link_targets == before.link_targets
    }

    /// Forget which functions and calls stand where, and which constraints are
    /// shared: what follows is of another link image, and has entries of its
    /// own. What was reported stays known.
    pub fn clear_entities(&mut self)
        ensures
            final(self).is_cleared(old(self)),
    {
        self.keys = FnKeys { headers: Vec::new(), lines: Vec::new(), bases: Vec::new() };
        self.definitions = Vec::new();
        self.calls.keys = Vec::new();
        self.calls.repeats = Vec::new();
        self.flow.header_flow = Vec::new();
        assert(merge_flow::flow_views(self.flow.header_flow@) =~= Seq::empty());
    }
}

/// Link images have entries of their own: once the entities are cleared, no
/// function of a unit finds one of an image before. Each is entered as new, or
/// is left out for a reason of its unit's own.
pub proof fn law_images_have_entries_of_their_own(
    p: Program,
    c: FnContext<'_>,
    unit: UnitIndex,
    k: int,
)
    requires
        p.keys.headers@.len() == 0,
        p.keys.lines@.len() == 0,
        p.keys.bases@.len() == 0,
        0 <= k < unit.functions@.len(),
    ensures
        p.place_of(c, unit, k) == Placement::New || p.place_of(c, unit, k) == Placement::Dropped,
{
}

} // verus!
