use trace_parse::calls::CallSite;
use trace_parse::closure::close_over;
use trace_parse::dispatch::{dispatches, member_call, members_seen_here, overrides_of, Hierarchy};
use trace_parse::externs::{callee_place, finalize_extern_callees, open_callees, Missing};
use trace_parse::facts::{add_facts, ClassFacts, FileClass, Inheritance, Named};
use trace_parse::finalize::{
    add_this_param, bind_past_this, expand_virtual_overrides, is_member_function, member_owner,
    widen_overload_refs, Overloads, Overrides,
};
use trace_parse::idmap::{IdMap, IdSet};
use trace_parse::ir::{
    FileId, FlowConstraint, FnId, Linkage, Span, StorageClass, TargetId, TypeId, VarId,
};
use trace_parse::merge::{add_file, merge_files, Diagnostic, FileInfo, FileMap, MergeMode, Severity};
use trace_parse::merge_vars::{definition_supersedes, temp_prefix, TempKind};
use trace_parse::methods::MethodKind;
use trace_parse::program::{CallRecord, FnTraits, Function, Occurrence, Variable};
use trace_parse::records::{
    call_record, capture_variable, declared_variable, lambda_traits, own_settled, param_variable,
    this_variable, VarPlace,
};
use trace_parse::reports::{
    add_preprocess_diagnostics, explored_short, node_end_line, node_span, parse_errors,
    parse_failure, variant_failure, EndPlace, FailedStep, Finding,
};
use trace_parse::selection::{competing, suppressed_weak_bodies, Contender};
use trace_parse::target::{
    link_target, linked_targets, scope_unit, strong_globals, target_members, unassigned_units,
    LinkSpec, UnitKey,
};
use trace_parse::unit::{Program, UnitIndex};
use trace_parse::variables::{define_initialized, Declared};

fn span(line: u32) -> Span {
    Span { file: FileId(0), line, col: 1 }
}

fn traits(is_defined: bool, is_weak: bool) -> FnTraits {
    FnTraits {
        linkage: Linkage::External,
        is_defined,
        is_weak,
        is_cpp: true,
        is_virtual: false,
        is_final: false,
        variadic: false,
        owner_unresolved: false,
        defaulted_in_class: false,
        declared_in_class: false,
        explicit_arity: None,
        default_args: 0,
    }
}

fn function(id: u32, name: &str, traits: FnTraits) -> Function {
    Function {
        id: FnId(id),
        name: name.into(),
        traits,
        return_type: TypeId(0),
        params: Vec::new(),
        param_type_ids: Vec::new(),
        locals: Vec::new(),
        span: span(id + 1),
        end_line: id + 1,
        file: FileId(0),
        tu: None,
        target: None,
    }
}

fn variable(id: u32, name: &str, owner: Option<u32>) -> Variable {
    Variable {
        id: VarId(id),
        name: name.into(),
        type_id: TypeId(0),
        storage: if owner.is_some() { StorageClass::Local } else { StorageClass::Global },
        fn_id: owner.map(FnId),
        param_index: None,
        span: span(1),
        is_pointer: false,
        is_defined: true,
        is_weak: false,
        is_namespaced: false,
        symbol: if owner.is_none() { Some(name.into()) } else { None },
        target: None,
    }
}

fn call(id: u32, caller: u32, name: &str, callee: Option<u32>) -> CallRecord {
    CallRecord {
        site: CallSite {
            id,
            caller: FnId(caller),
            callee_name: name.into(),
            callee_var: None,
            callee_fn_id: callee.map(FnId),
            var_args: vec![(0, VarId(1))],
            fn_args: Vec::new(),
            addr_of_member_args: Vec::new(),
            args_bound_past_this: false,
            span: span(10 + id),
            is_direct: true,
            receiver_class: None,
            return_dst: None,
            tu: None,
        },
        addr_of_args: Vec::new(),
        expansion_span: None,
        scope_file: FileId(0),
        occurrence: Occurrence { span: span(10 + id), expansion_span: None, expansion_id: None },
    }
}

fn unit(functions: Vec<Function>, variables: Vec<Variable>) -> UnitIndex {
    UnitIndex {
        own: FileInfo { path: "a.c".into(), is_dep: false },
        compilation_index: None,
        files: vec![FileInfo { path: "a.c".into(), is_dep: false }],
        classes: ClassFacts::new(),
        functions,
        internal_definitions: Vec::new(),
        variables,
        call_sites: Vec::new(),
        flow: Vec::new(),
        function_flow_ranges: Vec::new(),
        global_initializer_ranges: Vec::new(),
        fn_returns: Vec::new(),
        diagnostics: Vec::new(),
    }
}

fn spec(sources: &[&str], dependencies: &[usize]) -> LinkSpec {
    LinkSpec {
        name: "app".into(),
        output: "out/app".into(),
        sources: sources.iter().map(|s| s.to_string()).collect(),
        dependencies: dependencies.to_vec(),
        configurations: Vec::new(),
    }
}

fn key(source: &str) -> UnitKey {
    UnitKey { source: source.into(), compilation: None }
}

#[test]
fn numbers_are_kept_in_tables() {
    let mut map = IdMap::new();
    assert_eq!(map.get(3), None);
    map.insert(3, 30);
    map.insert(3, 31);
    map.insert(4, 40);
    assert_eq!((map.get(3), map.get(4), map.get(5)), (Some(31), Some(40), None));
    assert!(map.has_key(3) && !map.has_key(31));
    assert_eq!((map.rename(3), map.rename(9)), (31, 9));
    let mut set = IdSet::new();
    set.insert(7);
    assert!(set.contains(7) && !set.contains(8));
}

#[test]
fn closures_are_closed() {
    let edges = vec![vec![1], vec![2, 1], vec![], vec![0]];
    assert_eq!(close_over(&edges, &vec![0]), [true, true, true, false]);
    assert_eq!(close_over(&edges, &vec![]), [false; 4]);
}

#[test]
fn an_image_holds_what_it_links() {
    let targets = vec![spec(&["a.c"], &[1]), spec(&["b.c"], &[2]), spec(&["c.c"], &[]), spec(&["d.c"], &[])];
    assert_eq!(linked_targets(&targets, 0), [true, true, true, false]);
    let units = vec![key("a.c"), key("b.c"), key("c.c"), key("d.c"), key("e.c")];
    assert_eq!(target_members(&targets, 0, &units), [true, true, true, false, false]);
    assert_eq!(unassigned_units(&targets, &units), [false, false, false, false, true]);
}

#[test]
fn an_image_takes_the_configurations_it_names() {
    let mut target = spec(&["a.c"], &[]);
    target.configurations.push(("a.c".into(), vec![1]));
    let targets = vec![target];
    let units = vec![
        UnitKey { source: "a.c".into(), compilation: Some(0) },
        UnitKey { source: "a.c".into(), compilation: Some(1) },
    ];
    assert_eq!(target_members(&targets, 0, &units), [false, true]);
}

/// An image is recorded with its name, its output and its sources by number.
#[test]
fn images_are_recorded() {
    let mut files = vec![FileInfo { path: "b.c".into(), is_dep: false }];
    let own = link_target(&mut files, &spec(&["a.c", "b.c", "x.c"], &[2, 0]), &vec![false, false, true], 1);
    assert_eq!((own.id, own.name.as_str(), own.output.as_str()), (TargetId(1), "app", "out/app"));
    assert_eq!(own.sources, [FileId(1), FileId(0), FileId(2)]);
    assert_eq!(own.dependencies, [TargetId(2), TargetId(0)]);
    let paths: Vec<(&str, bool)> = files.iter().map(|f| (f.path.as_str(), f.is_dep)).collect();
    assert_eq!(paths, [("b.c", false), ("a.c", false), ("x.c", true)]);
    let mut program = Program::new();
    program.enter_target(&spec(&["a.c"], &[]), &vec![false]);
    program.enter_target(&spec(&["b.c", "a.c"], &[0]), &vec![false, false]);
    assert_eq!(program.link_targets[1].sources, [FileId(1), FileId(0)]);
    assert_eq!(program.link_targets[1].id, TargetId(1));
}

/// The definitions of a name with a weak body compete, strong ones first; those
/// of dependencies, of other names and those no other unit sees do not.
#[test]
fn definitions_of_weak_names_compete() {
    let hidden = FnTraits { linkage: Linkage::Internal, ..traits(true, false) };
    let mut outside = function(4, "f", traits(true, false));
    outside.file = FileId(1);
    let mut first = unit(
        vec![
            function(0, "f", traits(true, true)),
            function(1, "g", traits(true, false)),
            function(2, "f", hidden),
            function(3, "f", traits(false, false)),
            outside,
        ],
        Vec::new(),
    );
    first.files.push(FileInfo { path: "dep.h".into(), is_dep: true });
    let mut stray = function(8, "f", traits(true, true));
    stray.file = FileId(9);
    let second = unit(vec![function(7, "f", traits(true, false)), stray], Vec::new());
    let found = competing(&vec![&first, &second]);
    let entered: Vec<(usize, usize, u32, bool)> =
        found.iter().map(|c| (c.unit, c.at, c.id.0, c.weak)).collect();
    assert_eq!(entered, [(1, 0, 7, false), (0, 0, 0, true), (1, 1, 8, true)]);
    assert_eq!(found[2].origin, "a.c");
    assert!(competing(&vec![&unit(vec![function(1, "g", traits(true, false))], Vec::new())]).is_empty());
}

#[test]
fn a_suppressed_body_leaves_nothing() {
    let mut own = unit(
        vec![function(0, "f", traits(true, true)), function(1, "g", traits(true, false))],
        vec![variable(0, "x", Some(0)), variable(1, "y", Some(1))],
    );
    own.flow = vec![
        FlowConstraint::NewHeap { dst: VarId(0) },
        FlowConstraint::NewHeap { dst: VarId(1) },
    ];
    own.function_flow_ranges = vec![(FnId(0), 0, 1)];
    own.call_sites = vec![call(0, 0, "h", None), call(1, 1, "h", None)];
    let scoped = scope_unit(own, TargetId(4), &vec![FnId(0)], &vec![]);
    assert!(scoped.functions.iter().all(|f| f.target == Some(TargetId(4))));
    assert!(!scoped.functions.iter().any(|f| f.name == "f" && f.traits.is_defined));
    assert_eq!(scoped.flow, vec![FlowConstraint::NewHeap { dst: VarId(1) }]);
    assert_eq!(scoped.call_sites.len(), 1);
    assert_eq!(scoped.call_sites[0].site.caller, FnId(1));
    assert!(scoped.variables.iter().all(|v| v.fn_id != Some(FnId(0))));
}

#[test]
fn strong_globals_are_listed() {
    let files = vec![FileInfo { path: "a.c".into(), is_dep: false }];
    let mut weak = variable(1, "cb", None);
    weak.is_weak = true;
    let vars = vec![variable(0, "x", None), weak, variable(2, "l", Some(0))];
    assert_eq!(strong_globals(&vars, &files), ["x"]);
}

#[test]
fn calls_of_functions_outside_are_claimed() {
    let mut fns = vec![function(0, "main", traits(true, false))];
    let mut calls = vec![call(0, 0, "memcpy", None), call(1, 0, "memcpy", None), call(2, 0, "p->f", None)];
    for open in &mut calls {
        open.site.is_direct = false;
    }
    let callees = open_callees(&fns, &calls, false);
    assert_eq!(callees, vec![Missing { name: "memcpy".into(), image: None }]);
    let places: Vec<Option<Span>> =
        callees.iter().map(|c| callee_place(&fns, &calls, false, c)).collect();
    assert_eq!(places.iter().map(|p| p.map(|at| at.line)).collect::<Vec<_>>(), [Some(10)]);
    let mut next = 1;
    finalize_extern_callees(&mut fns, &mut calls, &mut next, &callees, &places, &vec![], false, TypeId(9));
    assert_eq!(fns.len(), 2);
    assert_eq!((fns[1].name.as_str(), fns[1].traits.is_defined), ("memcpy", false));
    assert_eq!(fns[1].return_type, TypeId(0));
    assert_eq!(calls[0].site.callee_fn_id, Some(FnId(1)));
    assert_eq!(calls[1].site.callee_fn_id, Some(FnId(1)));
    assert!(calls[1].site.is_direct);
    assert_eq!(calls[2].site.callee_fn_id, None);
    let direct = vec![call(0, 0, "memcpy", None)];
    assert!(open_callees(&fns, &direct, false).is_empty());
    assert_eq!(open_callees(&fns, &direct, true).len(), 1);
    assert_eq!(next, 2);
}

#[test]
fn members_take_their_this_first() {
    let mut fns = vec![function(0, "A::f", traits(true, false))];
    let mut vars = Vec::new();
    assert_eq!(member_owner("A::f").as_deref(), Some("A"));
    assert_eq!(member_owner("f"), None);
    add_this_param(&mut fns, &mut vars, 0, VarId(5), TypeId(3));
    assert_eq!(fns[0].params, [VarId(5)]);
    assert_eq!((vars[0].name.as_str(), vars[0].type_id), ("this", TypeId(3)));
    assert!(is_member_function(&fns, &vars, FnId(0)));
    let mut site = call(0, 9, "A::f", Some(0)).site;
    bind_past_this(&fns, &vars, &mut site, &vec![FnId(0)]);
    assert_eq!(site.var_args, [(1, VarId(1))]);
    assert!(site.args_bound_past_this);
    bind_past_this(&fns, &vars, &mut site, &vec![FnId(0)]);
    assert_eq!(site.var_args, [(1, VarId(1))], "binding happens once");
}

#[test]
fn references_to_overloads_are_widened() {
    let vars = vec![variable(0, "cb", None)];
    let mut flow = vec![FlowConstraint::AddrOfFn { dst: VarId(0), callee: FnId(1) }];
    let overloads = vec![Overloads { callee: FnId(1), file: FileId(0), others: vec![FnId(2)] }];
    widen_overload_refs(&overloads, &vars, &mut flow);
    assert_eq!(
        flow,
        vec![
            FlowConstraint::AddrOfFn { dst: VarId(0), callee: FnId(1) },
            FlowConstraint::AddrOfFn { dst: VarId(0), callee: FnId(2) },
        ]
    );
}

#[test]
fn virtual_calls_reach_their_overrides_once() {
    let mut records = vec![call(0, 0, "A::f", Some(1))];
    let mut next = 1;
    let overrides = vec![Overrides { members: vec![(FnId(1), "A::f".into()), (FnId(2), "B::f".into())] }];
    expand_virtual_overrides(&mut records, &mut next, &overrides);
    let callees: Vec<Option<FnId>> = records.iter().map(|r| r.site.callee_fn_id).collect();
    assert_eq!(callees, [Some(FnId(1)), Some(FnId(2))]);
    assert_eq!(next, 2);
}

#[test]
fn facts_are_taken_over_once() {
    let mut own = ClassFacts::new();
    let mut other = ClassFacts::new();
    other.anon_types = 3;
    other.inheritance.push(Inheritance { derived: "D".into(), base: "B".into() });
    other.final_classes.push(Named { name: "D".into() });
    other.anonymous_classes.push(FileClass { name: "X".into(), file: FileId(0), base: None });
    let map = FileMap { files: vec![FileId(7)], primary: FileId(7) };
    own.join(&other, &map);
    own.join(&other, &map);
    assert_eq!(own.anon_types, 3);
    assert_eq!(own.inheritance.len(), 1);
    assert_eq!(own.final_classes.len(), 1);
    assert_eq!(own.anonymous_classes, vec![FileClass { name: "X".into(), file: FileId(7), base: None }]);
    let mut names = vec![Named { name: "a".into() }];
    add_facts(&mut names, &vec![Named { name: "a".into() }, Named { name: "b".into() }]);
    assert_eq!(names.len(), 2);
}

#[test]
fn files_keep_their_numbers() {
    let file = |path: &str| FileInfo { path: path.into(), is_dep: false };
    let mut table = vec![file("h.h")];
    let mut pairs = Vec::new();
    let map = merge_files(&mut table, &mut pairs, &vec![file("a.c"), file("h.h")], &file("a.c"));
    assert_eq!(map.files, [FileId(1), FileId(0)]);
    assert_eq!(map.primary, FileId(1));
    assert_eq!(map.of(FileId(1)), FileId(0));
    assert_eq!(map.of(FileId(9)), FileId(1), "an unknown file is the unit's own");
    assert_eq!(pairs, [(FileId(1), FileId(0))]);
    assert_eq!(add_file(&mut table, &file("h.h")), FileId(0));
    assert_eq!(map.span(Span { file: FileId(1), line: 3, col: 4 }).file, FileId(0));
    assert!(MergeMode::Full.takes_reports());
    assert!(!MergeMode::SymbolsOnly.takes_reports());
}

#[test]
fn temporaries_are_told_by_their_prefix() {
    assert_eq!(temp_prefix("_gep12"), Some(TempKind::Gep));
    assert_eq!(temp_prefix("_load3"), Some(TempKind::Load));
    assert_eq!(temp_prefix("_ret7"), Some(TempKind::Ret));
    assert_eq!(temp_prefix("_recv7"), Some(TempKind::Recv));
    assert_eq!(temp_prefix("_gep"), None);
    assert_eq!(temp_prefix("_gepx"), None);
    assert_eq!(temp_prefix("value"), None);
    assert!(definition_supersedes(false, false, true));
    assert!(definition_supersedes(true, true, false));
    assert!(!definition_supersedes(true, false, true));
}

#[test]
fn reports_say_what_failed() {
    let d = parse_failure("no parse".into());
    assert_eq!((d.severity, d.stage.as_str(), d.file), (Severity::Error, "parse", None));
    let d = parse_errors("a.c");
    assert_eq!((d.severity, d.message.as_str()), (Severity::Warning, "parse errors in a.c"));
    assert!(explored_short(4, 0).is_none());
    assert_eq!(
        explored_short(4, 2).unwrap().message,
        "variant exploration budget (4) reached; omitted 2 candidate activation goal(s)"
    );
    assert_eq!(
        variant_failure(FailedStep::Lower, "a.c", "bad").message,
        "variant lower failed for a.c: bad"
    );
    assert_eq!(
        variant_failure(FailedStep::Preprocess, "a.c", "bad").message,
        "variant preprocess failed for a.c: bad"
    );
    let finding = || Finding {
        severity: Severity::Warning,
        file: None,
        line: 3,
        message: "missing header".into(),
    };
    let (mut out, mut known): (Vec<Diagnostic>, Vec<Diagnostic>) = (Vec::new(), Vec::new());
    add_preprocess_diagnostics(&mut out, &mut known, &vec![finding(), finding()], FileId(2));
    assert_eq!(out.len(), 1);
    assert_eq!((out[0].file, out[0].stage.as_str()), (Some(FileId(2)), "preprocess"));
}

#[test]
fn places_come_from_the_line_map() {
    let mapped = Span { file: FileId(4), line: 9, col: 2 };
    assert_eq!(node_span(Some(mapped), FileId(0), 3, 1), mapped);
    let own = node_span(None, FileId(0), 3, 1);
    assert_eq!(own, Span { file: FileId(0), line: 4, col: 2 });
    assert_eq!(node_end_line(mapped, EndPlace::Mapped { file: FileId(4), line: 12 }), 12);
    assert_eq!(node_end_line(mapped, EndPlace::Mapped { file: FileId(5), line: 12 }), 9);
    assert_eq!(node_end_line(mapped, EndPlace::Unmapped), 9);
}

#[test]
fn calls_of_members_may_be_dispatched() {
    let hidden = FnTraits { linkage: Linkage::Internal, is_virtual: true, ..traits(true, false) };
    let plain = FnTraits { is_cpp: false, ..traits(true, false) };
    let fns = vec![
        function(0, "A::f", hidden),
        function(1, "A::A", traits(true, false)),
        function(2, "free", traits(true, false)),
        function(3, "A::g", plain),
    ];
    let found = member_call(&fns, &call(0, 9, "f", Some(0)).site).unwrap();
    assert_eq!(found.callee, 0);
    assert_eq!(found.class, "A");
    assert_eq!(found.kind, MethodKind::Named("f".into()));
    assert_eq!(found.root, "A");
    assert_eq!((found.from, found.bound_in), (FileId(0), Some(FileId(0))));
    let mut through = call(0, 9, "f", Some(0)).site;
    through.receiver_class = Some("B".into());
    assert_eq!(member_call(&fns, &through).unwrap().root, "B");
    for other in [Some(1), Some(2), Some(3), Some(7), None] {
        assert_eq!(member_call(&fns, &call(0, 9, "x", other).site), None);
    }
    let plain_member = vec![
        function(0, "A::f", traits(true, false)),
        function(1, "A::f", hidden),
        function(2, "A::~A", traits(true, false)),
    ];
    let named = member_call(&plain_member, &call(0, 9, "f", Some(0)).site).unwrap();
    assert!(dispatches(&plain_member, &named, &vec![FileId(0)]));
    assert!(!dispatches(&plain_member, &named, &vec![FileId(1)]), "another file's class");
    let destroyed = member_call(&plain_member, &call(0, 9, "~A", Some(2)).site).unwrap();
    assert!(dispatches(&plain_member, &destroyed, &vec![]));
}

fn hierarchy(seen: &[u32], anonymous: bool, members: &[(u32, bool)]) -> Hierarchy {
    Hierarchy {
        seen: seen.iter().map(|&f| FileId(f)).collect(),
        anonymous,
        classes: vec!["A".into(), "B".into()],
        members: members.iter().map(|&(id, derives)| (FnId(id), derives)).collect(),
    }
}

/// What a dispatched call reaches is in the callee's image and takes as many
/// arguments; a call of a constructor, or of a plain member, reaches nothing.
#[test]
fn calls_reach_their_overrides_only() {
    let member = |arity: u32, is_virtual: bool| FnTraits {
        explicit_arity: Some(arity),
        is_virtual,
        ..traits(true, false)
    };
    let mut fns = vec![
        function(0, "A::f", member(1, true)),
        function(1, "B::f", member(1, true)),
        function(2, "B::f", member(2, true)),
        function(3, "B::f", member(1, true)),
        function(4, "A::A", member(1, true)),
        function(5, "A::g", member(1, false)),
    ];
    fns[3].target = Some(TargetId(1));
    let found = hierarchy(&[0], false, &[(0, false), (1, false), (2, false), (3, false), (9, false)]);
    let reached = overrides_of(&fns, &vec![], &call(0, 9, "f", Some(0)).site, &found);
    assert_eq!(reached.members, [(FnId(0), "A::f".to_string()), (FnId(1), "B::f".to_string())]);
    for other in [Some(4), Some(5), None] {
        let none = overrides_of(&fns, &vec![], &call(0, 9, "x", other).site, &found);
        assert_eq!(none.members, []);
    }
}

/// A member of another file's class of the same name is never reached.
#[test]
fn unseen_members_are_not_reached() {
    let open = FnTraits { is_virtual: true, ..traits(true, false) };
    let hidden = FnTraits { linkage: Linkage::Internal, ..open };
    let fns = vec![function(0, "A::f", open), function(1, "B::f", hidden)];
    let site = call(0, 9, "f", Some(0)).site;
    let seen = overrides_of(&fns, &vec![], &site, &hierarchy(&[0], false, &[(0, false), (1, false)]));
    assert_eq!(seen.members.len(), 2);
    let derived = overrides_of(&fns, &vec![], &site, &hierarchy(&[7], false, &[(0, false), (1, true)]));
    assert_eq!(derived.members.len(), 2);
    let other = overrides_of(&fns, &vec![], &site, &hierarchy(&[7], false, &[(0, false), (1, false)]));
    assert_eq!(other.members, [(FnId(0), "A::f".to_string())]);
    let anonymous = overrides_of(&fns, &vec![], &site, &hierarchy(&[7], true, &[(0, false), (1, true)]));
    assert_eq!(anonymous.members, []);
    let classes = vec!["A".to_string()];
    let kind = MethodKind::Named("f".into());
    assert_eq!(members_seen_here(&fns, &kind, &classes, &vec![FileId(0)]), [FnId(0), FnId(1)]);
    assert_eq!(members_seen_here(&fns, &kind, &classes, &vec![FileId(7)]), []);
}

/// A strong definition silences the weak ones; configurations of one weak body
/// stay together, and the first of two weak bodies is the one.
#[test]
fn weak_bodies_give_way() {
    let body = |unit: usize, id: u32, origin: &str, weak: bool| Contender {
        unit,
        at: 0,
        id: FnId(id),
        origin: origin.into(),
        weak,
    };
    let all = vec![
        body(1, 10, "strong.c", false),
        body(0, 11, "weak.c", true),
        body(0, 12, "other.c", true),
        body(1, 13, "other.c", true),
        body(2, 14, "third.c", true),
        body(2, 15, "second.c", false),
    ];
    let got = [0, 0, 2, 2, 2, 0].iter().map(|&id| FnId(id)).collect();
    let suppressed = suppressed_weak_bodies(3, &all, &got);
    assert_eq!(suppressed, [vec![FnId(11)], vec![], vec![FnId(14)]]);
}

#[test]
fn records_are_made_of_what_is_declared() {
    let at = VarPlace { id: VarId(4), owner: Some(FnId(2)), span: span(6), type_id: TypeId(8) };
    let this = this_variable(at);
    assert_eq!((this.name.as_str(), this.param_index, this.is_pointer), ("this", Some(0), true));
    let param = param_variable(at, "n".into(), 3, false);
    assert_eq!((param.storage, param.param_index), (StorageClass::Param, Some(3)));
    assert!(!param.is_pointer && !param.is_defined && param.symbol.is_none());
    let capture = capture_variable(at, "c".into(), true);
    assert_eq!((capture.storage, capture.param_index), (StorageClass::Local, None));
    let global = declared_variable(
        VarPlace { owner: None, ..at },
        Declared {
            name: "g".into(),
            storage: StorageClass::Global,
            is_defined: true,
            is_weak: true,
            is_namespaced: false,
            is_pointer: true,
            is_reference: false,
        },
        Some("g".into()),
    );
    assert_eq!((global.id, global.type_id, global.fn_id), (VarId(4), TypeId(8), None));
    assert!(global.is_defined && global.is_weak && global.is_pointer);
    assert_eq!(global.symbol.as_deref(), Some("g"));
    let lambda = lambda_traits(2);
    assert_eq!((lambda.linkage, lambda.explicit_arity), (Linkage::Internal, Some(2)));
    assert!(lambda.is_defined && lambda.is_cpp);
    let record = call_record(call(3, 1, "f", None).site, FileId(5));
    assert_eq!((record.scope_file, record.occurrence.span), (FileId(5), span(13)));
    let mut ranges = vec![(FnId(1), 0, 4)];
    own_settled(&mut ranges, &vec![(0, FnId(2)), (1, FnId(3))], &vec![(4, 4), (4, 6)]);
    assert_eq!(ranges, [(FnId(1), 0, 4), (FnId(3), 4, 6)]);
}

/// Outside functions a direct initialization defines its object.
#[test]
fn direct_initializations_define_their_object() {
    let mut global = variable(1, "g", None);
    global.is_defined = false;
    define_initialized(&mut global, true);
    assert!(!global.is_defined);
    define_initialized(&mut global, false);
    assert!(global.is_defined);
}
