use trace_parse::arguments::{
    argument_step, assemble, call_arg_nodes, resolve_call_fn_arg, ArgStep, ArgValue, FnArg,
};
use trace_parse::expr::{
    find_cast_operand, is_addr_of_member, is_deref_lhs, peel_casts, peel_expression,
    resolve_direct_call_name, FnNames, VarNames,
};
use trace_parse::fields::{FieldLayout, Layout, Layouts, PathBase};
use trace_parse::flows::{
    accesses_are_complete, expr_to_rhs_flow, field_callee_text, resolve_callee,
    return_flow_from_expr, string_literal_value, Callee, ReturnStep, RhsFlow,
};
use trace_parse::infer::Typing;
use trace_parse::initializers::{
    assignments_are_complete, designated_fields, designation, extract_flow_from_expr, list_steps,
    positional_field, FlowStep, ListStep,
};
use trace_parse::ir::{FieldId, FileId, FlowConstraint, FnId, ReturnFlow, Span, TypeDesc, VarId};
use trace_parse::lambda::{captured_alias, known_lambda, lambda_captures, lambda_locals, lambda_name, lambda_parameters};
use trace_parse::locals::Locals;
use trace_parse::lookup::ClassIndex;
use trace_parse::parse::{node_text, parse_source_with_lang, ParseResult, SourceLang};
use trace_parse::pending::{FlowState, PendingFnRef};
use trace_parse::scope::NameScope;
use trace_parse::stores::{Emitter, FieldValue, Temp};

fn parsed(source: &str) -> ParseResult {
    parse_source_with_lang(source, SourceLang::Cpp).unwrap()
}

fn nth(p: &ParseResult, kind: &str, k: usize) -> usize {
    (0..p.tree.rows.len()).filter(|&n| p.tree.rows[n].kind == kind).nth(k).unwrap()
}

/// The right side of the `k`-th assignment.
fn right(p: &ParseResult, k: usize) -> usize {
    p.tree.child_by_field_name(nth(p, "assignment_expression", k), "right").unwrap()
}

fn no_classes() -> ClassIndex {
    ClassIndex {
        declared: Vec::new(),
        defined: Vec::new(),
        typed: Vec::new(),
        arrows: Vec::new(),
        template_returns: Vec::new(),
        aliases: Vec::new(),
        bases: Vec::new(),
        functions: Vec::new(),
        members: Vec::new(),
    }
}

fn variables(locals: &[(&str, u32)], globals: &[(&str, u32)]) -> VarNames {
    let mut names = Locals::new();
    for (name, id) in locals {
        names.set((*name).into(), VarId(*id));
    }
    VarNames {
        locals: names,
        in_function: true,
        globals: globals.iter().map(|(n, id)| ((*n).into(), VarId(*id))).collect(),
        statics: Vec::new(),
    }
}

fn functions(all: &[(&str, u32)]) -> FnNames {
    FnNames {
        in_scope: all.iter().map(|(n, id)| ((*n).into(), FnId(*id))).collect(),
        anywhere: all.iter().map(|(n, id)| ((*n).into(), FnId(*id))).collect(),
    }
}

fn named(name: &str) -> TypeDesc {
    TypeDesc::Struct { name: name.into(), fields: Vec::new() }
}

fn pointer(inner: TypeDesc) -> TypeDesc {
    TypeDesc::Ptr(Box::new(inner))
}

#[test]
fn locals_come_before_globals() {
    let vars = variables(&[("a", 1)], &[("a", 2), ("b", 3)]);
    assert_eq!(vars.lookup_var("a"), Some(VarId(1)));
    assert_eq!(vars.lookup_var("b"), Some(VarId(3)));
    assert_eq!(vars.lookup_var("c"), None);
}

#[test]
fn blocks_give_back_the_names_they_hid() {
    let mut locals = Locals::new();
    locals.register_local(true, true, "x".into(), VarId(1));
    let mark = locals.mark();
    locals.register_local(true, true, "x".into(), VarId(2));
    locals.register_local(true, true, "y".into(), VarId(3));
    assert_eq!(locals.get("x"), Some(VarId(2)));
    locals.leave_block(mark);
    assert_eq!(locals.get("x"), Some(VarId(1)));
    assert_eq!(locals.get("y"), None);
    locals.register_local(false, true, "z".into(), VarId(4));
    assert_eq!(locals.get("z"), None);
    locals.clear();
    assert_eq!(locals.get("x"), None);
}

#[test]
fn wrappings_are_peeled() {
    let source = "void g() { a = ((b)); a = (char *)c; *p = &s.f; }\n";
    let p = parsed(source);
    let b = peel_expression(&p.tree, right(&p, 0));
    assert_eq!(node_text(source, &p.tree, b), "b");
    let cast = right(&p, 1);
    let c = find_cast_operand(&p.tree, cast).unwrap();
    assert_eq!(node_text(source, &p.tree, c), "c");
    assert_eq!(peel_casts(&p.tree, cast), c);
    let lhs = p.tree.child_by_field_name(nth(&p, "assignment_expression", 2), "left").unwrap();
    assert!(is_deref_lhs(source, &p.tree, lhs));
    assert!(!is_deref_lhs(source, &p.tree, right(&p, 2)));
    assert!(is_addr_of_member(source, &p.tree, right(&p, 2)));
}

#[test]
fn values_flow_from_what_they_name() {
    let source = "void g() { d = f; d = v; d = &f; d = &v; d = *v; d = \"hi\"; d = later; d = &later; d = call(1); d = v.m; d = new T; d = [] {}; d = 1; }\n";
    let p = parsed(source);
    let vars = variables(&[("v", 1), ("d", 2)], &[]);
    let fns = functions(&[("f", 5), ("call", 6)]);
    assert!(accesses_are_complete(&p.tree));
    let flow = |k: usize| expr_to_rhs_flow(&vars, &fns, source, &p.tree, true, right(&p, k));
    assert_eq!(flow(0), RhsFlow::Function(FnId(5)));
    assert_eq!(flow(1), RhsFlow::Copy(VarId(1)));
    assert_eq!(flow(2), RhsFlow::Function(FnId(5)));
    assert_eq!(
        flow(3),
        RhsFlow::MemberAddress(
            p.tree.child_by_field_name(right(&p, 3), "argument").unwrap(),
            Box::new(RhsFlow::Address(VarId(1)))
        )
    );
    assert_eq!(flow(4), RhsFlow::Load(VarId(1)));
    assert_eq!(flow(5), RhsFlow::Text("hi".into()));
    assert_eq!(flow(6), RhsFlow::MemberOrLater("later".into()));
    assert!(matches!(flow(7), RhsFlow::MemberAddress(_, inner) if *inner == RhsFlow::AddressLater("later".into())));
    assert_eq!(flow(8), RhsFlow::Call(right(&p, 8), "call".into()));
    assert_eq!(flow(9), RhsFlow::Member(right(&p, 9)));
    assert_eq!(flow(10), RhsFlow::New(right(&p, 10)));
    assert_eq!(flow(11), RhsFlow::Lambda(right(&p, 11)));
    assert_eq!(flow(12), RhsFlow::Nothing);
}

#[test]
fn returned_values_are_told() {
    let source = "int g() { return f; return v; return &v; return call(); return later; return 1; }\n";
    let p = parsed(source);
    let vars = variables(&[("v", 1)], &[]);
    let fns = functions(&[("f", 5), ("call", 6)]);
    let value = |k: usize| p.tree.named_child(nth(&p, "return_statement", k), 0).unwrap();
    let step = |k: usize| return_flow_from_expr(&vars, &fns, source, &p.tree, value(k));
    assert_eq!(step(0), ReturnStep::Function(FnId(5)));
    assert_eq!(step(1), ReturnStep::Copy(VarId(1)));
    assert!(matches!(step(2), ReturnStep::MemberAddress(_, inner) if *inner == ReturnStep::Address(VarId(1))));
    assert_eq!(step(3), ReturnStep::Call("call".into()));
    assert_eq!(step(4), ReturnStep::Later("later".into()));
    assert_eq!(step(5), ReturnStep::Nothing);
}

#[test]
fn callees_go_by_their_names() {
    let source = "void g() { f(); v(); n::f(); t<int>(); p->m.h(); a[0](); (*v)(); u(); }\n";
    let p = parsed(source);
    let vars = variables(&[("v", 1), ("a", 2)], &[]);
    let fns = functions(&[("f", 5)]);
    let func = |k: usize| p.tree.child_by_field_name(nth(&p, "call_expression", k), "function").unwrap();
    let callee = |k: usize| resolve_callee(&vars, &fns, source, &p.tree, func(k));
    let direct = |name: &str, is_direct: bool, var: Option<u32>| Callee {
        name: name.into(),
        is_direct,
        var: var.map(VarId),
    };
    assert_eq!(callee(0), direct("f", true, None));
    assert_eq!(callee(1), direct("v", false, Some(1)));
    assert_eq!(callee(2), direct("n::f", false, None));
    assert_eq!(callee(3), direct("t", true, None));
    assert_eq!(callee(4), direct("h", false, None));
    assert_eq!(callee(5), direct("a[...]", false, Some(2)));
    assert_eq!(callee(6), direct("v", false, Some(1)));
    assert_eq!(callee(7), direct("u", false, None));
    assert_eq!(field_callee_text(source, &p.tree, func(4)), "p->m->h");
    assert_eq!(
        resolve_direct_call_name(source, &p.tree, nth(&p, "call_expression", 0)).as_deref(),
        Some("f")
    );
}

#[test]
fn literals_concatenate() {
    let source = "void g() { d = \"a\" \"b\\n\"; d = \"c\"; }\n";
    let p = parsed(source);
    assert_eq!(string_literal_value(source, &p.tree, right(&p, 0)).as_deref(), Some("ab\n"));
    assert_eq!(string_literal_value(source, &p.tree, right(&p, 1)).as_deref(), Some("c"));
}

#[test]
fn assignments_are_parted_by_what_they_store_into() {
    let source = "void g() { *p = a; s.f = b; x = y = c; int z[] = { 1 }; }\n";
    let p = parsed(source);
    assert!(assignments_are_complete(&p.tree));
    let steps = |k: usize| {
        extract_flow_from_expr(source, &p.tree, nth(&p, "assignment_expression", k), false)
    };
    assert!(matches!(steps(0)[0], FlowStep::Through { .. }));
    assert!(matches!(steps(1)[0], FlowStep::Field { .. }));
    assert!(matches!(steps(2)[0], FlowStep::Assign { .. }));
    let list = nth(&p, "initializer_list", 0);
    assert_eq!(extract_flow_from_expr(source, &p.tree, list, true), [FlowStep::List(list)]);
}

fn ops() -> Layouts {
    let function = || TypeDesc::FnPtr { ret: Box::new(TypeDesc::Void), params: Vec::new() };
    Layouts {
        all: vec![
            Layout {
                tag: "Ops".into(),
                is_union: false,
                fields: vec![
                    FieldLayout { id: FieldId(0), name: "first".into(), desc: function() },
                    FieldLayout { id: FieldId(1), name: "second".into(), desc: function() },
                ],
            },
            Layout {
                tag: "Dev".into(),
                is_union: false,
                fields: vec![FieldLayout {
                    id: FieldId(7),
                    name: "ops".into(),
                    desc: pointer(named("Ops")),
                }],
            },
        ],
    }
}

#[test]
fn initializers_find_their_fields() {
    let source = "struct Ops o = { known, .second = later };\n";
    let p = parsed(source);
    let list = nth(&p, "initializer_list", 0);
    let steps = list_steps(&p.tree, list);
    assert_eq!(steps.len(), 2);
    assert!(matches!(steps[0], ListStep::Positional { position: 0, .. }));
    let ListStep::Designated(pair) = steps[1] else { panic!() };
    let (names, value) = designation(source, &p.tree, pair);
    assert_eq!(names, ["second"]);
    assert_eq!(node_text(source, &p.tree, value.unwrap()), "later");
    let lay = ops();
    assert_eq!(positional_field(&lay, &named("Ops"), 0), Some((FieldId(0), "first".into())));
    assert_eq!(positional_field(&lay, &named("Ops"), 2), None);
    assert_eq!(designated_fields(&lay, &named("Ops"), &names, false), Some(vec![FieldId(1)]));
    assert_eq!(designated_fields(&lay, &named("Ops"), &vec!["none".into()], false), None);
}

#[test]
fn member_paths_are_read_from_the_variable_on() {
    let source = "void g() { d->ops->second(); d = &d->ops; }\n";
    let p = parsed(source);
    let scope = NameScope::new(false);
    let index = no_classes();
    let arrows = Vec::new();
    let vars = variables(&[("d", 4)], &[]);
    let var_types = vec![(VarId(4), pointer(named("Dev")))];
    let references = Vec::new();
    let calls = Vec::new();
    let typing = Typing {
        scope: &scope,
        index: &index,
        arrows: &arrows,
        vars: &vars,
        var_types: &var_types,
        references: &references,
        calls: &calls,
    };
    let lay = ops();
    let func = p.tree.child_by_field_name(nth(&p, "call_expression", 0), "function").unwrap();
    let path = typing.callee_load(&lay, source, &p.tree, func).unwrap();
    assert_eq!(path.base, PathBase::Var(VarId(4)));
    assert_eq!(path.ids, [FieldId(7), FieldId(1)]);
    assert_eq!(path.names, ["ops", "second"]);
    let mut out = Emitter { flows: Vec::new(), temps: Vec::new(), next_var: 10, receivers: Vec::new() };
    let end = out.emit_field_fn_ptr_load(VarId(4), &path.ids, &path.names, &path.types);
    assert_eq!(end, Some(VarId(13)));
    assert_eq!(
        out.flows,
        vec![
            FlowConstraint::GepField {
                dst: VarId(10),
                base: VarId(4),
                field: FieldId(7),
                field_name: "ops".into(),
            },
            FlowConstraint::Load { dst: VarId(11), src: VarId(10) },
            FlowConstraint::GepField {
                dst: VarId(12),
                base: VarId(11),
                field: FieldId(1),
                field_name: "second".into(),
            },
            FlowConstraint::Load { dst: VarId(13), src: VarId(12) },
        ]
    );
    assert_eq!(out.temps[1], Temp::Load(VarId(11)));
    assert_eq!(out.next_var, 14);
    let address = typing
        .addr_of_field_path(&lay, None, source, &p.tree, p.tree.child_by_field_name(right(&p, 0), "argument").unwrap());
    assert_eq!(address.unwrap().ids, [FieldId(7)]);
}

#[test]
fn stored_values_are_told() {
    let source = "void g() { s.first = known; s.first = v; s.first = later; s.first = call(); }\n";
    let p = parsed(source);
    let scope = NameScope::new(false);
    let index = no_classes();
    let arrows = Vec::new();
    let vars = variables(&[("s", 4), ("v", 5)], &[]);
    let var_types = vec![(VarId(4), named("Ops"))];
    let references = Vec::new();
    let calls = Vec::new();
    let typing = Typing {
        scope: &scope,
        index: &index,
        arrows: &arrows,
        vars: &vars,
        var_types: &var_types,
        references: &references,
        calls: &calls,
    };
    let fns = functions(&[("known", 9)]);
    let lay = ops();
    let value = |k: usize| typing.field_value(&fns, &lay, None, source, &p.tree, right(&p, k));
    assert_eq!(value(0), FieldValue::Fn(FnId(9)));
    assert_eq!(value(1), FieldValue::Var(VarId(5)));
    assert_eq!(value(2), FieldValue::Pending("later".into()));
    assert_eq!(value(3), FieldValue::Call);
    let mut out = Emitter { flows: Vec::new(), temps: Vec::new(), next_var: 20, receivers: Vec::new() };
    out.store_fn(VarId(4), FnId(9));
    out.store_var(VarId(4), VarId(5));
    assert_eq!(
        out.flows,
        vec![
            FlowConstraint::AddrOfFn { dst: VarId(20), callee: FnId(9) },
            FlowConstraint::Store { dst: VarId(4), src: VarId(20) },
            FlowConstraint::Store { dst: VarId(4), src: VarId(5) },
        ]
    );
}

#[test]
fn arguments_keep_their_positions() {
    let source = "void g() { f(v, 1, &v.m, known, [] { }); }\n";
    let p = parsed(source);
    let vars = variables(&[("v", 1)], &[]);
    let fns = functions(&[("known", 9)]);
    let args = call_arg_nodes(&p.tree, nth(&p, "call_expression", 0));
    assert_eq!(args.len(), 5);
    assert_eq!(argument_step(&vars, source, &p.tree, args[0]), ArgStep::Var(VarId(1), false));
    assert_eq!(resolve_call_fn_arg(&fns, source, &p.tree, args[3], true), Some(FnArg::Named(FnId(9))));
    assert_eq!(resolve_call_fn_arg(&fns, source, &p.tree, args[4], true), Some(FnArg::Lambda(args[4])));
    assert_eq!(resolve_call_fn_arg(&fns, source, &p.tree, args[1], true), None);
    let list = assemble(&vec![
        ArgValue::Var(VarId(1)),
        ArgValue::Value,
        ArgValue::MemberOf(VarId(1)),
        ArgValue::Fn(FnId(9)),
    ]);
    assert_eq!(list.var_args, [(0, VarId(1)), (2, VarId(1))]);
    assert_eq!(list.fn_args, [(3, FnId(9))]);
    assert_eq!(list.addr_of_member_args, [2]);
    assert_eq!(list.argc, 4);
}

#[test]
fn arguments_are_bound_past_this() {
    let list = assemble(&vec![ArgValue::Var(VarId(1)), ArgValue::Fn(FnId(9))]);
    let bound = list.copy().bind_past_this(Some(VarId(7)));
    assert_eq!(bound.var_args, [(0, VarId(7)), (1, VarId(1))]);
    assert_eq!(bound.fn_args, [(2, FnId(9))]);
    let without = list.bind_past_this(None);
    assert_eq!(without.var_args, [(1, VarId(1))]);
}

#[test]
fn later_functions_settle_what_waited_for_them() {
    let vars = variables(&[("v", 1)], &[]);
    let fns = functions(&[("later", 3)]);
    let at = Span { file: FileId(0), line: 1, col: 2 };
    let mut state =
        FlowState { flows: Vec::new(), returns: Vec::new(), temps: Vec::new(), next_var: 50 };
    let ranges = state.resolve_pending_fn_refs(
        &vars,
        &fns,
        &vec![
            PendingFnRef::FieldStore { dst: VarId(8), name: "later".into(), span: at },
            PendingFnRef::RhsIdent { dst: VarId(9), name: "v".into() },
            PendingFnRef::AddrOfIdent { dst: VarId(9), name: "v".into() },
            PendingFnRef::ReturnIdent { owner: FnId(2), name: "later".into() },
            PendingFnRef::ReturnAddrOf { owner: FnId(2), name: "v".into() },
            PendingFnRef::RhsIdent { dst: VarId(9), name: "never".into() },
        ],
    );
    assert_eq!(
        state.flows,
        vec![
            FlowConstraint::AddrOfFn { dst: VarId(50), callee: FnId(3) },
            FlowConstraint::Store { dst: VarId(8), src: VarId(50) },
            FlowConstraint::Copy { dst: VarId(9), src: VarId(1) },
            FlowConstraint::AddrOfVar { dst: VarId(9), src: VarId(1) },
        ]
    );
    assert_eq!(
        state.returns,
        vec![
            (FnId(2), ReturnFlow::AddrOfFn { callee: FnId(3) }),
            (FnId(2), ReturnFlow::AddrOfVar { src: VarId(1) }),
        ]
    );
    assert_eq!(state.temps, vec![(VarId(50), at)]);
    assert_eq!(ranges, [(0, 2), (2, 3), (3, 4), (4, 4), (4, 4), (4, 4)]);
}

#[test]
fn lambdas_see_what_they_capture() {
    let source = "void g() { auto f = [a, &b, this, c = d](int x) { return x; }; auto h = [=] { }; }\n";
    let p = parsed(source);
    let lambda = nth(&p, "lambda_expression", 0);
    assert_eq!(lambda_name(Some("g"), 12, 3), "g::$lambda@12:3");
    assert_eq!(lambda_name(None, 1, 1), "<tu>::$lambda@1:1");
    assert!(lambda_parameters(&p.tree, lambda).is_some());
    let captures = lambda_captures(source, &p.tree, lambda, true);
    assert!(captures.this);
    assert!(!captures.all);
    assert_eq!(captures.named, ["a", "b"]);
    assert_eq!(captures.inits.len(), 1);
    assert_eq!(captures.inits[0].name, "c");
    assert!(!captures.inits[0].is_ref);
    assert_eq!(captured_alias(&p.tree, &captures.inits[0], Some(VarId(4))), None);
    let mut around = Locals::new();
    for (name, id) in [("a", 1), ("b", 2), ("z", 3), ("this", 9)] {
        around.set(name.into(), VarId(id));
    }
    let inside = lambda_locals(
        &around,
        &captures,
        &vec![("c".into(), VarId(11))],
        &vec![("a".into(), VarId(12))],
    );
    assert_eq!(inside.get("a"), Some(VarId(12)), "a parameter hides a capture");
    assert_eq!(inside.get("b"), Some(VarId(2)));
    assert_eq!(inside.get("c"), Some(VarId(11)));
    assert_eq!(inside.get("this"), Some(VarId(9)));
    assert_eq!(inside.get("z"), None);
    let all = lambda_captures(source, &p.tree, nth(&p, "lambda_expression", 1), false);
    assert!(all.all);
    assert!(!all.this);
    let inside = lambda_locals(&around, &all, &vec![], &vec![]);
    assert_eq!(inside.get("z"), Some(VarId(3)));
    assert_eq!(inside.get("this"), None);
}

#[test]
fn a_lambda_is_lowered_once() {
    let mut fns = FnNames { in_scope: vec![("g".into(), FnId(0))], anywhere: Vec::new() };
    assert_eq!(known_lambda(&fns, Some("g"), 12, 3), None);
    fns.in_scope.push((lambda_name(Some("g"), 12, 3), FnId(5)));
    assert_eq!(known_lambda(&fns, Some("g"), 12, 3), Some(FnId(5)));
    assert_eq!(known_lambda(&fns, Some("g"), 12, 4), None);
    assert_eq!(known_lambda(&fns, None, 12, 3), None);
}

#[test]
fn a_lambda_keeps_what_is_around_it() {
    let mut vars = VarNames {
        locals: Locals::new(),
        in_function: false,
        globals: Vec::new(),
        statics: Vec::new(),
    };
    vars.locals.set("a".into(), VarId(1));
    let mut scope = NameScope::new(true);
    scope.class_ctx = Some("Svc".into());
    let mut current = Some(FnId(3));
    let mut inside = Locals::new();
    inside.set("b".into(), VarId(2));
    let around = vars.enter_lambda(&mut current, &scope, FnId(8), inside);
    assert_eq!(current, Some(FnId(8)));
    assert!(vars.in_function);
    assert_eq!(vars.locals.get("a"), None);
    assert_eq!(vars.locals.get("b"), Some(VarId(2)));
    scope.class_ctx = None;
    vars.locals.set("c".into(), VarId(4));
    vars.leave_lambda(&mut current, &mut scope, around);
    assert_eq!(current, Some(FnId(3)));
    assert!(!vars.in_function);
    assert_eq!(vars.locals.get("a"), Some(VarId(1)));
    assert_eq!(vars.locals.get("c"), None);
    assert_eq!(scope.class_ctx.as_deref(), Some("Svc"));
}
