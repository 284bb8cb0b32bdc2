use trace_parse::arguments::ArgValue;
use trace_parse::calls::{CallArgs, CallSite};
use trace_parse::declarations::{declaration_steps, DeclStep, Visible};
use trace_parse::declarator::{
    declarator_is_array, declarator_pointer_depth, field_type, fn_decl_under_pointer,
    is_function_pointer_declarator, parse_declarator_name, walk_declarator_shape,
};
use trace_parse::expr::{FnNames, VarNames};
use trace_parse::functions::{
    declared_return_type, definition_traits, member_prototype_traits, prototype_traits, FnPlace,
};
use trace_parse::ir::{FileId, FnId, Linkage, Span, StorageClass, TypeDesc, TypeId, VarId};
use trace_parse::locals::Locals;
use trace_parse::lookup::ClassIndex;
use trace_parse::members::ParamListShape;
use trace_parse::parse::{node_text, parse_source_with_lang, ParseResult, SourceLang};
use trace_parse::program::Variable;
use trace_parse::scope::NameScope;
use trace_parse::signature::function_declarator;
use trace_parse::variables::{
    array_members, captures_direct_init, captures_initializer, declare, declare_plain,
    direct_init, has_user_ctor,
    init_pair_value_node, list_has_field_designators, local_type, namespaced_global,
    plan_initializer, reassign_calls, reassign_vars, storage_for, BodyOwners, DeclPlace, Declaration,
    DirectInit, InitOwners, InitSubject,
};
use trace_parse::walk::{last_named_child, lower_tree, walk_function_body, BodyEvent, UnitEvent};

fn parsed(source: &str) -> ParseResult {
    parse_source_with_lang(source, SourceLang::Cpp).unwrap()
}

fn nth(p: &ParseResult, kind: &str, k: usize) -> usize {
    (0..p.tree.rows.len()).filter(|&n| p.tree.rows[n].kind == kind).nth(k).unwrap()
}

fn declarator(p: &ParseResult, k: usize) -> usize {
    p.tree.child_by_field_name(nth(p, "declaration", k), "declarator").unwrap()
}

fn no_classes() -> ClassIndex {
    ClassIndex {
        declared: Vec::new(),
        defined: Vec::new(),
        typed: Vec::new(),
        arrows: Vec::new(),
        template_returns: Vec::new(),
        aliases: Vec::new(),
        bases: Vec::new(),
        functions: Vec::new(),
        members: Vec::new(),
    }
}

fn pointer(inner: TypeDesc) -> TypeDesc {
    TypeDesc::Ptr(Box::new(inner))
}

fn file_scope() -> DeclPlace {
    DeclPlace {
        in_function: false,
        in_namespace: false,
        is_static: false,
        storage_override: None,
        has_weak: false,
    }
}

#[test]
fn declarators_name_and_shape_what_they_declare() {
    let source = "int a; int *b; int **c[3]; int (*cb)(int); int *f(void); int d[4];\n";
    let p = parsed(source);
    let name = |k: usize| parse_declarator_name(source, &p.tree, declarator(&p, k));
    assert_eq!(name(0), ("a".to_string(), false));
    assert_eq!(name(1), ("b".to_string(), true));
    assert_eq!(name(3).0, "cb");
    let shaped = |k: usize| walk_declarator_shape(&p.tree, declarator(&p, k), TypeDesc::Int);
    assert_eq!(shaped(0), TypeDesc::Int);
    assert_eq!(shaped(1), pointer(TypeDesc::Int));
    assert!(matches!(shaped(5), TypeDesc::Array { .. }));
    assert!(is_function_pointer_declarator(&p.tree, declarator(&p, 3)));
    assert!(!is_function_pointer_declarator(&p.tree, declarator(&p, 4)));
    let (inner, depth, binds) = fn_decl_under_pointer(&p.tree, declarator(&p, 4)).unwrap();
    assert!(p.tree.kind_is(inner, "function_declarator"));
    assert_eq!((depth, binds), (1, false));
    assert_eq!(fn_decl_under_pointer(&p.tree, declarator(&p, 1)), None);
    assert!(declarator_is_array(&p.tree, declarator(&p, 5)));
    assert_eq!(declarator_pointer_depth(&p.tree, declarator(&p, 1)), 1);
    assert_eq!(field_type(&p.tree, declarator(&p, 1), TypeDesc::Int), pointer(TypeDesc::Int));
}

#[test]
fn declarations_fall_into_steps() {
    let source = "void g() { int a, *b = 0, c(void); if (auto p = f()) { } }\nint &r();\n";
    let p = parsed(source);
    let steps = declaration_steps(&p.tree, nth(&p, "declaration", 0), true);
    assert!(matches!(steps[0], DeclStep::Plain { .. }));
    assert!(matches!(steps[1], DeclStep::Initialized { value: Some(_), .. }));
    assert!(matches!(steps[2], DeclStep::FnLike { depth: 0, binds_reference: false, .. }));
    assert_eq!(steps.len(), 3);
    let condition = declaration_steps(&p.tree, nth(&p, "declaration", 1), true);
    assert!(matches!(condition[..], [DeclStep::Initialized { owner, decl, .. }] if owner == decl));
    let outside = nth(&p, "declaration", 2);
    assert_eq!(declaration_steps(&p.tree, outside, true), []);
    assert!(matches!(
        declaration_steps(&p.tree, outside, false)[..],
        [DeclStep::FnLike { binds_reference: true, .. }]
    ));
}

#[test]
fn variables_are_declared_with_their_storage() {
    assert_eq!(storage_for(true, true), StorageClass::FnStatic);
    assert_eq!(storage_for(true, false), StorageClass::Local);
    assert_eq!(storage_for(false, true), StorageClass::FileStatic);
    assert_eq!(storage_for(false, false), StorageClass::Global);
    assert!(namespaced_global(StorageClass::Global, true));
    assert!(!namespaced_global(StorageClass::Local, true));
    let source = "extern int *a; int f(void); int &r = x;\n";
    let p = parsed(source);
    let at = |k: usize, initialized: bool| {
        declare(&file_scope(), source, &p.tree, nth(&p, "declaration", k), declarator(&p, k), initialized)
    };
    let Declaration::Variable(a) = at(0, false) else { panic!() };
    assert_eq!((a.name.as_str(), a.storage, a.is_defined, a.is_pointer), ("a", StorageClass::Global, false, true));
    let Declaration::Variable(a) = at(0, true) else { panic!() };
    assert!(a.is_defined, "an initializer defines");
    assert_eq!(at(1, false), Declaration::Prototype);
    let local = DeclPlace { in_function: true, ..file_scope() };
    let plain = declare_plain(&local, source, &p.tree, nth(&p, "identifier", 0)).unwrap();
    assert_eq!((plain.storage, plain.is_defined), (StorageClass::Local, false));
}

#[test]
fn initializers_construct_or_flow() {
    let source = "void g() { A o(1); A q{1}; int v[] = {1}; int (*c)(int) = {f}; A r = s; }\n";
    let p = parsed(source);
    let subject = InitSubject {
        is_cpp: true,
        in_function: true,
        in_dep_file: false,
        is_class: true,
        has_user_ctor: true,
        is_array: false,
    };
    let plan = |k: usize, s: &InitSubject| {
        let owner = nth(&p, "init_declarator", k);
        let decl = p.tree.child_by_field_name(owner, "declarator").unwrap();
        let value = p.tree.child_by_field_name(owner, "value");
        (plan_initializer(&p.tree, s, owner, decl, value), value)
    };
    let (constructed, value) = plan(0, &subject);
    assert_eq!((constructed.ctor_args, constructed.flow), (value, None));
    let (braced, value) = plan(1, &subject);
    assert_eq!((braced.ctor_args, braced.flow), (value, None));
    let (aggregate, value) = plan(1, &InitSubject { has_user_ctor: false, ..subject });
    assert_eq!((aggregate.ctor_args, aggregate.flow), (None, value));
    let (array, value) = plan(2, &InitSubject { is_class: false, ..subject });
    assert!(array.parks_members);
    assert_eq!(array.flow, value);
    let (copied, value) = plan(4, &subject);
    assert_eq!((copied.ctor_args, copied.flow), (None, value));
    let (outside, _) = plan(4, &InitSubject { in_dep_file: true, ..subject });
    assert_eq!((outside.ctor_args, outside.flow, outside.parks_members), (None, None, false));
}

#[test]
fn constructors_are_user_provided_or_not() {
    let mut index = no_classes();
    index.defined.push("A".into());
    index.members.push(("A::A".into(), FnId(3)));
    index.functions.push("A::A".into());
    assert!(has_user_ctor(&index, "A", &vec![]));
    assert!(!has_user_ctor(&index, "A", &vec![FnId(3)]));
    assert!(!has_user_ctor(&index, "B", &vec![]));
}

#[test]
fn direct_initialization_copies_or_constructs() {
    let one = |vars: Vec<(u32, VarId)>, fns: Vec<(u32, FnId)>| CallArgs {
        argc: (vars.len() + fns.len()) as u32,
        var_args: vars,
        fn_args: fns,
        addr_of_member_args: Vec::new(),
    };
    let copied = one(vec![(0, VarId(4))], vec![]);
    assert_eq!(direct_init(&copied, false, false, false), DirectInit::Copy(VarId(4)));
    assert_eq!(direct_init(&copied, true, true, false), DirectInit::Construct);
    assert_eq!(direct_init(&copied, true, false, false), DirectInit::Nothing);
    assert_eq!(direct_init(&copied, false, false, true), DirectInit::Nothing);
    let callback = one(vec![], vec![(0, FnId(5))]);
    assert_eq!(direct_init(&callback, false, false, false), DirectInit::AddrOfFn(FnId(5)));
}

#[test]
fn a_list_of_values_defines_an_object() {
    let source = "void g() { T w(a); T x(Value); T y(cb, a); T z(); }\n";
    let p = parsed(source);
    let scope = NameScope::new(true);
    let mut index = no_classes();
    index.aliases.push(("Value".into(), TypeDesc::Int));
    let mut locals = Locals::new();
    locals.set("a".into(), VarId(1));
    let vars = VarNames { locals, in_function: true, globals: Vec::new(), statics: Vec::new() };
    let fns = FnNames { in_scope: Vec::new(), anywhere: vec![("cb".into(), FnId(2))] };
    let visible = Visible { scope: &scope, index: &index, vars: &vars, fns: &fns };
    assert_eq!(visible.init_argument("a"), Some(ArgValue::Var(VarId(1))));
    assert_eq!(visible.init_argument("cb"), Some(ArgValue::Fn(FnId(2))));
    assert_eq!(visible.init_argument("Value"), None);
    let args = |k: usize| {
        visible.direct_init_arguments(source, &p.tree, nth(&p, "function_declarator", k + 1))
    };
    assert_eq!(args(0).unwrap().var_args, [(0, VarId(1))]);
    assert!(args(1).is_none(), "a type is no argument");
    let both = args(2).unwrap();
    assert_eq!(both.fn_args, [(0, FnId(2))]);
    assert_eq!(both.var_args, [(1, VarId(1))]);
    assert!(args(3).is_none(), "an empty list declares a function");
}

#[test]
fn inferred_types_replace_placeholders() {
    let source = "void g() { auto p = f(); }\n";
    let p = parsed(source);
    let decl = p.tree.child_by_field_name(nth(&p, "init_declarator", 0), "declarator").unwrap();
    assert_eq!(local_type(&p.tree, decl, TypeDesc::Int, Some(TypeDesc::Long)), TypeDesc::Long);
    assert_eq!(local_type(&p.tree, decl, TypeDesc::Int, None), TypeDesc::Int);
}

#[test]
fn tables_of_functions_are_parked() {
    let source = "cb t[] = { a, { b, c }, [3] = d, { .f = e } };\n";
    let p = parsed(source);
    let list = nth(&p, "initializer_list", 0);
    let parked: Vec<&str> =
        array_members(&p.tree, list).into_iter().map(|n| node_text(source, &p.tree, n)).collect();
    for name in ["a", "b", "c", "d"] {
        assert!(parked.contains(&name), "{name} of {parked:?}");
    }
    assert!(!list_has_field_designators(&p.tree, list));
    assert!(list_has_field_designators(&p.tree, nth(&p, "initializer_list", 2)));
    let pair = nth(&p, "initializer_pair", 0);
    assert_eq!(node_text(source, &p.tree, init_pair_value_node(&p.tree, pair).unwrap()), "d");
}

#[test]
fn initializers_own_their_constraints() {
    let mut owners = InitOwners { ranges: Vec::new(), pending: Vec::new() };
    owners.own(VarId(1), 3, 5, 0, 2);
    owners.own(VarId(2), 5, 5, 2, 2);
    assert_eq!(owners.ranges, [(VarId(1), 3, 5)]);
    assert_eq!(owners.pending, [(0, VarId(1)), (1, VarId(1))]);
    assert!(captures_initializer(true, true, false, true));
    assert!(!captures_initializer(true, true, true, true));
    assert!(!captures_initializer(false, true, false, true));
}

#[test]
fn provisional_numbers_are_given_up() {
    let var = |id: u32, owner: u32| Variable {
        id: VarId(id),
        name: "p".into(),
        type_id: TypeId(0),
        storage: StorageClass::Param,
        fn_id: Some(FnId(owner)),
        param_index: Some(0),
        span: Span { file: FileId(0), line: 1, col: 1 },
        is_pointer: false,
        is_defined: false,
        is_weak: false,
        is_namespaced: false,
        symbol: None,
        target: None,
    };
    let mut vars = vec![var(0, 7), var(1, 7), var(2, 8)];
    assert_eq!(reassign_vars(&mut vars, FnId(7), FnId(3), 1), [VarId(1)]);
    let owners: Vec<Option<FnId>> = vars.iter().map(|v| v.fn_id).collect();
    assert_eq!(owners, [Some(FnId(7)), Some(FnId(3)), Some(FnId(8))]);
    let mut sites = vec![CallSite {
        id: 0,
        caller: FnId(7),
        callee_name: "f".into(),
        callee_var: None,
        callee_fn_id: None,
        var_args: Vec::new(),
        fn_args: Vec::new(),
        addr_of_member_args: Vec::new(),
        args_bound_past_this: false,
        span: Span { file: FileId(0), line: 1, col: 1 },
        is_direct: true,
        receiver_class: None,
        return_dst: None,
        tu: None,
    }];
    reassign_calls(&mut sites, FnId(7), FnId(3), 0);
    assert_eq!(sites[0].caller, FnId(3));
}

fn fn_place() -> FnPlace {
    FnPlace {
        in_class: false,
        is_member: false,
        in_anonymous: false,
        class_is_anonymous: false,
        is_dep_file: false,
        has_weak: true,
        is_cpp: true,
        owner_unresolved: false,
    }
}

#[test]
fn functions_have_the_traits_they_are_declared_with() {
    let source = "static __attribute__((weak)) int f(int a) { return a; }\n__attribute__((weak)) int g(int a) { return a; }\nint h(int a);\nstruct S { virtual void v() final; S() = default; };\n";
    let p = parsed(source);
    let list = ParamListShape { defaults: 1, variadic: true };
    let f = definition_traits(&fn_place(), source, &p.tree, nth(&p, "function_definition", 0), 1, list);
    assert_eq!((f.linkage, f.is_weak, f.is_defined), (Linkage::Internal, false, true));
    assert_eq!((f.explicit_arity, f.default_args, f.variadic), (Some(1), 1, true));
    let g = definition_traits(&fn_place(), source, &p.tree, nth(&p, "function_definition", 1), 1, list);
    assert_eq!((g.linkage, g.is_weak), (Linkage::External, true));
    let dep = FnPlace { is_dep_file: true, ..fn_place() };
    let g = definition_traits(&dep, source, &p.tree, nth(&p, "function_definition", 1), 1, list);
    assert!(!g.is_defined);
    let h = prototype_traits(&fn_place(), source, &p.tree, nth(&p, "function_declarator", 2), false, 1, list);
    assert_eq!((h.is_defined, h.linkage), (false, Linkage::External));
    let v = member_prototype_traits(&fn_place(), source, &p.tree, nth(&p, "field_declaration", 0));
    assert!(v.is_virtual && v.is_final && !v.is_defined);
    let internal = FnPlace { is_member: true, class_is_anonymous: true, ..fn_place() };
    let g = definition_traits(&internal, source, &p.tree, nth(&p, "function_definition", 1), 1, list);
    assert_eq!((g.linkage, g.is_weak), (Linkage::Internal, false));
}

#[test]
fn functions_belong_to_the_class_their_name_spells() {
    let source = "void A::f(int x) { }\nvoid n::g() { }\nint h() { }\n";
    let p = parsed(source);
    let mut scope = NameScope::new(true);
    let mut index = no_classes();
    index.declared.push("A".into());
    index.defined.push("A".into());
    index.typed.push(("A".into(), TypeDesc::Struct { name: "A".into(), fields: Vec::new() }));
    let name = |k: usize| {
        scope.function_name(&index, source, &p.tree, nth(&p, "function_definition", k)).unwrap()
    };
    let f = name(0);
    assert_eq!((f.name.as_str(), f.class.as_deref(), f.owner_unresolved), ("A::f", Some("A"), false));
    assert_eq!(f.lookup_scope.as_deref(), Some("A"));
    let g = name(1);
    assert_eq!((g.name.as_str(), g.class.as_deref(), g.owner_unresolved), ("n::g", None, true));
    assert_eq!(g.lookup_scope.as_deref(), Some("n"));
    let h = name(2);
    assert_eq!((h.name.as_str(), h.lookup_scope.as_deref(), h.owner_unresolved), ("h", None, false));
    assert!(function_declarator(&p.tree, nth(&p, "function_definition", 0)).is_some());
    let mark = scope.enter_function(&g, true);
    assert_eq!(scope.namespace_scope(), "n");
    scope.leave_function(mark);
    assert_eq!(scope.namespace_scope(), "");
    let mark = scope.enter_function(&f, false);
    assert_eq!(scope.class_ctx.as_deref(), Some("A"));
    scope.leave_function(mark);
    assert_eq!(scope.class_ctx, None);
    assert!(scope.type_scope.is_empty());
}

#[test]
fn dependent_returns_are_unknown() {
    let source = "template <class T> T f(); int g();\n";
    let p = parsed(source);
    let at = |k: usize, has: bool| {
        declared_return_type(has, source, &p.tree, nth(&p, "declaration", k), TypeDesc::Int)
    };
    assert_eq!(at(0, true), TypeDesc::Unknown);
    assert_eq!(at(0, false), TypeDesc::Int);
    assert_eq!(at(1, true), TypeDesc::Int);
}

#[test]
fn parameters_are_lowered_in_order() {
    let source = "void f(int a, A *b, const A &c, int);\n";
    let p = parsed(source);
    let scope = NameScope::new(true);
    let mut index = no_classes();
    index.declared.push("A".into());
    index.typed.push(("A".into(), TypeDesc::Struct { name: "A".into(), fields: Vec::new() }));
    let params = scope.lower_parameters(&index, &vec![], source, &p.tree, declarator(&p, 0), 0);
    let names: Vec<(&str, bool, bool)> =
        params.iter().map(|q| (q.name.as_str(), q.is_pointer, q.is_reference)).collect();
    assert_eq!(names[0], ("a", false, false));
    assert_eq!(names[1], ("b", true, false));
    assert_eq!((names[2].0, names[2].2), ("c", true));
    assert!(!params[3].is_named);
    assert_eq!(params[0].desc, TypeDesc::Int);
}

#[test]
fn a_unit_is_walked_top_down() {
    let source = "namespace n { int a; }\nusing namespace n;\nclass C { int x; };\ntypedef int I;\ntemplate <class T> void f() { }\nint g();\n";
    let p = parsed(source);
    let mut events = Vec::new();
    lower_tree(&p.tree, 0, true, 0, &mut events);
    let kinds: Vec<&str> = events
        .iter()
        .map(|e| match e {
            UnitEvent::Function { .. } => "function",
            UnitEvent::Declaration { .. } => "declaration",
            UnitEvent::Class { has_members: true, .. } => "class",
            UnitEvent::Class { .. } => "record",
            UnitEvent::Namespace { .. } => "namespace",
            UnitEvent::Using { .. } => "using",
            UnitEvent::Alias { .. } => "alias",
            UnitEvent::TooDeep => "deep",
        })
        .collect();
    assert_eq!(kinds, ["namespace", "using", "class", "alias", "function", "declaration"]);
    let mut events = Vec::new();
    lower_tree(&p.tree, 0, true, usize::MAX, &mut events);
    assert_eq!(events, [UnitEvent::TooDeep]);
}

#[test]
fn bodies_close_the_scopes_they_open() {
    let source = "void g() { int a = f(); if (x) { a = b; } return a; delete q; new T; [] { h(); }; }\n";
    let p = parsed(source);
    let body = p.tree.child_by_field_name(nth(&p, "function_definition", 0), "body").unwrap();
    let mut events = Vec::new();
    walk_function_body(&p.tree, body, true, 0, &mut events);
    let mut depth = 0i32;
    for e in &events {
        match e {
            BodyEvent::Enter { .. } => depth += 1,
            BodyEvent::Leave { .. } => depth -= 1,
            _ => {}
        }
        assert!(depth >= 0);
    }
    assert_eq!(depth, 0);
    let count = |want: fn(&BodyEvent) -> bool| events.iter().filter(|e| want(e)).count();
    assert_eq!(count(|e| matches!(e, BodyEvent::Declaration { .. })), 1);
    assert_eq!(count(|e| matches!(e, BodyEvent::Assignment { .. })), 1);
    assert_eq!(count(|e| matches!(e, BodyEvent::Call { .. })), 1, "a lambda's body is its own");
    assert_eq!(count(|e| matches!(e, BodyEvent::Lambda { .. })), 1);
    assert_eq!(count(|e| matches!(e, BodyEvent::Return { .. })), 1);
    assert_eq!(count(|e| matches!(e, BodyEvent::New { .. })), 1);
    let deleted = events.iter().find_map(|e| match e {
        BodyEvent::Delete { operand, .. } => Some(node_text(source, &p.tree, *operand)),
        _ => None,
    });
    assert_eq!(deleted, Some("q"));
    assert!(last_named_child(&p.tree, body).is_some());
}

/// Only what initializes an object of no class, outside functions and
/// dependencies, is its own to be taken back.
#[test]
fn direct_initializations_own_what_they_add() {
    assert!(captures_direct_init(true, true, false, false, false));
    assert!(!captures_direct_init(false, true, false, false, false));
    assert!(!captures_direct_init(true, false, false, false, false));
    assert!(!captures_direct_init(true, true, true, false, false));
    assert!(!captures_direct_init(true, true, false, true, false));
    assert!(!captures_direct_init(true, true, false, false, true));
}

#[test]
fn bodies_own_their_constraints() {
    let mut owners = BodyOwners { ranges: Vec::new(), pending: Vec::new() };
    owners.own_body(true, true, FnId(1), 3, 5, 0, 2);
    owners.own_body(true, true, FnId(2), 5, 5, 2, 3);
    owners.own_body(true, false, FnId(3), 5, 9, 3, 9);
    owners.own_body(false, true, FnId(4), 5, 9, 3, 9);
    assert_eq!(owners.ranges, [(FnId(1), 3, 5)]);
    assert_eq!(owners.pending, [(0, FnId(1)), (1, FnId(1)), (2, FnId(2))]);
}
