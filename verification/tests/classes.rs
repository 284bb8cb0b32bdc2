use trace_parse::arrows::{
    class_spelling_of_desc, declares_arrow, deref_desc, is_undefined_wrapper,
    resolve_operator_arrow, resolve_operator_arrow_receiver, ArrowReturn,
};
use trace_parse::calls::{
    choose_callees, CallArgs, CallPlace, CallTable, NamedCallee, Signature,
};
use trace_parse::classes::{
    class_members, class_specifier_is_final, is_class_reference, is_named_class_definition,
    member_class_definition, member_class_tag, template_member_decl, virtual_flags,
};
use trace_parse::collect::{collect_call_at_node, CallTarget, Callees};
use trace_parse::expr::{FnNames, VarNames};
use trace_parse::facts::{ClassFacts, FileClass, Named};
use trace_parse::flows::Callee;
use trace_parse::hierarchy::dispatch_targets;
use trace_parse::infer::{class_name_of_desc, Typing};
use trace_parse::ir::{FileId, FnId, ScalarKind, Span, TypeDesc, VarId};
use trace_parse::locals::Locals;
use trace_parse::lookup::ClassIndex;
use trace_parse::members::{declared_param_counts, member_decl_is_function, member_short_name};
use trace_parse::methods::MethodKind;
use trace_parse::overload::{
    arity_compatible, filter_targets_by_argc, method_explicit_arity, param_match_rank,
    rank_overloads, Candidate, TypeShape,
};
use trace_parse::parse::{parse_source_with_lang, ParseResult, SourceLang};
use trace_parse::receivers::{agreed, pointer_layers, substituted_parameter, TemplateBase};
use trace_parse::registration::{
    base_nodes, body_step, class_name, interns_layout, member_prototype_name, member_role, BaseEntry,
    BodyStep, ClassEntry, MemberRole,
};
use trace_parse::results::{find_owner, CallShape, Choice, Returning};
use trace_parse::routes::{field_initializers, settle_callee, Dispatch, Route};
use trace_parse::scope::NameScope;
use trace_parse::substitution::{
    held_class_in_declaration_scope, substituted_template_return, template_arguments_for,
};
use trace_parse::templates::{
    return_is_dependent, spelling_mentions, template_parameter_names, template_return, Spelling,
    TemplateReturn,
};
use trace_parse::text::chars_of;

fn parsed(source: &str) -> ParseResult {
    parse_source_with_lang(source, SourceLang::Cpp).unwrap()
}

fn nth(p: &ParseResult, kind: &str, k: usize) -> usize {
    (0..p.tree.rows.len()).filter(|&n| p.tree.rows[n].kind == kind).nth(k).unwrap()
}

fn no_classes() -> ClassIndex {
    ClassIndex {
        declared: Vec::new(),
        defined: Vec::new(),
        typed: Vec::new(),
        arrows: Vec::new(),
        template_returns: Vec::new(),
        aliases: Vec::new(),
        bases: Vec::new(),
        functions: Vec::new(),
        members: Vec::new(),
    }
}

fn index_of(defined: &[&str], members: &[(&str, u32)]) -> ClassIndex {
    ClassIndex {
        declared: defined.iter().map(|s| s.to_string()).collect(),
        defined: defined.iter().map(|s| s.to_string()).collect(),
        typed: defined.iter().map(|s| (s.to_string(), named(s))).collect(),
        functions: members.iter().map(|(s, _)| s.to_string()).collect(),
        members: members.iter().map(|(s, id)| (s.to_string(), FnId(*id))).collect(),
        ..no_classes()
    }
}

fn named(name: &str) -> TypeDesc {
    TypeDesc::Struct { name: name.into(), fields: Vec::new() }
}

fn pointer(inner: TypeDesc) -> TypeDesc {
    TypeDesc::Ptr(Box::new(inner))
}

fn text(s: Vec<char>) -> String {
    s.into_iter().collect()
}

#[test]
fn types_are_read_from_their_nodes() {
    let source = "namespace n { A a; unsigned long b; struct B *c; X d; auto e = 1; std::function<void()> f; }\n";
    let p = parsed(source);
    let mut scope = NameScope::new(true);
    scope.open_namespace(vec![Some("n".into())]);
    let mut index = index_of(&["n::A", "n::B"], &[]);
    index.aliases.push(("X".into(), TypeDesc::Long));
    let desc = |k: usize| {
        let node = p.tree.child_by_field_name(nth(&p, "declaration", k), "type").unwrap();
        scope.type_desc_from_node(&index, source, &p.tree, node, "B")
    };
    assert_eq!(desc(0), named("n::A"));
    assert_eq!(desc(1), TypeDesc::Long);
    assert_eq!(desc(3), TypeDesc::Long);
    assert!(matches!(desc(5), TypeDesc::FnPtr { .. }));
}

#[test]
fn classes_are_found_from_the_scopes_around() {
    let mut scope = NameScope::new(true);
    scope.open_namespace(vec![Some("a".into()), Some("b".into())]);
    let index = index_of(&["a::T", "T", "a::b::U", "lib::V"], &[]);
    let found = |name: &str| scope.declared_class_in_scope(&index, &chars_of(name)).map(text);
    assert_eq!(found("T").as_deref(), Some("a::T"));
    assert_eq!(found("U").as_deref(), Some("a::b::U"));
    assert_eq!(found("V"), None);
    assert_eq!(text(scope.qualify_class_name(&index, &chars_of("T"))), "a::T");
    assert_eq!(text(scope.qualify_type_name(&chars_of("W"))), "a::b::W");
    let mut with = NameScope::new(true);
    with.using_nss.push("lib".into());
    assert_eq!(with.class_seen_from(&index, &chars_of("V")).map(text).as_deref(), Some("lib::V"));
    assert!(with.names_type_in_scope(&index, "U") == false);
}

#[test]
fn members_are_looked_up_towards_the_bases() {
    let mut index = index_of(&["A", "B", "C"], &[("A::f", 1), ("B::g", 2), ("A::g", 3)]);
    index.bases.push(("C".into(), vec!["B".into()]));
    index.bases.push(("B".into(), vec!["A".into()]));
    let upward: Vec<String> = index.classes_upward(&chars_of("C")).into_iter().map(text).collect();
    assert_eq!(upward, ["C", "B", "A"]);
    let members = |name: &str| index.declared_members_upward("C", &MethodKind::Named(name.into()));
    assert_eq!(members("f"), [FnId(1)]);
    assert_eq!(members("g"), [FnId(2)]);
    assert!(members("h").is_empty());
}

#[test]
fn virtual_members_reach_their_overrides() {
    let named = MethodKind::Named("f".into());
    assert_eq!(dispatch_targets(&named, vec![FnId(1)], false, vec![FnId(1), FnId(2)]), [FnId(1)]);
    assert_eq!(
        dispatch_targets(&named, vec![FnId(1)], true, vec![FnId(1), FnId(2)]),
        [FnId(1), FnId(2)]
    );
    assert_eq!(
        dispatch_targets(&MethodKind::Dtor, vec![FnId(1)], false, vec![FnId(1), FnId(2)]),
        [FnId(1), FnId(2)]
    );
    assert!(dispatch_targets(&MethodKind::Ctor, vec![], false, vec![FnId(2)]).is_empty());
    let index = index_of(&["A"], &[("A::f", 1)]);
    let closures = vec![("A::f".to_string(), vec![FnId(1), FnId(2)])];
    let virtuals = vec![FnId(1)];
    let d = Dispatch { virtuals: &virtuals, closures: &closures };
    assert_eq!(d.member_targets_upward(&index, "A", &named), [FnId(1), FnId(2)]);
}

fn typed_call(source: &str, index: &ClassIndex, var: TypeDesc, class_ctx: Option<&str>) -> Route {
    let p = parsed(source);
    let mut scope = NameScope::new(true);
    scope.class_ctx = class_ctx.map(|s| s.to_string());
    let arrows = Vec::new();
    let mut locals = Locals::new();
    locals.set("o".into(), VarId(1));
    let vars =
        VarNames { locals, in_function: true, globals: Vec::new(), statics: Vec::new() };
    let var_types = vec![(VarId(1), var)];
    let references = Vec::new();
    let calls = Vec::new();
    let typing = Typing {
        scope: &scope,
        index,
        arrows: &arrows,
        vars: &vars,
        var_types: &var_types,
        references: &references,
        calls: &calls,
    };
    let virtuals = Vec::new();
    let closures = Vec::new();
    let d = Dispatch { virtuals: &virtuals, closures: &closures };
    typing.call_route(&d, source, &p.tree, nth(&p, "call_expression", 0))
}

#[test]
fn calls_are_routed_by_what_they_are_made_on() {
    let index = index_of(&["A", "F"], &[("A::f", 1), ("A::A", 2), ("F::operator()", 3)]);
    let member = |cls: &str, kind: MethodKind, id: u32| Route::Member {
        cls: cls.into(),
        kind,
        targets: vec![FnId(id)],
    };
    assert_eq!(
        typed_call("void g() { o.f(1); }\n", &index, named("A"), None),
        member("A", MethodKind::Named("f".into()), 1)
    );
    assert_eq!(
        typed_call("void g() { o->f(1); }\n", &index, pointer(named("A")), None),
        member("A", MethodKind::Named("f".into()), 1)
    );
    assert_eq!(
        typed_call("void g() { f(1); }\n", &index, TypeDesc::Int, Some("A")),
        member("A", MethodKind::Named("f".into()), 1)
    );
    assert_eq!(
        typed_call("void g() { A(1); }\n", &index, TypeDesc::Int, None),
        member("A", MethodKind::Ctor, 2)
    );
    assert_eq!(
        typed_call("void g() { o(1); }\n", &index, named("F"), None),
        member("F", MethodKind::Named("operator()".into()), 3)
    );
    assert_eq!(
        typed_call("void g() { o.none(1); }\n", &index, named("A"), None),
        Route::Unresolved { name: "A::none".into(), cls: "A".into() }
    );
    assert!(matches!(
        typed_call("void g() { h(1); }\n", &index, TypeDesc::Int, None),
        Route::Free { .. }
    ));
}

#[test]
fn callees_that_no_call_has_are_dropped() {
    let fns = FnNames { in_scope: Vec::new(), anywhere: vec![("known".into(), FnId(1))] };
    let settle = |name: &str, is_direct: bool, var: Option<VarId>| {
        settle_callee(&fns, Callee { name: name.into(), is_direct, var })
    };
    assert_eq!(settle("a\"b", true, None), None);
    assert_eq!(settle("LOG_INFO", false, None), None);
    assert!(settle("known", false, None).unwrap().is_direct);
    assert!(!settle("unknown", false, None).unwrap().is_direct);
    assert!(settle("LOG_INFO", true, None).is_some());
}

fn shape(desc: TypeDesc, scalar: ScalarKind) -> TypeShape {
    TypeShape { desc, scalar, pointer_like: false }
}

fn taking(params: Vec<TypeShape>) -> Candidate {
    Candidate { has_params: true, explicit_arity: Some(params.len() as u32), params, default_args: 0, variadic: false }
}

fn an_int() -> TypeShape {
    shape(TypeDesc::Int, ScalarKind::Int)
}

fn a_double() -> TypeShape {
    shape(TypeDesc::Double, ScalarKind::Double)
}

#[test]
fn overloads_are_told_by_their_arguments() {
    let targets = vec![taking(vec![an_int()]), taking(vec![a_double()]), taking(vec![an_int(), an_int()])];
    assert_eq!(filter_targets_by_argc(&targets, 1, &vec![an_int()], true), [0, 1]);
    assert_eq!(filter_targets_by_argc(&targets, 3, &vec![], true), [0, 1, 2]);
    assert_eq!(rank_overloads(&targets, &vec![0, 1], &vec![an_int()]), [0]);
    assert_eq!(rank_overloads(&targets, &vec![1, 0], &vec![an_int()]), [0]);
    assert_eq!(rank_overloads(&targets, &vec![], &vec![an_int()]), [0usize; 0]);
    assert_eq!(param_match_rank(&an_int(), &an_int()), 0);
    assert!(param_match_rank(&an_int(), &a_double()) > 0);
    assert_eq!(method_explicit_arity(&targets[2]), Some(2));
    assert!(arity_compatible(None, Some(3)));
    assert!(arity_compatible(Some(3), Some(3)));
    assert!(!arity_compatible(Some(2), Some(3)));
}

#[test]
fn tied_overloads_are_all_kept() {
    let overloads = vec![taking(vec![an_int()]), taking(vec![an_int()]), taking(vec![a_double()])];
    assert_eq!(rank_overloads(&overloads, &vec![0, 1, 2], &vec![an_int()]), [0, 1, 2]);
    assert_eq!(rank_overloads(&overloads, &vec![1, 2], &vec![an_int()]), [1]);
    assert_eq!(rank_overloads(&overloads, &vec![2], &vec![an_int()]), [2]);
    assert_eq!(rank_overloads(&overloads, &vec![0, 1, 2], &vec![shape(TypeDesc::Unknown, ScalarKind::Aggregate)]), [0, 1, 2]);
}

fn named_callee(is_defined: bool) -> NamedCallee {
    NamedCallee {
        signature: Signature { variadic: false, explicit_arity: Some(1), params: vec![Some(0)] },
        is_defined,
    }
}

#[test]
fn a_prototype_gives_way_to_its_definition() {
    let shapes = vec![taking(vec![an_int()]), taking(vec![an_int()])];
    let named = vec![named_callee(false), named_callee(true)];
    let (by_arity, chosen) = choose_callees(&shapes, &named, 1, &vec![an_int()]);
    assert_eq!(by_arity, [0, 1]);
    assert_eq!(chosen, [1]);
}

fn place() -> CallPlace {
    CallPlace {
        caller: FnId(9),
        span: Span { file: FileId(0), line: 4, col: 2 },
        tu: Some(FileId(0)),
        return_dst: None,
    }
}

#[test]
fn calls_leave_sites() {
    let ids = vec![FnId(1), FnId(2)];
    let names = vec!["f".to_string(), "A::f".to_string()];
    let shapes = vec![taking(vec![an_int()]), taking(vec![an_int()])];
    let named = vec![
        NamedCallee {
            signature: Signature { variadic: false, explicit_arity: Some(1), params: vec![Some(4)] },
            is_defined: true,
        },
        named_callee(true),
    ];
    let members = vec![false, true];
    let found = Callees { ids: &ids, names: &names, shapes: &shapes, named: &named, members: &members };
    let args = || CallArgs {
        var_args: vec![(0, VarId(3))],
        fn_args: Vec::new(),
        addr_of_member_args: Vec::new(),
        argc: 1,
    };
    let free = || CallTarget::Free {
        func: 0,
        callee: Callee { name: "f".into(), is_direct: true, var: None },
    };
    let mut table = CallTable { sites: Vec::new(), next_id: 0 };
    collect_call_at_node(&mut table, place(), true, free(), &found, args(), &vec![an_int()]);
    assert_eq!(table.sites.len(), 2);
    assert_eq!(table.sites[0].callee_fn_id, Some(FnId(1)));
    assert_eq!(table.sites[0].callee_name, "f");
    assert_eq!(table.sites[0].var_args, [(0, VarId(3))]);
    assert_eq!(table.sites[1].callee_name, "f::2");
    assert_eq!(table.sites[1].var_args, [(1, VarId(3))]);
    assert!(table.sites[1].args_bound_past_this);
    assert_eq!(table.next_id, 2);

    let mut table = CallTable { sites: Vec::new(), next_id: 0 };
    let none: Vec<FnId> = Vec::new();
    let (no_names, no_shapes, no_named, no_members) = (Vec::new(), Vec::new(), Vec::new(), Vec::new());
    let nothing = Callees {
        ids: &none,
        names: &no_names,
        shapes: &no_shapes,
        named: &no_named,
        members: &no_members,
    };
    collect_call_at_node(&mut table, place(), true, free(), &nothing, args(), &vec![an_int()]);
    assert_eq!(table.sites[0].callee_fn_id, None);
    assert!(table.sites[0].is_direct);
    collect_call_at_node(&mut table, place(), true, CallTarget::Nothing, &nothing, args(), &vec![]);
    assert_eq!(table.sites.len(), 1);
    let unresolved = CallTarget::Unresolved { name: "w->m".into(), cls: "W".into() };
    collect_call_at_node(&mut table, place(), true, unresolved, &nothing, args(), &vec![]);
    assert_eq!(table.sites[1].callee_name, "w->m");
    assert_eq!(table.sites[1].receiver_class.as_deref(), Some("W"));
    assert_eq!(table.sites[1].var_args, [(1, VarId(3))]);
    let member = CallTarget::Member {
        cls: "A".into(),
        kind: MethodKind::Ctor,
        targets: Vec::new(),
    };
    collect_call_at_node(&mut table, place(), true, member, &nothing, args(), &vec![]);
    assert_eq!(table.sites[2].callee_name, "A::A");
}

#[test]
fn arrows_lead_to_the_class_they_yield() {
    let arrows = vec![
        ArrowReturn { class_name: "Ptr".into(), target: pointer(named("A")), parameter: None, pointer: true },
        ArrowReturn { class_name: "Ref".into(), target: pointer(TypeDesc::Unknown), parameter: Some(0), pointer: true },
    ];
    let mut index = index_of(&["Ptr", "Ref", "A"], &[]);
    index.arrows = vec!["Ptr".into(), "Ref".into()];
    assert!(declares_arrow(&index, &arrows, &chars_of("Ptr")));
    assert!(!declares_arrow(&index, &arrows, &chars_of("A")));
    assert_eq!(resolve_operator_arrow(&index, &arrows, named("Ptr")).as_deref(), Some("A"));
    assert_eq!(resolve_operator_arrow_receiver(&index, &arrows, named("Ref<A>")).as_deref(), Some("A"));
    assert_eq!(deref_desc(&index, &arrows, pointer(TypeDesc::Int)), Some(TypeDesc::Int));
    assert_eq!(class_spelling_of_desc(&pointer(named("A"))).as_deref(), Some("A"));
    assert_eq!(class_name_of_desc(&pointer(named("A"))).as_deref(), Some("A"));
    assert_eq!(class_name_of_desc(&TypeDesc::Int), None);
    assert!(is_undefined_wrapper(&no_classes(), "std::shared_ptr<A>", &chars_of("std::shared_ptr")));
    assert!(!is_undefined_wrapper(&index, "Ptr", &chars_of("Ptr")));
}

#[test]
fn class_bodies_are_walked_by_kind() {
    let source = "class D final : virtual public B, C<int> { int x; void f(); class In { int y; }; template <class T> T h(); using P = int; D(); virtual void v() final; };\n";
    let p = parsed(source);
    let class = nth(&p, "class_specifier", 0);
    assert!(class_specifier_is_final(source, &p.tree, class));
    assert!(is_named_class_definition(&p.tree, class));
    assert!(!is_class_reference(&p.tree, class));
    let mut anonymous = 0;
    assert_eq!(class_name(source, &p.tree, class, &mut anonymous), "D");
    assert_eq!(anonymous, 0);
    let bases: Vec<&str> = base_nodes(&p.tree, class)
        .into_iter()
        .map(|n| trace_parse::parse::node_text(source, &p.tree, n))
        .collect();
    assert_eq!(bases, ["B", "C<int>"]);
    let members = class_members(&p.tree, class);
    let inner = members.iter().find_map(|&m| member_class_definition(&p.tree, m)).unwrap();
    let tag = member_class_tag(source, &p.tree, true, Some("D"), inner).unwrap();
    assert_eq!(tag.spelling, "D::In");
    let body = p.tree.child_by_field_name(class, "body").unwrap();
    let steps: Vec<BodyStep> =
        p.tree.named_children(body).into_iter().map(|c| body_step(&p.tree, true, c)).collect();
    assert!(steps.iter().any(|s| matches!(s, BodyStep::Field(_))));
    assert!(steps.iter().any(|s| matches!(s, BodyStep::Class(_))));
    assert!(steps.iter().any(|s| matches!(s, BodyStep::Alias(_))));
    let names: Vec<String> = members
        .iter()
        .filter_map(|&m| match member_role(&p.tree, m) {
            MemberRole::Prototype(n) => member_prototype_name(source, &p.tree, n, "D"),
            _ => None,
        })
        .collect();
    assert_eq!(names, ["D::f", "D::h", "D::D", "D::v"]);
    let v = *members.last().unwrap();
    let flags = virtual_flags(source, &p.tree, v);
    assert!(flags.is_virtual && flags.is_final);
    assert!(member_decl_is_function(&p.tree, v));
    assert_eq!(member_short_name(source, &p.tree, v).as_deref(), Some("v"));
    assert!(interns_layout(&p.tree, class, true, false));
    let template = members.iter().copied().find(|&m| p.tree.kind_is(m, "template_declaration")).unwrap();
    assert!(template_member_decl(&p.tree, template).is_some());
}

#[test]
fn unnamed_types_are_numbered() {
    let source = "struct { int a; } x;\n";
    let p = parsed(source);
    let mut anonymous = 3;
    let name = class_name(source, &p.tree, nth(&p, "struct_specifier", 0), &mut anonymous);
    assert_eq!(name, "anon_4");
    assert_eq!(anonymous, 4);
}

#[test]
fn entering_a_class_names_it_and_its_bases() {
    let source = "class D : public B, public C<int> { };\n";
    let p = parsed(source);
    let mut scope = NameScope::new(true);
    scope.open_namespace(vec![Some("n".into())]);
    let index = index_of(&["n::B"], &[]);
    let entry = scope.enter_class(&index, source, &p.tree, nth(&p, "class_specifier", 0), "D");
    assert_eq!(entry.name, "n::D");
    assert!(entry.is_cpp_class && entry.has_body && !entry.is_final && !entry.is_anonymous);
    assert_eq!(entry.bases[0].class, "n::B");
    assert_eq!(entry.bases[0].template, None);
    assert_eq!(entry.bases[1].template.as_deref().map(|t| t.ends_with("C<int>")), Some(true));
}

#[test]
fn parameters_are_counted() {
    let source = "void f(int a, int b = 2, ...); void g(void);\n";
    let p = parsed(source);
    let (count, list) = declared_param_counts(source, &p.tree, nth(&p, "parameter_list", 0));
    assert_eq!(count, 2);
    assert_eq!(list.defaults, 1);
    assert!(list.variadic);
    let (count, list) = declared_param_counts(source, &p.tree, nth(&p, "parameter_list", 1));
    assert_eq!((count, list.defaults, list.variadic), (0, 0, false));
}

#[test]
fn member_initializers_construct() {
    let source = "A::A() : B(1), m(2) { }\n";
    let p = parsed(source);
    let mut index = index_of(&["A", "B", "M"], &[]);
    index.bases.push(("A".into(), vec!["B".into()]));
    index.typed[0] = (
        "A".into(),
        TypeDesc::Struct { name: "A".into(), fields: vec![("m".into(), named("M"))] },
    );
    let inits = field_initializers(&index, source, &p.tree, "A", nth(&p, "field_initializer_list", 0));
    let classes: Vec<&str> = inits.iter().map(|i| i.cls.as_str()).collect();
    assert_eq!(classes, ["B", "M"]);
    assert!(inits.iter().all(|i| i.values.is_some()));
}

#[test]
fn template_parameters_are_listed() {
    let source = "template <class T, typename U, int N> T f(U u);\ntemplate <class T> struct W { T *get(int a); int size(); };\n";
    let p = parsed(source);
    let names = template_parameter_names(source, &p.tree, nth(&p, "template_parameter_list", 0));
    assert_eq!(names, [Some("T".to_string()), Some("U".to_string()), Some("N".to_string())]);
    assert!(spelling_mentions("std::vector<T>", Spelling::Source, "T"));
    assert!(!spelling_mentions("std::vector<Tx>", Spelling::Source, "T"));
    assert!(return_is_dependent(source, &p.tree, true, nth(&p, "declaration", 0)));
    assert!(!return_is_dependent(source, &p.tree, false, nth(&p, "declaration", 0)));
    let get = nth(&p, "field_declaration", 0);
    assert_eq!(
        template_return(source, &p.tree, get, "W", 1, 1),
        Some(TemplateReturn { arity: 1, parameter: Some(0), pointer_depth: 1 })
    );
}

#[test]
fn returns_are_substituted_from_the_receiver() {
    let scope = NameScope::new(true);
    let index = index_of(&["A", "W", "D"], &[]);
    let fact = TemplateReturn { arity: 0, parameter: Some(0), pointer_depth: 1 };
    let args = vec!["A".to_string()];
    assert_eq!(
        substituted_template_return(&scope, &index, &args, &None, &vec![fact], 0),
        Some(pointer(named("A")))
    );
    assert_eq!(substituted_template_return(&scope, &index, &args, &None, &vec![fact], 2), None);
    assert_eq!(held_class_in_declaration_scope(&index, "", "A").as_deref(), Some("A"));
    let bases = vec![(
        "D".to_string(),
        vec![TemplateBase { spelling: "W<A>".into(), declaration_scope: "".into(), is_dependent: false }],
    )];
    let mut derived = index_of(&["A", "W", "D"], &[]);
    derived.bases.push(("D".into(), vec!["W".into()]));
    let (found, at) = template_arguments_for(&derived, &bases, "D", "W").unwrap();
    assert_eq!(found, ["A"]);
    assert_eq!(at.as_deref(), Some(""));
    assert_eq!(
        template_arguments_for(&derived, &bases, "W<A>", "W"),
        Some((vec!["A".to_string()], None))
    );
    assert_eq!(agreed(&vec![Some(TypeDesc::Int), Some(TypeDesc::Int)]), Some(TypeDesc::Int));
    assert_eq!(agreed(&vec![Some(TypeDesc::Int), None]), None);
    assert_eq!(pointer_layers(TypeDesc::Int, 2), pointer(pointer(TypeDesc::Int)));
    assert_eq!(substituted_parameter(&args, &fact, Some("A")), Some(pointer(named("A"))));
}

#[test]
fn call_results_are_typed_from_their_functions() {
    let source = "void g() { o.make(); }\n";
    let p = parsed(source);
    let call = nth(&p, "call_expression", 0);
    let scope = NameScope::new(true);
    let index = index_of(&["A"], &[("A::make", 4)]);
    let bases = Vec::new();
    let choice =
        Choice { scope: &scope, index: &index, template_bases: &bases, has_templates: false, receiver: Some("A") };
    let fns = vec![Returning { name: "A::make".into(), ret: pointer(named("A")), facts: None }];
    let result = choice.call_result_among(&vec![taking(vec![])], &fns, &vec![], source, &p.tree, call);
    assert_eq!(result, Some(pointer(named("A"))));
    let none: Vec<Returning> = Vec::new();
    assert_eq!(choice.call_result_among(&vec![], &none, &vec![], source, &p.tree, call), None);
    assert_eq!(find_owner("A::make").as_deref(), Some("A"));
    assert_eq!(find_owner("make"), None);

    let arrows = Vec::new();
    let mut locals = Locals::new();
    locals.set("o".into(), VarId(1));
    let vars = VarNames { locals, in_function: true, globals: Vec::new(), statics: Vec::new() };
    let var_types = vec![(VarId(1), named("A"))];
    let (references, calls) = (Vec::new(), Vec::new());
    let typing = Typing {
        scope: &scope,
        index: &index,
        arrows: &arrows,
        vars: &vars,
        var_types: &var_types,
        references: &references,
        calls: &calls,
    };
    let names = FnNames { in_scope: Vec::new(), anywhere: Vec::new() };
    assert_eq!(
        typing.call_result_shape(&names, false, source, &p.tree, call),
        CallShape::Declared { members: vec![FnId(4)], receiver: Some("A".into()) }
    );
    assert_eq!(typing.infer_static_class(source, &p.tree, nth(&p, "identifier", 1)).as_deref(), Some("A"));
}

#[test]
fn aliases_are_read_from_their_declarations() {
    let source = "typedef unsigned long Word;\nusing Ptr = A *;\ntemplate <class T> using V = T;\n";
    let p = parsed(source);
    let scope = NameScope::new(true);
    let index = index_of(&["A"], &[]);
    let alias = |kind: &str, k: usize| scope.declared_alias(&index, source, &p.tree, nth(&p, kind, k), "");
    assert_eq!(alias("type_definition", 0), Some(("Word".into(), TypeDesc::Long)));
    assert_eq!(alias("alias_declaration", 0), Some(("Ptr".into(), pointer(named("A")))));
    assert_eq!(alias("alias_declaration", 1), None);
    assert_eq!(scope.alias_names(false, "Word"), ["Word"]);
}

/// What a block writes into the scope ends with it.
#[test]
fn blocks_give_back_what_they_add() {
    let mut scope = NameScope::new(true);
    scope.using_nss.push("outer".into());
    let mark = scope.block_mark();
    scope.using_nss.push("inner".into());
    scope.using_name_imports.push(("f".into(), "n::f".into()));
    scope.local_aliases.push(("T".into(), TypeDesc::Int));
    scope.leave_block(mark);
    assert_eq!(scope.using_nss, ["outer"]);
    assert!(scope.using_name_imports.is_empty() && scope.local_aliases.is_empty());
}

#[test]
fn a_class_states_its_bases_and_what_it_is() {
    let base = |class: &str, template: Option<&str>| BaseEntry {
        spelled: class.into(),
        class: class.into(),
        template: template.map(|t| t.into()),
    };
    let entry = |is_anonymous: bool, is_final: bool| ClassEntry {
        name: "D".into(),
        alias: None,
        body_scope: "D".into(),
        is_cpp_class: true,
        has_body: true,
        is_anonymous,
        is_final,
        bases: vec![base("A", None), base("ns::B", Some("ns::B<T>"))],
    };
    let mut facts = ClassFacts::new();
    facts.record_class(&entry(false, true), FileId(2), "ns", &vec![false, true]);
    assert_eq!(facts.final_classes, [Named { name: "D".into() }]);
    assert!(facts.anonymous_classes.is_empty() && facts.anonymous_bases.is_empty());
    assert_eq!(facts.inheritance.len(), 2);
    assert_eq!(facts.inheritance[1].base, "ns::B");
    assert_eq!(facts.template_bases.len(), 1);
    assert_eq!(facts.template_bases[0].base.spelling, "ns::B<T>");
    assert_eq!(facts.template_bases[0].base.declaration_scope, "ns");
    assert!(facts.template_bases[0].base.is_dependent);

    let mut facts = ClassFacts::new();
    facts.record_class(&entry(true, true), FileId(2), "", &vec![false, false]);
    let of_file = |base: Option<&str>| FileClass {
        name: "D".into(),
        file: FileId(2),
        base: base.map(|b| b.into()),
    };
    assert!(facts.final_classes.is_empty());
    assert_eq!(facts.anonymous_classes, [of_file(None)]);
    assert_eq!(facts.anonymous_final_classes, [of_file(None)]);
    assert_eq!(facts.anonymous_bases, [of_file(Some("A")), of_file(Some("ns::B"))]);
    assert_eq!(facts.inheritance.len(), 2);
}
