use trace_parse::arrows::ArrowReturn;
use trace_parse::collect::CallTarget;
use trace_parse::emit::{StoreRest, ValueRest};
use trace_parse::expr::{FnNames, VarNames};
use trace_parse::fields::{FieldLayout, FieldPath, Layout, Layouts, PathBase};
use trace_parse::finalize::{widen_return_refs, Overloads};
use trace_parse::flows::{expr_to_rhs_flow, Callee};
use trace_parse::infer::Typing;
use trace_parse::ir::{
    FieldId, FileId, FlowConstraint, FnId, Linkage, ReturnFlow, Span, StorageClass, TypeDesc,
    TypeId, VarId,
};
use trace_parse::locals::Locals;
use trace_parse::lookup::ClassIndex;
use trace_parse::merge_vars::{temp_prefix, TempKind};
use trace_parse::parse::{node_text, parse_source_with_lang, ParseResult, SourceLang};
use trace_parse::pending::PendingFnRef;
use trace_parse::program::{FnTraits, Function};
use trace_parse::routes::Dispatch;
use trace_parse::scope::NameScope;
use trace_parse::signature::function_declarator;
use trace_parse::stores::{Emitter, FieldValue, Temp};
use trace_parse::temporaries::{temp_name, temp_variable};
use trace_parse::variables::is_placeholder_type;
use trace_parse::walk::{calls_within, subtree_end};

fn parsed(source: &str) -> ParseResult {
    parse_source_with_lang(source, SourceLang::Cpp).unwrap()
}

fn nth(p: &ParseResult, kind: &str, k: usize) -> usize {
    (0..p.tree.rows.len()).filter(|&n| p.tree.rows[n].kind == kind).nth(k).unwrap()
}

fn right(p: &ParseResult, k: usize) -> usize {
    p.tree.child_by_field_name(nth(p, "assignment_expression", k), "right").unwrap()
}

fn named(name: &str) -> TypeDesc {
    TypeDesc::Struct { name: name.into(), fields: Vec::new() }
}

fn emitter() -> Emitter {
    Emitter { flows: Vec::new(), temps: Vec::new(), receivers: Vec::new(), next_var: 10 }
}

fn at() -> Span {
    Span { file: FileId(0), line: 3, col: 4 }
}

/// What is declared around the expressions of these tests: a struct `s`, a
/// pointer `v` and a function `known`.
struct World {
    scope: NameScope,
    index: ClassIndex,
    arrows: Vec<ArrowReturn>,
    vars: VarNames,
    var_types: Vec<(VarId, TypeDesc)>,
    references: Vec<VarId>,
    calls: Vec<(usize, TypeDesc)>,
    fns: FnNames,
    layouts: Layouts,
}

impl World {
    fn new() -> World {
        let mut locals = Locals::new();
        locals.set("a".into(), VarId(1));
        locals.set("v".into(), VarId(2));
        locals.set("s".into(), VarId(3));
        let known = || vec![("known".to_string(), FnId(9))];
        World {
            scope: NameScope::new(true),
            index: ClassIndex {
                declared: Vec::new(),
                defined: Vec::new(),
                typed: Vec::new(),
                arrows: Vec::new(),
                template_returns: Vec::new(),
                aliases: Vec::new(),
                bases: Vec::new(),
                functions: Vec::new(),
                members: Vec::new(),
            },
            arrows: Vec::new(),
            vars: VarNames { locals, in_function: true, globals: Vec::new(), statics: Vec::new() },
            var_types: vec![(VarId(3), named("Ops"))],
            references: Vec::new(),
            calls: Vec::new(),
            fns: FnNames { in_scope: known(), anywhere: known() },
            layouts: Layouts {
                all: vec![Layout {
                    tag: "Ops".into(),
                    is_union: false,
                    fields: vec![FieldLayout {
                        id: FieldId(5),
                        name: "run".into(),
                        desc: TypeDesc::FnPtr { ret: Box::new(TypeDesc::Void), params: Vec::new() },
                    }],
                }],
            },
        }
    }

    fn typing(&self) -> Typing<'_> {
        Typing {
            scope: &self.scope,
            index: &self.index,
            arrows: &self.arrows,
            vars: &self.vars,
            var_types: &self.var_types,
            references: &self.references,
            calls: &self.calls,
        }
    }
}

fn gep(dst: u32) -> FlowConstraint {
    FlowConstraint::GepField {
        dst: VarId(dst),
        base: VarId(3),
        field: FieldId(5),
        field_name: "run".into(),
    }
}

fn run_field() -> FieldPath {
    FieldPath {
        base: PathBase::Var(VarId(3)),
        ids: vec![FieldId(5)],
        names: vec!["run".into()],
        types: vec![TypeDesc::Unknown],
    }
}

#[test]
fn values_flow_into_variables() {
    let source = "void g() { a = known; a = v; a = *v; a = &v; a = later; a = &later; a = s.run; a = \"t\"; a = f(); a = 1; a = [] { }; a = &s.run; }\n";
    let p = parsed(source);
    let w = World::new();
    let dst = VarId(1);
    let emit = |k: usize| {
        let mut out = emitter();
        let mut pending = Vec::new();
        let flow = expr_to_rhs_flow(&w.vars, &w.fns, source, &p.tree, true, right(&p, k));
        let path = w.typing().value_path(&w.layouts, None, source, &p.tree, &flow);
        let rest = out.emit_value(&mut pending, flow, path.as_ref(), dst, Some(FnId(4)));
        (rest, out.flows, pending, out.next_var)
    };
    let flowed = |k: usize| {
        let (rest, flows, pending, _) = emit(k);
        assert_eq!(rest, ValueRest::Flowed);
        assert_eq!(pending, []);
        flows
    };
    assert_eq!(flowed(0), [FlowConstraint::AddrOfFn { dst, callee: FnId(9) }]);
    assert_eq!(flowed(1), [FlowConstraint::Copy { dst, src: VarId(2) }]);
    assert_eq!(flowed(2), [FlowConstraint::Load { dst, src: VarId(2) }]);
    assert_eq!(flowed(3), [FlowConstraint::AddrOfVar { dst, src: VarId(2) }]);
    let (rest, flows, pending, _) = emit(4);
    assert_eq!((rest, flows), (ValueRest::Unflowed, vec![]));
    assert_eq!(pending, [PendingFnRef::RhsIdent { dst, name: "later".into() }]);
    let (rest, flows, pending, _) = emit(5);
    assert_eq!((rest, flows), (ValueRest::Unflowed, vec![]));
    assert_eq!(pending, [PendingFnRef::AddrOfIdent { dst, name: "later".into() }]);
    assert_eq!(flowed(6), [gep(10), FlowConstraint::Load { dst, src: VarId(10) }]);
    assert_eq!(flowed(7), [FlowConstraint::StringConst { dst, value: "t".into() }]);
    let (rest, flows, _, next) = emit(8);
    assert_eq!(rest, ValueRest::Call(right(&p, 8)));
    assert_eq!(
        flows,
        [FlowConstraint::CallReturn { dst, callee_name: "f".into(), caller: Some(FnId(4)) }]
    );
    assert_eq!(next, 10);
    assert_eq!(emit(9).0, ValueRest::Unflowed);
    assert_eq!(emit(10).0, ValueRest::Lambda(right(&p, 10)));
    assert_eq!(flowed(11), [gep(10), FlowConstraint::Copy { dst, src: VarId(10) }]);
}

#[test]
fn fields_take_values() {
    let store = |value: FieldValue| {
        let mut out = emitter();
        let mut pending = Vec::new();
        let rest = out.emit_field_store(&mut pending, &run_field(), value, at());
        (rest, out.flows, out.temps, pending)
    };
    let dst = VarId(10);
    let (rest, flows, temps, _) = store(FieldValue::Var(VarId(2)));
    assert_eq!(rest, StoreRest::Stored);
    assert_eq!(flows, [gep(10), FlowConstraint::Store { dst, src: VarId(2) }]);
    assert_eq!(temps, [Temp::Gep(dst)]);
    let (rest, flows, temps, _) = store(FieldValue::Fn(FnId(9)));
    assert_eq!(rest, StoreRest::Stored);
    assert_eq!(
        flows,
        [
            gep(10),
            FlowConstraint::AddrOfFn { dst: VarId(11), callee: FnId(9) },
            FlowConstraint::Store { dst, src: VarId(11) },
        ]
    );
    assert_eq!(temps, [Temp::Gep(dst), Temp::Ret(VarId(11))]);
    let (rest, flows, _, _) = store(FieldValue::Address(run_field()));
    assert_eq!(rest, StoreRest::Stored);
    assert_eq!(flows, [gep(10), gep(11), FlowConstraint::Store { dst, src: VarId(11) }]);
    let (rest, flows, _, pending) = store(FieldValue::Pending("later".into()));
    assert_eq!(rest, StoreRest::Waiting);
    assert_eq!(flows, [gep(10)]);
    assert_eq!(pending, [PendingFnRef::FieldStore { dst, name: "later".into(), span: at() }]);
    assert_eq!(store(FieldValue::Lambda).0, StoreRest::Lambda { dst });
    assert_eq!(store(FieldValue::Call).0, StoreRest::Call { dst, temp: VarId(11) });
    assert_eq!(store(FieldValue::Flow).0, StoreRest::Value { dst, temp: VarId(11) });

    let mut out = emitter();
    let bare = FieldPath { ids: Vec::new(), names: Vec::new(), types: Vec::new(), ..run_field() };
    let rest = out.emit_field_store(&mut Vec::new(), &bare, FieldValue::Var(VarId(2)), at());
    assert_eq!(rest, StoreRest::Nothing);
    assert_eq!(out.flows, []);
    assert_eq!(out.next_var, 10);
}

#[test]
fn overloaded_arrows_have_receivers_of_their_own() {
    let mut out = emitter();
    let path = FieldPath { base: PathBase::Receiver("Ops".into()), ..run_field() };
    let end = out.emit_path_address(&path);
    assert_eq!(end, VarId(11));
    assert_eq!(out.temps, [Temp::Recv(VarId(10)), Temp::Gep(VarId(11))]);
    assert_eq!(out.receivers, [(VarId(10), "Ops".to_string())]);
    let mut out = emitter();
    let called = out.emit_path_call(&run_field());
    assert_eq!(called, VarId(11));
    assert_eq!(out.flows, [gep(10), FlowConstraint::Load { dst: VarId(11), src: VarId(10) }]);
}

#[test]
fn names_of_temporaries_tell_their_kinds() {
    let kinds = [
        (TempKind::Gep, "_gep70"),
        (TempKind::Load, "_load70"),
        (TempKind::Ret, "_ret70"),
        (TempKind::Recv, "_recv70"),
    ];
    for (kind, name) in kinds {
        assert_eq!(temp_name(kind, VarId(70)), name);
        assert_eq!(temp_prefix(name), Some(kind));
    }
    let var = temp_variable(TempKind::Ret, VarId(7), Some(FnId(2)), at(), TypeId(3));
    assert_eq!(var.name, "_ret7");
    assert_eq!((var.id, var.type_id, var.fn_id), (VarId(7), TypeId(3), Some(FnId(2))));
    assert_eq!(var.storage, StorageClass::Local);
    assert!(var.is_pointer && !var.is_defined && var.param_index.is_none());
}

fn function(id: u32, file: u32) -> Function {
    Function {
        id: FnId(id),
        name: "pick".into(),
        traits: FnTraits {
            linkage: Linkage::Internal,
            is_defined: true,
            is_weak: false,
            is_cpp: true,
            is_virtual: false,
            is_final: false,
            variadic: false,
            owner_unresolved: false,
            defaulted_in_class: false,
            declared_in_class: false,
            explicit_arity: Some(0),
            default_args: 0,
        },
        return_type: TypeId(0),
        params: Vec::new(),
        param_type_ids: Vec::new(),
        locals: Vec::new(),
        span: Span { file: FileId(file), line: 1, col: 1 },
        end_line: 1,
        file: FileId(file),
        tu: None,
        target: None,
    }
}

#[test]
fn returned_functions_are_widened() {
    let overloads = vec![Overloads { callee: FnId(1), file: FileId(6), others: vec![FnId(2)] }];
    let fns = vec![function(8, 6), function(9, 7)];
    let taken = || ReturnFlow::AddrOfFn { callee: FnId(1) };
    let mut entries = vec![
        (FnId(8), vec![taken(), ReturnFlow::Copy { src: VarId(3) }]),
        (FnId(9), vec![taken()]),
    ];
    widen_return_refs(&overloads, &fns, &mut entries);
    assert_eq!(
        entries[0].1,
        [taken(), ReturnFlow::Copy { src: VarId(3) }, ReturnFlow::AddrOfFn { callee: FnId(2) }]
    );
    assert_eq!(entries[1].1, [taken()], "the overloads are not seen from that file");
}

#[test]
fn returned_types_are_read() {
    let source = "struct S { operator char*() { return 0; } long f() { return 1; } };\nauto x = 1;\nlong y = 2;\n";
    let p = parsed(source);
    let scope = NameScope::new(true);
    let index = World::new().index;
    let of = |k: usize| {
        let node = nth(&p, "function_definition", k);
        let decl = function_declarator(&p.tree, node).unwrap();
        scope.spelled_return_type(&index, source, &p.tree, node, decl, "")
    };
    assert_eq!(of(0), TypeDesc::Ptr(Box::new(TypeDesc::Char)));
    assert_eq!(of(1), TypeDesc::Long);
    let type_of = |k: usize| {
        p.tree.child_by_field_name(nth(&p, "declaration", k), "type").unwrap()
    };
    assert!(is_placeholder_type(true, &p.tree, type_of(0)));
    assert!(!is_placeholder_type(false, &p.tree, type_of(0)));
    assert!(!is_placeholder_type(true, &p.tree, type_of(1)));
}

#[test]
fn parameters_stand_where_they_are_declared() {
    let source = "void f(int a, char, const S &r, int d = 1);\n";
    let p = parsed(source);
    let scope = NameScope::new(true);
    let mut index = World::new().index;
    index.typed.push(("S".into(), named("S")));
    let list = nth(&p, "parameter_list", 0);
    let params = scope.listed_parameters(&index, &Vec::new(), source, &p.tree, list, 1);
    let names: Vec<&str> = params.iter().map(|q| q.name.as_str()).collect();
    assert_eq!(names, ["a", "$arg2", "r", "d"]);
    assert_eq!(params[1].desc, TypeDesc::Char);
    assert!(!params[1].is_named && params[2].is_pointer);
    assert!(params[2].is_reference && !params[0].is_reference);
    assert_eq!(node_text(source, &p.tree, params[3].node), "int d = 1");
    let decl = nth(&p, "function_declarator", 0);
    assert_eq!(scope.lower_parameters(&index, &Vec::new(), source, &p.tree, decl, 1), params);
}

#[test]
fn calls_have_targets() {
    let source = "void g() { known(1); s.run(); v(2); LOG(3); nowhere(); }\n";
    let p = parsed(source);
    let w = World::new();
    let (virtuals, closures) = (Vec::new(), Vec::new());
    let d = Dispatch { virtuals: &virtuals, closures: &closures };
    let target = |k: usize, loaded: Option<VarId>| {
        let call = nth(&p, "call_expression", k);
        w.typing().call_target(&d, &w.fns, source, &p.tree, call, loaded)
    };
    let free = |k: usize, name: &str, is_direct: bool, var: Option<u32>| CallTarget::Free {
        func: p.tree.child_by_field_name(nth(&p, "call_expression", k), "function").unwrap(),
        callee: Callee { name: name.into(), is_direct, var: var.map(VarId) },
    };
    assert_eq!(target(0, None), free(0, "known", true, None));
    assert_eq!(target(2, None), free(2, "v", false, Some(2)));
    assert_eq!(target(3, None), CallTarget::Nothing, "a macro is no callee");
    assert_eq!(target(4, None), free(4, "nowhere", false, None));
}

#[test]
fn inner_calls_come_first() {
    let source = "void g() { a = f(h()).m(k()); b(); }\n";
    let p = parsed(source);
    let calls: Vec<&str> = calls_within(&p.tree, right(&p, 0))
        .into_iter()
        .map(|n| node_text(source, &p.tree, n))
        .collect();
    assert_eq!(calls.len(), 4);
    assert_eq!(calls[3], "f(h()).m(k())");
    assert!(calls.iter().position(|c| *c == "h()") < calls.iter().position(|c| *c == "f(h())"));
    assert_eq!(subtree_end(&p.tree, 0), p.tree.rows.len());
}
