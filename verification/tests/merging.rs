use trace_parse::calls::CallSite;
use trace_parse::facts::ClassFacts;
use trace_parse::idmap::{IdMap, IdSet};
use trace_parse::ir::{
    FileId, FlowConstraint, FnId, Linkage, ReturnFlow, Span, StorageClass, TypeDesc, TypeId, VarId,
};
use trace_parse::layouts::{TypeInfo, TypeStep, UnitTypes};
use trace_parse::merge::{Diagnostic, FileInfo, MergeMode, Severity};
use trace_parse::merge_flow::{FlowContext, FlowTables};
use trace_parse::merge_fns::{
    new_entry, respelled_declarations, unit_param_types, FnContext, FnMerge, Registered,
};
use trace_parse::merge_vars::is_dep_file;
use trace_parse::program::{CallRecord, Definition, FnTraits, Function, Occurrence, Variable};
use trace_parse::remap::{remap_flow, remap_return_flow, remap_type};
use trace_parse::unit::{Program, UnitIndex};

fn file(path: &str) -> FileInfo {
    FileInfo { path: path.into(), is_dep: false }
}

fn empty_unit(path: &str) -> UnitIndex {
    UnitIndex {
        own: file(path),
        compilation_index: None,
        files: vec![file(path)],
        classes: ClassFacts::new(),
        functions: Vec::new(),
        internal_definitions: Vec::new(),
        variables: Vec::new(),
        call_sites: Vec::new(),
        flow: Vec::new(),
        function_flow_ranges: Vec::new(),
        global_initializer_ranges: Vec::new(),
        fn_returns: Vec::new(),
        diagnostics: Vec::new(),
    }
}

fn unit_reporting(path: &str, stage: &str) -> UnitIndex {
    UnitIndex {
        diagnostics: vec![Diagnostic {
            severity: Severity::Error,
            file: Some(FileId(0)),
            line: 12,
            message: "unknown type name".into(),
            stage: stage.into(),
        }],
        ..empty_unit(path)
    }
}

/// Merges a unit into a program whose table gives every new function an entry
/// of its own. The types of the unit and the program go by the same numbers.
fn merge_unit(program: &mut Program, unit: &UnitIndex, mode: MergeMode) {
    merge_unit_answering(program, unit, mode, &Vec::new(), |functions, entry, _| {
        let id = entry.id;
        functions.push(entry);
        Registered { id, owns_params: true }
    });
}

/// A program's tables of types and functions. A prototype and a definition of one
/// name and the same parameters are one entry, and two definitions are two: a
/// definition takes a prototype's entry over with its own parameters, a prototype
/// leaves a definition's as they are.
struct Tables {
    types: Vec<TypeDesc>,
    params: Vec<(FnId, Vec<TypeId>)>,
}

/// Two descriptions name one type, however complete the tags in them are.
fn names_one_type(a: &TypeDesc, b: &TypeDesc) -> bool {
    match (a, b) {
        (TypeDesc::Ptr(x), TypeDesc::Ptr(y)) => names_one_type(x, y),
        (TypeDesc::Struct { name: x, .. }, TypeDesc::Struct { name: y, .. }) => x == y,
        _ => a == b,
    }
}

impl Tables {
    fn new() -> Tables {
        Tables { types: Vec::new(), params: Vec::new() }
    }

    /// The number that each type of a unit gets.
    fn take_types(&mut self, unit: &UnitTypes) -> Vec<TypeId> {
        let prepared = unit.merge_descs_of();
        let mut map = Vec::new();
        for i in 0..unit.all.len() {
            match unit.prepared_step(&prepared, i, false) {
                TypeStep::Intern { desc } => {
                    let at = match self.types.iter().position(|t| *t == desc) {
                        Some(at) => at,
                        None => {
                            self.types.push(desc);
                            self.types.len() - 1
                        }
                    };
                    map.push(TypeId(at as u32));
                }
                step => panic!("{step:?}"),
            }
        }
        map
    }

    fn register(
        &mut self,
        functions: &mut Vec<Function>,
        entry: Function,
        params: &[TypeId],
    ) -> Registered {
        let id = entry.id;
        let desc = |t: &TypeId| &self.types[t.0 as usize];
        let agree = |f: FnId| {
            let held = &self.params.iter().find(|(g, _)| *g == f).unwrap().1;
            held.len() == params.len()
                && held.iter().zip(params).all(|(a, b)| names_one_type(desc(a), desc(b)))
        };
        let met = functions.iter_mut().find(|f| {
            f.name == entry.name
                && !(f.traits.is_defined && entry.traits.is_defined)
                && agree(f.id)
        });
        match met {
            Some(held) if entry.traits.is_defined => {
                let id = held.id;
                *held = Function { id, ..entry };
                Registered { id, owns_params: true }
            }
            Some(held) => Registered { id: held.id, owns_params: false },
            None => {
                functions.push(entry);
                self.params.push((id, params.to_vec()));
                Registered { id, owns_params: true }
            }
        }
    }
}

/// Merges a unit into a program whose table answers for each new function.
fn merge_unit_answering(
    program: &mut Program,
    unit: &UnitIndex,
    mode: MergeMode,
    types: &Vec<TypeId>,
    mut answer: impl FnMut(&mut Vec<Function>, Function, &[TypeId]) -> Registered,
) {
    let scope = if mode == MergeMode::Variant { program.source_scope(&unit.own) } else { 0 };
    let map = program.begin_unit(unit, mode);
    if mode == MergeMode::TypesOnly {
        return;
    }
    let params = unit_param_types(&unit.variables, types);
    let agree: Vec<(TypeId, TypeId)> = Vec::new();
    let respelled = respelled_declarations(&unit.functions, &params, &agree);
    let c = FnContext {
        mode,
        map: &map,
        type_map: types,
        param_types: &params,
        respelled: &respelled,
        agree: &agree,
    };
    let mut fns = FnMerge::new();
    let mut at = program.place_functions(&c, unit, &mut fns, 0);
    while at < unit.functions.len() {
        let id = FnId(program.symbols.functions.len() as u32);
        let f = &unit.functions[at];
        let is_dep = is_dep_file(&program.files, map.of(f.span.file));
        let (entry, param_types) = new_entry(&c, f, id, is_dep, TypeId(9));
        let got = answer(&mut program.symbols.functions, entry, &param_types);
        program.take_in(&c, unit, &mut fns, at, got);
        at = program.place_functions(&c, unit, &mut fns, at + 1);
    }
    fns.join_respelled(&mut program.keys, &unit.functions, &respelled, &map);
    program.finish_unit(unit, mode, &map, types, &mut fns, scope);
}

fn merge_unit_variants(program: &mut Program, base: &UnitIndex, variants: &[UnitIndex]) {
    let flow_start = program.flow.flow.len();
    let var_start = program.symbols.variables.len();
    merge_unit(program, base, MergeMode::Full);
    let map = program.begin_unit(base, MergeMode::TypesOnly);
    program.begin_variants(base, &map, flow_start, var_start);
    for variant in variants {
        merge_unit(program, variant, MergeMode::Variant);
        let map = program.begin_unit(variant, MergeMode::TypesOnly);
        program.end_variant(variant, &map);
    }
}

fn traits(linkage: Linkage, is_defined: bool) -> FnTraits {
    FnTraits {
        linkage,
        is_defined,
        is_weak: false,
        is_cpp: true,
        is_virtual: false,
        is_final: false,
        variadic: false,
        owner_unresolved: false,
        defaulted_in_class: false,
        declared_in_class: false,
        explicit_arity: Some(1),
        default_args: 0,
    }
}

fn span(file: u32, line: u32, col: u32) -> Span {
    Span { file: FileId(file), line, col }
}

fn variable(id: u32, name: &str, owner: Option<u32>, param: bool, at: Span) -> Variable {
    Variable {
        id: VarId(id),
        name: name.into(),
        type_id: TypeId(0),
        storage: if param {
            StorageClass::Param
        } else if owner.is_some() {
            StorageClass::Local
        } else {
            StorageClass::Global
        },
        fn_id: owner.map(FnId),
        param_index: if param { Some(0) } else { None },
        span: at,
        is_pointer: true,
        is_defined: false,
        is_weak: false,
        is_namespaced: false,
        symbol: if owner.is_none() { Some(name.into()) } else { None },
        target: None,
    }
}

fn unit_declaring(path: &str, defined: bool) -> UnitIndex {
    UnitIndex {
        functions: vec![Function {
            id: FnId(0),
            name: "recycle".into(),
            traits: traits(Linkage::External, defined),
            return_type: TypeId(0),
            params: vec![VarId(0)],
            param_type_ids: Vec::new(),
            locals: Vec::new(),
            span: span(0, if defined { 40 } else { 8 }, 1),
            end_line: if defined { 44 } else { 8 },
            file: FileId(0),
            tu: None,
            target: None,
        }],
        variables: vec![variable(0, "object", Some(0), true, span(0, 8, 1))],
        ..empty_unit(path)
    }
}

fn ids(pairs: &[(u32, u32)]) -> IdMap {
    let mut map = IdMap::new();
    for (from, to) in pairs {
        map.insert(*from, *to);
    }
    map
}

/// Both ends of an unwrap are variables the merge renumbers.
#[test]
fn remap_flow_renumbers_both_unwrap_endpoints() {
    let var_map = ids(&[(1, 11), (2, 12)]);
    let flow = FlowConstraint::UnwrapPointer { dst: VarId(1), src: VarId(2) };
    assert_eq!(
        remap_flow(&flow, &IdMap::new(), &var_map),
        FlowConstraint::UnwrapPointer { dst: VarId(11), src: VarId(12) }
    );
}

#[test]
fn renumbering_leaves_unknown_numbers_alone() {
    let fns = ids(&[(3, 30)]);
    let vars = ids(&[(1, 10)]);
    let call = FlowConstraint::CallReturn {
        dst: VarId(1),
        callee_name: "open".into(),
        caller: Some(FnId(3)),
    };
    assert_eq!(
        remap_flow(&call, &fns, &vars),
        FlowConstraint::CallReturn {
            dst: VarId(10),
            callee_name: "open".into(),
            caller: Some(FnId(30)),
        }
    );
    let other = FlowConstraint::AddrOfFn { dst: VarId(7), callee: FnId(8) };
    assert_eq!(
        remap_flow(&other, &fns, &vars),
        FlowConstraint::AddrOfFn { dst: VarId(7), callee: FnId(8) }
    );
    assert_eq!(
        remap_return_flow(&ReturnFlow::AddrOfFn { callee: FnId(3) }, &fns, &vars),
        ReturnFlow::AddrOfFn { callee: FnId(30) }
    );
    assert_eq!(remap_type(TypeId(1), &[TypeId(4), TypeId(5)]), TypeId(5));
    assert_eq!(remap_type(TypeId(9), &[TypeId(4), TypeId(5)]), TypeId(9));
}

fn int_field(name: &str) -> (String, TypeDesc) {
    (name.into(), TypeDesc::Int)
}

fn tag(name: &str, fields: Vec<(String, TypeDesc)>) -> TypeDesc {
    TypeDesc::Struct { name: name.into(), fields }
}

fn plain(desc: TypeDesc) -> TypeInfo {
    TypeInfo { desc, layout: Vec::new() }
}

/// Interning an aggregate by reference when its layout still spells its
/// descriptor is a shortcut: rebuilding the field list from the layout gives
/// the same descriptor.
#[test]
fn merging_an_unchanged_aggregate_matches_rebuilding_it() {
    let inner = || tag("Inner", vec![int_field("x")]);
    let types = UnitTypes {
        all: vec![
            plain(TypeDesc::Int),
            plain(TypeDesc::Long),
            TypeInfo { desc: inner(), layout: vec![("x".into(), TypeId(0))] },
            plain(TypeDesc::Ptr(Box::new(inner()))),
            TypeInfo {
                desc: tag(
                    "Outer",
                    vec![
                        ("inner".into(), inner()),
                        ("next".into(), TypeDesc::Ptr(Box::new(inner()))),
                    ],
                ),
                layout: vec![("inner".into(), TypeId(2)), ("next".into(), TypeId(3))],
            },
            TypeInfo {
                desc: TypeDesc::Union {
                    name: "U".into(),
                    fields: vec![int_field("i"), ("l".into(), TypeDesc::Long)],
                },
                layout: vec![("i".into(), TypeId(0)), ("l".into(), TypeId(1))],
            },
        ],
    };
    for at in [2, 4, 5] {
        assert!(types.layout_spells_desc(at));
        let fields = types.fields_from_layout(at);
        let rebuilt = match &types.all[at].desc {
            TypeDesc::Struct { name, .. } => TypeDesc::Struct { name: name.clone(), fields },
            TypeDesc::Union { name, .. } => TypeDesc::Union { name: name.clone(), fields },
            other => panic!("{other:?}"),
        };
        assert_eq!(types.merge_desc(at), rebuilt);
        assert_eq!(types.merge_desc(at), types.all[at].desc);
    }
    assert_eq!(types.merge_descs_of().len(), 6);
    assert!(matches!(types.next_step(4, false), TypeStep::Intern { .. }));
    match types.next_step(5, true) {
        TypeStep::Unite { name, is_union, fields } => {
            assert_eq!(name, "U");
            assert!(is_union);
            assert_eq!(fields, vec![int_field("i"), ("l".into(), TypeDesc::Long)]);
        }
        other => panic!("{other:?}"),
    }
}

/// Completing a nested tag rewrites the layout but not the descriptor, so
/// the merge has to take the layout's completed field, not the shortcut.
#[test]
fn a_completed_nested_tag_is_merged_from_the_layout() {
    let types = UnitTypes {
        all: vec![
            plain(TypeDesc::Int),
            TypeInfo {
                desc: tag("Outer", vec![("inner".into(), tag("Inner", Vec::new()))]),
                layout: vec![("inner".into(), TypeId(2))],
            },
            TypeInfo {
                desc: tag("Inner", vec![int_field("x")]),
                layout: vec![("x".into(), TypeId(0))],
            },
        ],
    };
    assert!(!types.layout_spells_desc(1));
    assert_eq!(
        types.merge_desc(1),
        tag("Outer", vec![("inner".into(), tag("Inner", vec![int_field("x")]))])
    );
}

/// A variant re-lowers the whole unit, so it re-reports everything the base
/// already did. That holds for every stage, not only `preprocess`.
#[test]
fn a_variant_does_not_repeat_a_diagnostic_the_base_reported() {
    for stage in ["parse", "preprocess"] {
        let mut program = Program::new();
        let base = unit_reporting("a.c", stage);
        let variant = unit_reporting("a.c", stage);
        merge_unit_variants(&mut program, &base, std::slice::from_ref(&variant));
        assert_eq!(
            program.diagnostics.len(),
            1,
            "`{stage}` reported once by the base and once per variant: {:?}",
            program.diagnostics
        );
        assert_eq!(program.variants_merged, 1);
        assert!(program.layouts_unioned);
    }
}

/// Deduplication must not silence a *different* stage reporting the same
/// text at the same position: those are two findings, not one.
#[test]
fn a_variant_keeps_a_report_from_a_stage_the_base_did_not_report() {
    let mut program = Program::new();
    let base = unit_reporting("a.c", "preprocess");
    let variant = unit_reporting("a.c", "parse");
    merge_unit_variants(&mut program, &base, std::slice::from_ref(&variant));
    assert_eq!(program.diagnostics.len(), 2, "{:?}", program.diagnostics);
}

/// One unit can carry the same header body twice (a cached header expansion
/// plus the translation unit's own copy). Both merge into one function; the
/// second copy's temporaries must match the first's, or each call in the body
/// is recorded twice.
#[test]
fn a_header_body_twice_in_one_unit_keeps_one_record_per_call() {
    let body = |id: u32| Function {
        id: FnId(id),
        name: "Unmarshal".into(),
        traits: traits(Linkage::Internal, true),
        return_type: TypeId(0),
        params: vec![VarId(id * 10)],
        param_type_ids: Vec::new(),
        locals: Vec::new(),
        span: span(1, 81, 1),
        end_line: 90,
        file: FileId(1),
        tu: None,
        target: None,
    };
    let var = |id: u32, name: &str, owner: u32, param: bool| {
        let at = if param { span(1, 81, 30) } else { span(1, 86, 75) };
        variable(id, name, Some(owner), param, at)
    };
    let site = |id: u32, owner: u32| CallRecord {
        site: CallSite {
            id,
            caller: FnId(owner),
            callee_name: "ReadBuffer".into(),
            callee_var: None,
            callee_fn_id: None,
            var_args: vec![(0, VarId(owner * 10)), (2, VarId(owner * 10 + 1))],
            fn_args: Vec::new(),
            addr_of_member_args: Vec::new(),
            args_bound_past_this: false,
            span: span(1, 86, 10),
            is_direct: true,
            receiver_class: None,
            return_dst: None,
            tu: None,
        },
        addr_of_args: vec![2],
        expansion_span: None,
        scope_file: FileId(1),
        occurrence: Occurrence {
            span: span(1, 86, 10),
            expansion_span: None,
            expansion_id: None,
        },
    };
    let text = "static inline int Unmarshal(struct Buf *data) { .. }";
    let unit = UnitIndex {
        files: vec![file("main.cpp"), file("sample.h")],
        functions: vec![body(1), body(2)],
        variables: vec![
            var(10, "data", 1, true),
            var(11, "_ret11", 1, false),
            var(20, "data", 2, true),
            var(21, "_ret21", 2, false),
        ],
        call_sites: vec![site(0, 1), site(1, 2)],
        internal_definitions: vec![
            Definition { id: FnId(1), text: text.into() },
            Definition { id: FnId(2), text: text.into() },
        ],
        ..empty_unit("main.cpp")
    };
    let mut program = Program::new();
    merge_unit(&mut program, &unit, MergeMode::Full);
    let records = program
        .calls
        .records
        .iter()
        .filter(|r| r.site.callee_name == "ReadBuffer")
        .count();
    assert_eq!(program.symbols.functions.len(), 1, "one function");
    assert_eq!(records, 1, "one record for the one call");
}

#[test]
fn internal_definition_text_is_retained_only_for_tu_preambles() {
    let mut unit = unit_declaring("util.h", true);
    unit.functions[0].traits.linkage = Linkage::Internal;
    let text = "static void recycle(Svc *object) {}";
    unit.internal_definitions.push(Definition { id: unit.functions[0].id, text: text.into() });
    let mut preamble = Program::new();
    merge_unit(&mut preamble, &unit, MergeMode::SymbolsOnly);
    let id = preamble.symbols.functions[0].id;
    assert_eq!(preamble.definitions, vec![Definition { id, text: text.into() }]);
    let mut merged = Program::new();
    merge_unit(&mut merged, &unit, MergeMode::Full);
    assert!(
        merged.definitions.is_empty(),
        "the final merge must not retain a second definition-text index"
    );
}

/// A unit and its types: the parameter of `recycle` points to a struct whose nested
/// tag has those fields.
fn typed(unit: UnitIndex, nested_fields: Vec<(String, TypeDesc)>) -> (UnitIndex, UnitTypes) {
    let nested = TypeDesc::Struct { name: "Obj".into(), fields: nested_fields };
    let desc = TypeDesc::Ptr(Box::new(TypeDesc::Struct {
        name: "Svc".into(),
        fields: vec![("object".into(), nested)],
    }));
    (unit, UnitTypes { all: vec![TypeInfo { desc, layout: Vec::new() }] })
}

fn object_id() -> Vec<(String, TypeDesc)> {
    vec![("objectId".into(), TypeDesc::Int)]
}

fn unit_declaring_param(path: &str, defined: bool, param: &str) -> UnitIndex {
    let mut unit = unit_declaring(path, defined);
    unit.variables[0].name = param.into();
    unit
}

fn merge_unit_index(program: &mut Program, tables: &mut Tables, unit: &(UnitIndex, UnitTypes)) {
    let types = tables.take_types(&unit.1);
    merge_unit_answering(program, &unit.0, MergeMode::Full, &types, |functions, entry, params| {
        tables.register(functions, entry, params)
    });
}

#[test]
fn a_prototype_and_its_definition_collapse_across_units() {
    let (mut program, mut tables) = (Program::new(), Tables::new());
    // The prototype's unit had seen the nested tag's field; the defining unit had
    // not.
    let proto = typed(unit_declaring("if.h", false), object_id());
    let def = typed(unit_declaring("impl.cpp", true), Vec::new());
    merge_unit_index(&mut program, &mut tables, &proto);
    merge_unit_index(&mut program, &mut tables, &def);
    assert_eq!(tables.types.len(), 2, "each unit interns a type of its own");
    let recycle: Vec<&Function> =
        program.symbols.functions.iter().filter(|f| f.name == "recycle").collect();
    assert_eq!(recycle.len(), 1, "prototype and definition must be one record: {recycle:?}");
    assert!(recycle[0].traits.is_defined, "the caller must reach the body");
}

#[test]
fn a_definition_merging_into_a_prototype_remaps_the_params_it_hands_over() {
    let (mut program, mut tables) = (Program::new(), Tables::new());
    let proto = typed(unit_declaring_param("if.h", false, "declared_object"), Vec::new());
    merge_unit_index(&mut program, &mut tables, &proto);
    let def = typed(unit_declaring_param("impl.cpp", true, "defined_object"), Vec::new());
    merge_unit_index(&mut program, &mut tables, &def);

    let f = program.symbols.functions.iter().find(|f| f.name == "recycle").unwrap();
    assert!(f.traits.is_defined, "the definition must win the entry");
    let param = f.params[0];
    let var = program
        .symbols
        .variables
        .iter()
        .find(|v| v.id == param)
        .expect("the listed parameter must be a variable this program owns");
    assert_eq!(
        var.name, "defined_object",
        "the entry must point at the defining unit's parameter, not the \
         prototype's variable that shares its unit-local number"
    );
}

#[test]
fn later_prototype_does_not_split_a_repeated_definition() {
    let (mut program, mut tables) = (Program::new(), Tables::new());
    let def = typed(unit_declaring("impl.cpp", true), Vec::new());
    let proto = typed(unit_declaring("if.h", false), object_id());
    merge_unit_index(&mut program, &mut tables, &def);
    merge_unit_index(&mut program, &mut tables, &proto);
    let repeated = typed(unit_declaring("other.cpp", true), Vec::new());
    merge_unit_index(&mut program, &mut tables, &repeated);
    assert_eq!(
        program.symbols.functions.len(),
        2,
        "distinct definitions from separate compile units are indexed separately"
    );
}

#[test]
fn later_prototype_does_not_collapse_distinct_definitions() {
    let (mut program, mut tables) = (Program::new(), Tables::new());
    let def = typed(unit_declaring("impl.cpp", true), Vec::new());
    let proto = typed(unit_declaring("if.h", false), object_id());
    let other = typed(unit_declaring("mock.cpp", true), object_id());
    merge_unit_index(&mut program, &mut tables, &def);
    merge_unit_index(&mut program, &mut tables, &proto);
    merge_unit_index(&mut program, &mut tables, &other);
    assert_eq!(
        program.symbols.functions.len(),
        2,
        "a shape-compatible prototype must not erase the distinction between bodies"
    );
    assert!(program.symbols.functions.iter().all(|f| f.traits.is_defined));
}

#[test]
fn later_prototype_preserves_definition_parameter_identity() {
    let (mut program, mut tables) = (Program::new(), Tables::new());
    let def = typed(unit_declaring("impl.cpp", true), Vec::new());
    merge_unit_index(&mut program, &mut tables, &def);
    let recycle = |program: &Program| {
        program.symbols.functions.iter().find(|f| f.name == "recycle").unwrap().params.clone()
    };
    let original_params = recycle(&program);
    let proto = typed(unit_declaring("if.h", false), Vec::new());
    merge_unit_index(&mut program, &mut tables, &proto);
    assert_eq!(recycle(&program), original_params);
}

/// What is registered for a function has the program's types: those its parameters
/// and its result have there.
#[test]
fn a_new_entry_is_registered_with_the_programs_types() {
    let mut unit = unit_declaring("impl.cpp", true);
    unit.functions[0].return_type = TypeId(1);
    unit.functions[0].params.push(VarId(7));
    let types = vec![TypeId(5), TypeId(6)];
    let mut program = Program::new();
    let map = program.begin_unit(&unit, MergeMode::Full);
    let params = unit_param_types(&unit.variables, &types);
    let c = FnContext {
        mode: MergeMode::Full,
        map: &map,
        type_map: &types,
        param_types: &params,
        respelled: &Vec::new(),
        agree: &Vec::new(),
    };
    let (entry, param_types) = new_entry(&c, &unit.functions[0], FnId(3), false, TypeId(9));
    assert_eq!(entry.return_type, TypeId(6));
    // A parameter that is no variable of the unit has an unknown type.
    assert_eq!(param_types, vec![TypeId(5), TypeId(9)]);
}

/// A configuration that repeats the first one adds nothing to the program.
#[test]
fn a_repeated_configuration_adds_nothing() {
    let unit = || UnitIndex {
        variables: vec![
            variable(0, "g", None, false, span(0, 1, 1)),
            variable(1, "h", None, false, span(0, 2, 1)),
        ],
        flow: vec![FlowConstraint::Copy { dst: VarId(0), src: VarId(1) }],
        ..unit_reporting("a.c", "parse")
    };
    let mut program = Program::new();
    merge_unit_variants(&mut program, &unit(), &[unit()]);
    assert_eq!(program.symbols.variables.len(), 2);
    assert_eq!(program.flow.flow.len(), 1);
    assert_eq!(program.diagnostics.len(), 1);
    assert_eq!(program.variants_merged, 1);
    assert!(program.layouts_unioned);
}

/// What was prepared ahead enters the type table as what is built afresh.
#[test]
fn prepared_shapes_step_as_fresh_ones() {
    let types = UnitTypes { all: vec![plain(TypeDesc::Int), plain(tag("A", vec![]))] };
    let prepared = types.merge_descs_of();
    for i in 0..types.all.len() {
        for unite in [false, true] {
            assert_eq!(types.prepared_step(&prepared, i, unite), types.next_step(i, unite));
        }
    }
}

#[test]
fn a_unit_merged_again_adds_no_function() {
    let mut program = Program::new();
    let unit = unit_declaring("impl.cpp", true);
    merge_unit(&mut program, &unit, MergeMode::Full);
    merge_unit(&mut program, &unit, MergeMode::Full);
    assert_eq!(program.symbols.functions.len(), 1);
    assert_eq!(program.symbols.functions[0].params, vec![VarId(0)]);
    assert_eq!(program.symbols.variables.len(), 1);
}

#[test]
fn a_dependency_keeps_its_signature_and_no_body() {
    let mut program = Program::new();
    let mut unit = unit_declaring("dep.h", true);
    unit.own.is_dep = true;
    unit.files[0].is_dep = true;
    unit.flow.push(FlowConstraint::NewHeap { dst: VarId(0) });
    merge_unit(&mut program, &unit, MergeMode::Full);
    let f = &program.symbols.functions[0];
    assert!(!f.traits.is_defined);
    assert_eq!(f.end_line, 40);
    assert!(program.flow.flow.is_empty());
}

#[test]
fn a_configuration_repeats_no_constraint_and_extends_the_base() {
    let unit = |line: u32, extra: bool| {
        let mut unit = UnitIndex {
            functions: vec![Function {
                id: FnId(0),
                name: "log".into(),
                traits: FnTraits { is_cpp: false, ..traits(Linkage::External, true) },
                return_type: TypeId(0),
                params: vec![VarId(0)],
                param_type_ids: Vec::new(),
                locals: vec![VarId(1)],
                span: span(0, line, 1),
                end_line: line + 4,
                file: FileId(0),
                tu: None,
                target: None,
            }],
            variables: vec![
                variable(0, "msg", Some(0), true, span(0, line, 10)),
                variable(1, "kept", Some(0), false, span(0, 50, 3)),
            ],
            flow: vec![FlowConstraint::Copy { dst: VarId(1), src: VarId(0) }],
            ..empty_unit("log.c")
        };
        if extra {
            unit.flow.push(FlowConstraint::NewHeap { dst: VarId(1) });
        }
        unit
    };
    let mut program = Program::new();
    merge_unit_variants(&mut program, &unit(3, false), &[unit(30, true)]);
    assert_eq!(program.symbols.functions.len(), 1, "the other arm of one function");
    assert_eq!(program.symbols.functions[0].span.line, 3);
    assert_eq!(
        program.flow.flow,
        vec![
            FlowConstraint::Copy { dst: VarId(1), src: VarId(0) },
            FlowConstraint::NewHeap { dst: VarId(1) },
        ]
    );
}

/// Two images that link one source have entries of their own.
#[test]
fn images_have_entries_of_their_own() {
    let mut program = Program::new();
    let unit = unit_declaring("recycle.c", true);
    merge_unit(&mut program, &unit, MergeMode::Full);
    merge_unit(&mut program, &unit, MergeMode::Full);
    assert_eq!(program.symbols.functions.len(), 1);
    program.clear_entities();
    merge_unit(&mut program, &unit, MergeMode::Full);
    assert_eq!(program.symbols.functions.len(), 2);
}

/// The place where a call's text was expanded moves with the unit's files.
#[test]
fn the_expansion_of_a_call_is_renumbered() {
    let mut program = Program::new();
    merge_unit(&mut program, &empty_unit("first.c"), MergeMode::Full);
    let mut unit = unit_declaring("call.c", true);
    unit.files.push(file("macro.h"));
    unit.call_sites.push(CallRecord {
        site: CallSite {
            id: 0,
            caller: FnId(0),
            callee_name: "open".into(),
            callee_var: None,
            callee_fn_id: None,
            var_args: Vec::new(),
            fn_args: Vec::new(),
            addr_of_member_args: Vec::new(),
            args_bound_past_this: false,
            span: span(1, 7, 1),
            is_direct: true,
            receiver_class: None,
            return_dst: None,
            tu: None,
        },
        addr_of_args: Vec::new(),
        expansion_span: Some(span(0, 41, 5)),
        scope_file: FileId(0),
        occurrence: Occurrence {
            span: span(1, 7, 1),
            expansion_span: None,
            expansion_id: None,
        },
    });
    merge_unit(&mut program, &unit, MergeMode::Full);
    let record = &program.calls.records[0];
    assert_eq!(record.site.span, span(2, 7, 1));
    assert_eq!(record.expansion_span, Some(span(1, 41, 5)));
}

/// Only a unit that takes part in sharing header bodies has constraints that are
/// taken for those of a shared body.
#[test]
fn constraints_are_shared_by_units_that_share_headers() {
    for shares_headers in [true, false] {
        let unit_vars = vec![variable(0, "data", Some(0), true, span(1, 8, 1))];
        let c = FlowContext {
            mode: MergeMode::Full,
            files: &vec![file("a.cpp"), file("body.h")],
            functions: &Vec::new(),
            variables: &unit_vars,
            unit_vars: &unit_vars,
            users: &vec![(FnId(3), FileId(0)), (FnId(3), FileId(1))],
            shares_headers,
            fn_map: &ids(&[(0, 3)]),
            var_map: &ids(&[(0, 4)]),
            dropped: &IdSet::new(),
        };
        let flow = vec![FlowConstraint::NewHeap { dst: VarId(0) }];
        let mut tables = FlowTables {
            flow: Vec::new(),
            header_flow: Vec::new(),
            variant_flow: Vec::new(),
        };
        tables.merge_flow(&c, &flow);
        tables.merge_flow(&c, &flow);
        assert_eq!(tables.flow.len(), if shares_headers { 1 } else { 2 });
        assert!(tables.flow.iter().all(|f| *f == FlowConstraint::NewHeap { dst: VarId(4) }));
    }
}

/// A configuration finds the functions of the first one, with their parameters, locals
/// and temporaries, and adds none of what they do.
#[test]
fn a_repeated_body_adds_nothing() {
    let unit = || UnitIndex {
        functions: vec![Function {
            id: FnId(4),
            name: "log".into(),
            traits: FnTraits { is_cpp: false, ..traits(Linkage::External, true) },
            return_type: TypeId(0),
            params: vec![VarId(7)],
            param_type_ids: Vec::new(),
            locals: Vec::new(),
            span: span(0, 3, 1),
            end_line: 9,
            file: FileId(0),
            tu: None,
            target: None,
        }],
        variables: vec![
            variable(7, "msg", Some(4), true, span(0, 3, 10)),
            variable(8, "kept", Some(4), false, span(0, 4, 3)),
            variable(9, "_ret9", Some(4), false, span(0, 5, 3)),
            variable(10, "_ret10", Some(4), false, span(0, 5, 3)),
            variable(11, "level", None, false, span(0, 1, 1)),
        ],
        call_sites: vec![CallRecord {
            site: CallSite {
                id: 0,
                caller: FnId(4),
                callee_name: "open".into(),
                callee_var: None,
                callee_fn_id: None,
                var_args: vec![(0, VarId(10))],
                fn_args: Vec::new(),
                addr_of_member_args: Vec::new(),
                args_bound_past_this: false,
                span: span(0, 5, 3),
                is_direct: true,
                receiver_class: None,
                return_dst: Some(VarId(9)),
                tu: None,
            },
            addr_of_args: Vec::new(),
            expansion_span: None,
            scope_file: FileId(0),
            occurrence: Occurrence {
                span: span(0, 5, 3),
                expansion_span: None,
                expansion_id: None,
            },
        }],
        flow: vec![
            FlowConstraint::Copy { dst: VarId(8), src: VarId(7) },
            FlowConstraint::Copy { dst: VarId(10), src: VarId(11) },
        ],
        fn_returns: vec![(FnId(4), vec![ReturnFlow::Copy { src: VarId(9) }])],
        ..unit_reporting("log.c", "parse")
    };
    let mut program = Program::new();
    merge_unit_variants(&mut program, &unit(), &[unit()]);
    assert_eq!(program.symbols.functions.len(), 1);
    assert_eq!(program.symbols.functions[0].params, [VarId(0)]);
    assert_eq!(program.symbols.functions[0].locals, [VarId(1), VarId(2), VarId(3)]);
    assert_eq!(program.symbols.variables.len(), 5);
    assert_eq!(program.flow.flow.len(), 2);
    assert_eq!(program.calls.records.len(), 1);
    assert_eq!(program.calls.records[0].site.var_args, [(0, VarId(3))]);
    assert_eq!(program.returns.entries.len(), 1);
    assert_eq!(program.returns.entries[0].1.len(), 1);
    assert_eq!(program.diagnostics.len(), 1);
    assert_eq!(program.variants_merged, 1);
}

/// Whatever is merged, what the program holds names its own functions and variables,
/// and what it held stands first.
#[test]
fn a_built_program_names_its_own_symbols() {
    let unit = |path: &str| {
        let mut unit = unit_declaring(path, true);
        unit.variables.push(variable(1, "g", None, false, span(0, 1, 1)));
        unit.flow.push(FlowConstraint::Copy { dst: VarId(1), src: VarId(0) });
        unit.flow.push(FlowConstraint::Copy { dst: VarId(1), src: VarId(77) });
        unit
    };
    let mut program = Program::new();
    let mut held = 0;
    for (path, mode) in [
        ("a.cpp", MergeMode::Full),
        ("b.cpp", MergeMode::SymbolsOnly),
        ("c.cpp", MergeMode::TypesOnly),
        ("d.cpp", MergeMode::HeaderPreamble),
        ("e.cpp", MergeMode::Variant),
    ] {
        let before: Vec<String> = program.flow.flow.iter().map(|f| format!("{f:?}")).collect();
        merge_unit(&mut program, &unit(path), mode);
        let after: Vec<String> = program.flow.flow.iter().map(|f| format!("{f:?}")).collect();
        assert_eq!(after[..before.len()], before);
        held = after.len();
        let numbers: Vec<VarId> = program.symbols.variables.iter().map(|v| v.id).collect();
        for f in &program.flow.flow {
            match f {
                FlowConstraint::Copy { dst, src } => {
                    assert!(numbers.contains(dst) && numbers.contains(src))
                }
                other => panic!("{other:?}"),
            }
        }
        for f in &program.symbols.functions {
            assert!(f.params.iter().all(|p| numbers.contains(p)));
        }
    }
    assert!(held > 0);
    program.clear_entities();
    assert_eq!(program.flow.flow.len(), held);
}

/// The files of a unit have their numbers once.
#[test]
fn files_are_added_once() {
    let mut unit = empty_unit("a.c");
    unit.files.push(file("a.h"));
    let mut program = Program::new();
    let first = program.begin_unit(&unit, MergeMode::Full);
    let again = program.begin_unit(&unit, MergeMode::Variant);
    assert_eq!(program.files.len(), 2);
    assert_eq!(first.of(FileId(1)), again.of(FileId(1)));
    assert_eq!(first.of(FileId(0)), FileId(0));
}
