use trace_parse::declarator::parse_declarator_name;
use trace_parse::ir::{Linkage, StorageClass};
use trace_parse::parse::{parse_source_with_lang, ParseResult, SourceLang};
use trace_parse::variables::{declaration_is_extern, declaration_is_static, storage_for};
use trace_parse::weak::{
    declaration_is_weak, settle_weak_marks, source_may_annotate_weak, weak_global, weak_names,
    FnSymbol, VarSymbol,
};

fn parsed(source: &str, lang: SourceLang) -> ParseResult {
    parse_source_with_lang(source, lang).unwrap()
}

fn nth(p: &ParseResult, kind: &str, k: usize) -> usize {
    (0..p.tree.rows.len()).filter(|&n| p.tree.rows[n].kind == kind).nth(k).unwrap()
}

fn function(name: &str, linkage: Linkage) -> FnSymbol {
    FnSymbol { name: name.into(), linkage, is_weak: false }
}

fn global(name: &str, storage: StorageClass) -> VarSymbol {
    VarSymbol { name: name.into(), storage, is_namespaced: false, is_weak: false }
}

/// The functions and variables that a C text declares outside functions.
fn symbols(source: &str, p: &ParseResult) -> (Vec<FnSymbol>, Vec<VarSymbol>) {
    let mut fns = Vec::new();
    let mut vars = Vec::new();
    for &node in &p.tree.kids[0] {
        let Some(declarator) = p.tree.child_by_field_name(node, "declarator") else {
            continue;
        };
        let (name, _) = parse_declarator_name(source, &p.tree, declarator);
        let is_static = declaration_is_static(&p.tree, node);
        if p.tree.kind_is(declarator, "function_declarator") {
            let linkage = if is_static { Linkage::Internal } else { Linkage::External };
            fns.push(function(&name, linkage));
        } else {
            vars.push(global(&name, storage_for(false, is_static)));
        }
    }
    (fns, vars)
}

#[test]
fn review_scoped_weak_attributes() {
    for attribute in ["gnu::weak", "gnu::__weak__"] {
        let source = format!("[[{attribute}]] void hook() {{}}\n");
        let p = parsed(&source, SourceLang::Cpp);
        let declaration = p.tree.named_child(0, 0).unwrap();
        assert!(declaration_is_weak(&source, &p.tree, declaration), "{attribute}");
    }
}

#[test]
fn review_raw_spaced_pragma_marks_external_symbols() {
    let source = "void hook(void) {}\nint value;\nstatic int local;\n#  pragma weak hook\n#\tpragma weak value\n# pragma weak local\n";
    let p = parsed(source, SourceLang::C);
    let (mut fns, mut vars) = symbols(source, &p);
    assert_eq!(fns, [function("hook", Linkage::External)]);
    assert_eq!(
        vars,
        [global("value", StorageClass::Global), global("local", StorageClass::FileStatic)]
    );
    let has_weak = source_may_annotate_weak(source);
    assert!(has_weak);
    assert!(settle_weak_marks(source, has_weak, false, &mut fns, &mut vars));
    assert!(fns[0].is_weak);
    assert!(vars[0].is_weak);
    assert!(!vars[1].is_weak);
}

#[test]
fn a_declarator_keeps_its_own_attribute() {
    let source = "void a(void) __attribute__((weak)), b(void);\n";
    let p = parsed(source, SourceLang::C);
    let a = nth(&p, "function_declarator", 0);
    let b = nth(&p, "function_declarator", 1);
    assert!(declaration_is_weak(source, &p.tree, a));
    assert!(!declaration_is_weak(source, &p.tree, b));
}

#[test]
fn an_attribute_among_the_specifiers_weakens_every_declarator() {
    let source = "__attribute__((weak)) int a, b;\n";
    let p = parsed(source, SourceLang::C);
    for k in 0..2 {
        let name = (0..p.tree.rows.len())
            .filter(|&n| p.tree.rows[n].field.as_deref() == Some("declarator"))
            .nth(k)
            .unwrap();
        assert!(weak_global(true, StorageClass::Global, source, &p.tree, name));
        assert!(!weak_global(true, StorageClass::Local, source, &p.tree, name));
        assert!(!weak_global(false, StorageClass::Global, source, &p.tree, name));
    }
}

#[test]
fn an_extern_declaration_is_told() {
    let source = "extern int a; int b;\n";
    let p = parsed(source, SourceLang::C);
    assert!(declaration_is_extern(source, &p.tree, nth(&p, "declaration", 0)));
    assert!(!declaration_is_extern(source, &p.tree, nth(&p, "declaration", 1)));
}

#[test]
fn a_pragma_names_the_symbol_before_its_alias() {
    let names: Vec<String> = weak_names("#pragma weak f = g\n#pragma once\n  #pragma weak h\n", true)
        .into_iter()
        .map(|n| n.into_iter().collect())
        .collect();
    assert_eq!(names, ["f", "h"]);
    assert!(weak_names("#pragma weak f\n", false).is_empty());
    assert!(!source_may_annotate_weak("int a;\n"));
}

#[test]
fn weak_symbols_are_weak_everywhere() {
    let mut fns = Vec::new();
    let mut vars = vec![
        global("cb", StorageClass::Global),
        VarSymbol { is_weak: true, ..global("cb", StorageClass::Global) },
        VarSymbol { is_namespaced: true, ..global("cb", StorageClass::Global) },
        global("other", StorageClass::Global),
    ];
    assert!(settle_weak_marks("int cb;", false, true, &mut fns, &mut vars));
    let marks: Vec<bool> = vars.iter().map(|v| v.is_weak).collect();
    assert_eq!(marks, [true, true, false, false]);
}

#[test]
fn a_namespaced_global_is_not_what_a_pragma_names() {
    let mut fns = vec![function("cb", Linkage::Internal)];
    let mut vars = vec![VarSymbol { is_namespaced: true, ..global("cb", StorageClass::Global) }];
    settle_weak_marks("#pragma weak cb\n", true, false, &mut fns, &mut vars);
    assert!(!fns[0].is_weak);
    assert!(!vars[0].is_weak);
}
