use trace_parse::parse::{
    collect_unrecovered_parse_errors, has_parse_errors, has_unrecovered_parse_errors, node_text,
    parse_c_source, parse_source_with_lang, SourceLang,
};

#[test]
fn a_clean_source_has_no_errors() {
    let parsed = parse_c_source("int main(void) { return 0; }\n").ok().unwrap();
    assert!(!has_parse_errors(&parsed.tree));
    assert!(parsed.tree.kind_is(0, "translation_unit"));
    let function = parsed.tree.named_child(0, 0).unwrap();
    assert!(parsed.tree.kind_is(function, "function_definition"));
    let name = parsed.tree.child_by_field_name(function, "declarator").unwrap();
    assert_eq!(node_text(&parsed.source, &parsed.tree, name), "main(void)");
    let mut out = Vec::new();
    collect_unrecovered_parse_errors(&parsed.tree, 0, &mut out);
    assert!(out.is_empty());
}

#[test]
fn an_unnamed_bit_field_is_no_error() {
    let source = "struct S { unsigned : 0; int a : 4; };\n";
    let parsed = parse_c_source(source).ok().unwrap();
    assert!(!has_parse_errors(&parsed.tree));
}

#[test]
fn a_genuine_error_is_found_and_collected() {
    let parsed = parse_c_source("int f( { @@@ ;\n").ok().unwrap();
    assert!(has_parse_errors(&parsed.tree));
    assert!(has_unrecovered_parse_errors(&parsed.tree, 0));
    let mut out = Vec::new();
    collect_unrecovered_parse_errors(&parsed.tree, 0, &mut out);
    assert!(!out.is_empty());
    for node in out {
        let row = &parsed.tree.rows[node];
        assert!(row.is_error || row.is_missing);
    }
}

#[test]
fn the_grammar_follows_the_language() {
    let source = "namespace a { class B {}; }\n";
    let cpp = parse_source_with_lang(source, SourceLang::Cpp).ok().unwrap();
    assert!(!has_parse_errors(&cpp.tree));
    let first = cpp.tree.named_child(0, 0).unwrap();
    assert!(cpp.tree.kind_is(first, "namespace_definition"));
    let c = parse_source_with_lang(source, SourceLang::C).ok().unwrap();
    let first = c.tree.named_child(0, 0).unwrap();
    assert!(!c.tree.kind_is(first, "namespace_definition"));
    assert_eq!(SourceLang::from_path(false, true), SourceLang::Cpp);
    assert_eq!(SourceLang::from_path(false, false), SourceLang::C);
}
