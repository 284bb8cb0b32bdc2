use trace_parse::candidates::{
    add_candidates, adl_namespaces, callee_lookup, first_found, is_bare_callee_node,
    merge_candidates, CalleeLookup,
};
use trace_parse::ir::{FnId, TypeDesc};
use trace_parse::literal::{decode_c_string_literal, number_literal_desc};
use trace_parse::lookup::ClassIndex;
use trace_parse::methods::{
    is_likely_macro_callee, is_plain_ident, is_synthesizable_extern, method_kind_of_function,
    MethodKind,
};
use trace_parse::naming::{
    canonicalize_conversion_target, normalize_declared_name, scope_part,
};
use trace_parse::normalize::{
    global_lookup_name, is_callable_wrapper, is_std_smart_ptr_name, is_symbol_lookup_callee,
    last_type_segment, normalize_qualified, normalize_spacing, normalize_template_spelling,
    receiver_lookup_name, sanitize_type_name, strip_template_args, type_name_before_template,
};
use trace_parse::parse::{parse_source_with_lang, ParseResult, SourceLang};
use trace_parse::receivers::{argument_class, weak_ptr_upgrade};
use trace_parse::scope::{namespace_levels, NameScope};
use trace_parse::text::{chars_of, decimal_chars, find, holds, rfind, string_of, trimmed};
use trace_parse::types::{extract_tag_name, primitive_scalar_desc};

fn parsed(source: &str) -> ParseResult {
    parse_source_with_lang(source, SourceLang::Cpp).unwrap()
}

fn nth(p: &ParseResult, kind: &str, k: usize) -> usize {
    (0..p.tree.rows.len()).filter(|&n| p.tree.rows[n].kind == kind).nth(k).unwrap()
}

fn no_classes() -> ClassIndex {
    ClassIndex {
        declared: Vec::new(),
        defined: Vec::new(),
        typed: Vec::new(),
        arrows: Vec::new(),
        template_returns: Vec::new(),
        aliases: Vec::new(),
        bases: Vec::new(),
        functions: Vec::new(),
        members: Vec::new(),
    }
}

fn named(name: &str) -> TypeDesc {
    TypeDesc::Struct { name: name.into(), fields: Vec::new() }
}

#[test]
fn texts_are_searched_by_character() {
    let s = chars_of("a::b::c");
    let sep = chars_of("::");
    assert_eq!(find(&s, &sep, 0), Some(1));
    assert_eq!(find(&s, &sep, 2), Some(4));
    assert_eq!(rfind(&s, &sep), Some(4));
    assert!(!holds(&s, &chars_of("->")));
    assert_eq!(string_of(&trimmed(&chars_of(" \tx y\u{a0}\n"))), "x y");
    assert_eq!(string_of(&decimal_chars(4294967295)), "4294967295");
    assert_eq!(string_of(&decimal_chars(0)), "0");
}

#[test]
fn qualified_names_lose_their_spaces() {
    assert_eq!(normalize_qualified("a :: b"), "a::b");
    assert_eq!(normalize_template_spelling("W < A , B >"), "W<A,B>");
    assert_eq!(strip_template_args("a::W<A, B<C>> "), "a::W");
    assert_eq!(strip_template_args("W<A>::f"), "W<A>::f");
    assert_eq!(strip_template_args("plain"), "plain");
    assert_eq!(last_type_segment("a::b::C"), "C");
    assert_eq!(last_type_segment("C"), "C");
    assert_eq!(global_lookup_name("::f"), "f");
    assert_eq!(global_lookup_name("n::f"), "n::f");
    assert_eq!(type_name_before_template(" W < A>"), "W");
    assert_eq!(receiver_lookup_name("Box<int> "), "Box");
    assert_eq!(receiver_lookup_name("Box"), "Box");
}

#[test]
fn well_spaced_text_is_kept() {
    for text in ["unsigned long", "a b c", "x"] {
        assert_eq!(normalize_spacing(text), text);
        assert_eq!(normalize_spacing(&normalize_spacing(text)), text);
    }
    assert_eq!(normalize_spacing("unsigned   long"), "unsigned long");
}

#[test]
fn type_names_are_freed_of_what_surrounds_them() {
    assert_eq!(sanitize_type_name("const class Foo * const &"), "Foo");
    assert_eq!(sanitize_type_name(" volatile struct A"), "A");
    assert_eq!(sanitize_type_name("typename T"), "T");
    assert_eq!(argument_class("const Foo *"), "Foo");
}

#[test]
fn wrappers_are_told_by_their_names() {
    assert!(is_callable_wrapper("std::function<void()>"));
    assert!(is_callable_wrapper("::std::function<int(int)>"));
    assert!(!is_callable_wrapper("function<void()>"));
    assert!(is_std_smart_ptr_name("std::shared_ptr"));
    assert!(is_std_smart_ptr_name("weak_ptr"));
    assert!(!is_std_smart_ptr_name("std::vector"));
    assert!(is_symbol_lookup_callee("dlsym"));
    assert!(is_symbol_lookup_callee("os::GetProcAddress"));
    assert!(!is_symbol_lookup_callee("dlopen"));
}

#[test]
fn members_are_named_on_their_class() {
    assert_eq!(MethodKind::Ctor.name_on("ns::A"), "ns::A::A");
    assert_eq!(MethodKind::Dtor.name_on("ns::A"), "ns::A::~A");
    assert_eq!(MethodKind::Named("f".into()).name_on("A"), "A::f");
    assert_eq!(
        method_kind_of_function("ns::A::~A"),
        Some(("ns::A".to_string(), MethodKind::Dtor))
    );
    assert_eq!(
        method_kind_of_function("ns::A::A"),
        Some(("ns::A".to_string(), MethodKind::Ctor))
    );
    assert_eq!(
        method_kind_of_function("A::f"),
        Some(("A".to_string(), MethodKind::Named("f".into())))
    );
    assert_eq!(method_kind_of_function("free"), None);
}

#[test]
fn callees_that_macros_spell_are_told() {
    assert!(is_likely_macro_callee("LOG_INFO2"));
    assert!(!is_likely_macro_callee("OK"));
    assert!(!is_likely_macro_callee("Log"));
    assert!(!is_likely_macro_callee("A->B"));
    assert!(is_plain_ident("open_2"));
    assert!(!is_plain_ident(""));
    assert!(!is_plain_ident("a::b"));
    assert!(is_synthesizable_extern("memcpy"));
    assert!(is_synthesizable_extern("std::move"));
    assert!(is_synthesizable_extern("::operator new"));
    assert!(!is_synthesizable_extern("a::b c"));
    assert!(!is_synthesizable_extern("p->f"));
}

#[test]
fn number_literals_have_types() {
    assert_eq!(number_literal_desc("12"), TypeDesc::Int);
    assert_eq!(number_literal_desc("12UL"), TypeDesc::Long);
    assert_eq!(number_literal_desc("0xe"), TypeDesc::Int);
    assert_eq!(number_literal_desc("1e3"), TypeDesc::Double);
    assert_eq!(number_literal_desc("1.5f"), TypeDesc::Float);
    assert_eq!(number_literal_desc("1.5"), TypeDesc::Double);
}

#[test]
fn string_literals_are_decoded() {
    assert_eq!(decode_c_string_literal(r#" "a\n\"b\"" "#).as_deref(), Some("a\n\"b\""));
    assert_eq!(decode_c_string_literal(r#"u8"x""#).as_deref(), Some("x"));
    assert_eq!(decode_c_string_literal(r#"L "x\q""#).as_deref(), Some("xq"));
    assert_eq!(decode_c_string_literal(r#""\0""#).as_deref(), Some("\0"));
    assert_eq!(decode_c_string_literal("'a'"), None);
    assert_eq!(decode_c_string_literal("\"open"), None);
}

#[test]
fn a_decoded_literal_holds_its_characters() {
    assert_eq!(decode_c_string_literal("\"é\"").as_deref(), Some("é"));
    assert_eq!(decode_c_string_literal("\"\\é\\n\"").as_deref(), Some("é\n"));
}

#[test]
fn primitive_types_are_read_from_their_words() {
    assert_eq!(primitive_scalar_desc("unsigned long long"), Some(TypeDesc::LongLong));
    assert_eq!(primitive_scalar_desc("long double"), Some(TypeDesc::Double));
    assert_eq!(primitive_scalar_desc("unsigned"), Some(TypeDesc::Int));
    assert_eq!(primitive_scalar_desc("signed"), Some(TypeDesc::Int));
    assert_eq!(primitive_scalar_desc("short int"), Some(TypeDesc::Short));
    assert_eq!(primitive_scalar_desc("int"), None);
    assert_eq!(extract_tag_name("struct Foo *", "struct"), "Foo");
}

#[test]
fn declared_names_are_spelled_one_way() {
    assert_eq!(normalize_declared_name("A :: operator  int"), "A::operator int");
    assert_eq!(canonicalize_conversion_target("a::H::operator a::H::T"), "a::H::operator T");
    assert_eq!(canonicalize_conversion_target("a::H::f"), "a::H::f");
    assert_eq!(scope_part("A::f"), "A::f");
    assert_eq!(scope_part("A::operator ns::S"), "A::");
}

#[test]
fn namespaces_open_and_close() {
    let source = "namespace A::inline B { int x; }\nnamespace { int y; }\nnamespace inlineC { }\n";
    let p = parsed(source);
    let levels = |k: usize| namespace_levels(source, &p.tree, nth(&p, "namespace_definition", k));
    assert_eq!(levels(0), [Some("A".to_string()), Some("B".to_string())]);
    assert_eq!(levels(1), [None]);
    assert_eq!(levels(2), [Some("inlineC".to_string())]);
    let mut scope = NameScope::new(true);
    let mark = scope.open_namespace(levels(0));
    assert_eq!(scope.namespace_scope(), "A::B");
    assert_eq!(scope.qualify("f"), "A::B::f");
    assert_eq!(scope.qualify_decl("f"), "A::B::f");
    assert!(!scope.in_anonymous_namespace());
    let inner = scope.open_namespace(levels(1));
    assert!(scope.in_anonymous_namespace());
    assert_eq!(scope.qualify("f"), "A::B::f");
    scope.close_namespace(inner);
    scope.close_namespace(mark);
    assert_eq!(scope.namespace_scope(), "");
    assert_eq!(scope.qualify("f"), "f");
}

#[test]
fn using_targets_are_looked_up_in_the_scopes_around() {
    let source = "using namespace detail;\nusing inner::fold;\nusing namespace detail;\n";
    let p = parsed(source);
    let mut scope = NameScope::new(true);
    scope.open_namespace(vec![Some("a".into())]);
    assert_eq!(scope.expand_using_target("detail"), ["a::detail", "::detail", "detail"]);
    assert_eq!(scope.expand_using_target("::detail"), ["::detail"]);
    for k in 0..3 {
        scope.lower_using_declaration(source, &p.tree, nth(&p, "using_declaration", k));
    }
    assert_eq!(scope.using_nss, ["a::detail", "::detail", "detail"]);
    assert_eq!(
        scope.using_name_imports,
        [
            ("fold".to_string(), "a::inner::fold".to_string()),
            ("fold".to_string(), "::inner::fold".to_string()),
            ("fold".to_string(), "inner::fold".to_string()),
        ]
    );
}

#[test]
fn argument_types_name_their_namespaces() {
    let args = vec![
        TypeDesc::Ptr(Box::new(named("::kit::Widget"))),
        named("N::Outer::Inner"),
        TypeDesc::Int,
        named("kit::Other"),
    ];
    assert_eq!(adl_namespaces(&args), ["kit", "N", "N::Outer"]);
}

#[test]
fn candidates_are_listed_once() {
    let mut list = vec![FnId(1)];
    add_candidates(&mut list, &vec![FnId(2), FnId(1), FnId(2)]);
    assert_eq!(list, [FnId(1), FnId(2)]);
    assert_eq!(first_found(&vec![vec![], vec![FnId(4)], vec![FnId(5)]]), [FnId(4)]);
    assert!(first_found(&vec![]).is_empty());
    let inner_hides = merge_candidates(
        &vec![vec![FnId(7)], vec![FnId(8)]],
        &vec![],
        &vec![vec![FnId(9)]],
        &vec![],
    );
    assert_eq!(inner_hides, [FnId(7), FnId(9)]);
}

#[test]
fn a_callee_is_looked_up_as_it_is_spelled() {
    let source = "void g() { f(1); ns::f(1); ::f(1); (*h)(1); }\n";
    let p = parsed(source);
    let func = |k: usize| p.tree.child_by_field_name(nth(&p, "call_expression", k), "function").unwrap();
    assert!(is_bare_callee_node(&p.tree, func(0), "f"));
    assert!(!is_bare_callee_node(&p.tree, func(1), "ns::f"));
    assert_eq!(callee_lookup(&p.tree, func(0), "f"), CalleeLookup::Bare);
    assert_eq!(callee_lookup(&p.tree, func(1), "ns::f"), CalleeLookup::Scoped);
    assert_eq!(callee_lookup(&p.tree, func(2), "::f"), CalleeLookup::Scoped);
    assert_eq!(callee_lookup(&p.tree, func(3), "h"), CalleeLookup::Global);
}

#[test]
fn factories_and_upgrades_of_smart_pointers() {
    let mut scope = NameScope::new(true);
    assert_eq!(scope.smart_ptr_factory("std::make_shared"), Some("std::shared_ptr"));
    assert_eq!(scope.smart_ptr_factory("make_shared"), None);
    scope.using_nss.push("std".into());
    assert_eq!(scope.smart_ptr_factory("make_shared"), Some("std::shared_ptr"));
    let index = no_classes();
    assert_eq!(
        weak_ptr_upgrade(&index, "std::weak_ptr<A>", "lock").as_deref(),
        Some("std::shared_ptr")
    );
    assert_eq!(weak_ptr_upgrade(&index, "std::weak_ptr<A>", "reset"), None);
}
