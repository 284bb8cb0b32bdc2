use trace_parse::naming::canonicalize_conversion_target;
use trace_parse::normalize::normalize_template_spelling;
use trace_parse::spelling::{
    is_fundamental_type_name, is_template_literal, split_pointer_suffix, strip_trailing_cv,
    template_arguments, template_tail,
};

#[test]
fn arguments_split_outside_parentheses_and_nested_lists() {
    assert_eq!(template_arguments("W<A>"), ["A"]);
    assert_eq!(template_arguments("W<A, B>"), ["A", "B"]);
    assert_eq!(template_arguments("W<Pair<A, B>, C>"), ["Pair<A, B>", "C"]);
    assert_eq!(
        template_arguments("W<void(int, char)>"),
        ["void(int, char)"]
    );
    assert_eq!(
        template_arguments("W<int(*)(int, int), B>"),
        ["int(*)(int, int)", "B"]
    );
    assert!(template_arguments("Plain").is_empty());
    // `W<>` has no arguments, not one empty one: a `""` argument would be
    // qualified to a bare `ns::` and looked up as a class name.
    assert!(template_arguments("W<>").is_empty());
    assert!(template_arguments("std::tuple<>").is_empty());
    assert_eq!(template_arguments("W<A, >"), ["A", ""]);
}

#[test]
fn tail_is_what_follows_the_first_argument_list() {
    assert_eq!(template_tail("W<A>"), "");
    assert_eq!(template_tail("W<A>::Inner"), "::Inner");
    assert_eq!(template_tail("W<Pair<A, B>>::iterator"), "::iterator");
    assert_eq!(template_tail("W<void(int, char)>::R"), "::R");
    assert_eq!(template_tail("Plain"), "");
    assert_eq!(template_tail("W<A"), "");
}

#[test]
fn trailing_cv_is_stripped_past_any_whitespace() {
    assert_eq!(strip_trailing_cv("A const"), "A");
    assert_eq!(strip_trailing_cv("A\tconst"), "A");
    assert_eq!(strip_trailing_cv("A  const volatile "), "A");
    assert_eq!(strip_trailing_cv("A*const"), "A*");
    assert_eq!(strip_trailing_cv("A&volatile"), "A&");
    assert_eq!(strip_trailing_cv("A *const"), "A *");
    assert_eq!(strip_trailing_cv("myconst"), "myconst");
    assert_eq!(strip_trailing_cv("A"), "A");
}

#[test]
fn pointer_levels_survive_qualifiers_at_any_level() {
    let split = |arg: &str| split_pointer_suffix(arg);
    let pair = |a: &str, b: &str| (a.to_owned(), b.to_owned());
    assert_eq!(split("T"), pair("T", ""));
    assert_eq!(split("T *"), pair("T", "*"));
    assert_eq!(split("T*const"), pair("T", "*"));
    assert_eq!(split("T * const *"), pair("T", "**"));
    assert_eq!(split("const T&"), pair("const T", "&"));
    assert_eq!(split("T const"), pair("T", ""));
}

#[test]
fn literals_are_never_classes() {
    for arg in [
        "4", "-1", "0x10", "true", "false", "nullptr", "'a'", "\"s\"",
    ] {
        assert!(is_template_literal(arg), "{arg}");
    }
    for arg in ["", "T", "N", "truth", "nullptr_t"] {
        assert!(!is_template_literal(arg), "{arg}");
    }
}

#[test]
fn fundamental_names_are_keywords_and_fixed_width_integers() {
    for name in [
        "int",
        "char",
        "void",
        "unsigned long long",
        "signed char",
        "int32_t",
        "size_t",
    ] {
        assert!(is_fundamental_type_name(name), "{name}");
    }
    for name in ["nullptr_t", "intmax_t", "uintmax_t", "auto"] {
        assert!(is_fundamental_type_name(name), "{name}");
    }
    for name in ["", "Widget", "int_holder", "ns::int", "intptr"] {
        assert!(!is_fundamental_type_name(name), "{name}");
    }
}

/// The scopes enclosing a member, innermost first.
fn enclosing(member_scope: &str) -> Vec<String> {
    let segs: Vec<&str> = member_scope.split("::").collect();
    (1..=segs.len())
        .rev()
        .map(|n| segs[..n].join("::"))
        .collect()
}

/// Every way an author could legally spell `fqn` from inside
/// `member_scope`, in a world where no two types share a short name.
fn spellings(fqn: &str, member_scope: &str) -> Vec<String> {
    let mut out = vec![fqn.to_string(), format!("::{fqn}")];
    for scope in enclosing(member_scope) {
        if let Some(rest) = fqn.strip_prefix(&format!("{scope}::")) {
            out.push(rest.to_string());
        }
    }
    out.sort();
    out.dedup();
    out
}

/// Is `fqn` reachable by eliding a scope the member sits in?
fn in_own_scope(fqn: &str, member_scope: &str) -> bool {
    enclosing(member_scope)
        .iter()
        .any(|scope| fqn.starts_with(&format!("{scope}::")))
}

/// Distinct types, none sharing a short name.
fn world(member_scope: &str) -> Vec<String> {
    let mut types = vec!["G".to_string(), "x::X".to_string()];
    for (i, scope) in enclosing(member_scope).iter().enumerate() {
        types.push(format!("{scope}::T{i}"));
        types.push(format!("{scope}::V{i}"));
    }
    types
}

/// Plain types plus every `Head<Arg>` pairing.
fn targets(member_scope: &str) -> Vec<(String, Vec<String>)> {
    let types = world(member_scope);
    let mut out: Vec<(String, Vec<String>)> = types
        .iter()
        .map(|t| (t.clone(), spellings(t, member_scope)))
        .collect();
    for head in &types {
        for arg in &types {
            let mut forms = Vec::new();
            for h in spellings(head, member_scope) {
                for a in spellings(arg, member_scope) {
                    forms.push(format!("{h}<{a}>"));
                }
            }
            out.push((format!("{head}<{arg}>"), forms));
        }
    }
    out
}

/// The head of a target, and the argument when there is one.
fn parts(fqn: &str) -> Vec<&str> {
    match fqn.split_once('<') {
        Some((head, arg)) => vec![head, arg.trim_end_matches('>')],
        None => vec![fqn],
    }
}

fn canonical(member_scope: &str, target: &str) -> String {
    canonicalize_conversion_target(&format!("{member_scope}::operator {target}"))
}

const MEMBER_SCOPES: [&str; 4] = ["C", "n::H", "a::b::H", "a::b::c::H"];

#[test]
fn every_spelling_of_one_type_names_one_member() {
    for member_scope in MEMBER_SCOPES {
        for (fqn, forms) in targets(member_scope) {
            if !parts(&fqn).iter().all(|p| in_own_scope(p, member_scope)) {
                continue;
            }
            let mut names: Vec<String> = forms.iter().map(|f| canonical(member_scope, f)).collect();
            names.sort();
            names.dedup();
            assert_eq!(
                names.len(),
                1,
                "in {member_scope}, the spellings {forms:?} of `{fqn}` named \
                 {names:?} instead of one member"
            );
        }
    }
}

#[test]
fn no_two_types_are_named_the_same_member() {
    for member_scope in MEMBER_SCOPES {
        let mut owner: std::collections::HashMap<String, (String, String)> =
            std::collections::HashMap::new();
        for (fqn, forms) in targets(member_scope) {
            for form in forms {
                let name = canonical(member_scope, &form);
                let entry = owner
                    .entry(name.clone())
                    .or_insert_with(|| (fqn.clone(), form.clone()));
                assert_eq!(
                    entry.0, fqn,
                    "in {member_scope}, `{form}` ({fqn}) and `{}` ({}) both name `{name}`",
                    entry.1, entry.0
                );
            }
        }
    }
}

#[test]
fn canonicalizing_a_canonical_name_changes_nothing() {
    for member_scope in MEMBER_SCOPES {
        for (_, forms) in targets(member_scope) {
            for form in forms {
                let once = canonical(member_scope, &form);
                let twice = canonicalize_conversion_target(&once);
                assert_eq!(once, twice, "unstable for `{form}` in {member_scope}");
            }
        }
    }
}

#[test]
fn types_outside_the_scopes_keep_their_names() {
    for (target, kept) in [
        ("::S", "::S"),
        ("other::S", "other::S"),
        ("::other::Box<ns::S>", "::other::Box<S>"),
        ("Box<other::S>", "Box<other::S>"),
    ] {
        let once = canonicalize_conversion_target(&format!("ns::Handle::operator {target}"));
        assert_eq!(once, format!("ns::Handle::operator {kept}"));
        assert_eq!(canonicalize_conversion_target(&once), once);
    }
}

#[test]
fn every_white_space_of_unicode_is_dropped() {
    let mut spaces: Vec<char> = vec![' ', '\t', '\n', '\u{b}', '\u{c}', '\r'];
    spaces.extend(['\u{85}', '\u{a0}', '\u{1680}', '\u{2028}', '\u{2029}', '\u{202f}']);
    spaces.extend(['\u{205f}', '\u{3000}']);
    spaces.extend('\u{2000}'..='\u{200a}');
    for c in '\u{0}'..='\u{ffff}' {
        let spelled = normalize_template_spelling(&format!("Box<{c}S>"));
        assert_eq!(spelled == "Box<S>", spaces.contains(&c), "{:x}", c as u32);
    }
}
