//! How names and texts are taken apart and found again.

use crate::aliases;
use crate::externs;
use crate::finalize;
use crate::functions;
use crate::ir::DescView;
use crate::literal;
use crate::lookup;
use crate::lookup::ClassIndex;
use crate::members;
use crate::naming;
use crate::normalize;
use crate::program;
use crate::program::Definition;
use crate::scope;
use crate::scope::NameScope;
use crate::signature;
use crate::spelling;
use crate::syntax::SyntaxTree;
use crate::text;
use crate::types;
use vstd::prelude::*;

verus! {

/// A letter behind a backslash stands for its control character; any other character for
/// itself.
pub proof fn law_letters_stand_for_controls(c: char)
    ensures
        c == 'n' ==> literal::escaped(c) == '\n',
        c == 't' ==> literal::escaped(c) == '\t',
        c == 'r' ==> literal::escaped(c) == '\r',
        c == '0' ==> literal::escaped(c) == '\0',
        c == 'a' ==> literal::escaped(c) == '\u{0007}',
        c == 'b' ==> literal::escaped(c) == '\u{0008}',
        c == 'f' ==> literal::escaped(c) == '\u{000c}',
        c == 'v' ==> literal::escaped(c) == '\u{000b}',
        c != 'n' && c != 't' && c != 'r' && c != '0' && c != 'a' && c != 'b' && c != 'f' && c
            != 'v' ==> literal::escaped(c) == c,
{
}

proof fn lemma_unspaced(s: Seq<char>)
    requires
        s.len() > 0,
        !text::is_space(s[0]),
    ensures
        text::trim_start(s) == s,
{
}

/// The words before a type's name are taken off, whatever follows them.
pub proof fn law_elaborations_are_taken_off(rest: Seq<char>)
    ensures
        normalize::unelaborated("const "@ + rest) == normalize::unelaborated(rest),
        normalize::unelaborated("volatile "@ + rest) == normalize::unelaborated(rest),
        normalize::unelaborated("class "@ + rest) == normalize::unelaborated(rest),
        normalize::unelaborated("struct "@ + rest) == normalize::unelaborated(rest),
        normalize::unelaborated("typename "@ + rest) == normalize::unelaborated(rest),
{
    reveal_strlit("const ");
    reveal_strlit("volatile ");
    reveal_strlit("class ");
    reveal_strlit("struct ");
    reveal_strlit("typename ");
    lemma_one_elaboration("const "@, rest);
    lemma_one_elaboration("volatile "@, rest);
    lemma_one_elaboration("class "@, rest);
    lemma_one_elaboration("struct "@, rest);
    lemma_one_elaboration("typename "@, rest);
    let v = "volatile "@ + rest;
    lemma_other_start(v, "const "@, 0);
    let c = "class "@ + rest;
    lemma_other_start(c, "const "@, 1);
    lemma_other_start(c, "volatile "@, 0);
    let s = "struct "@ + rest;
    lemma_other_start(s, "const "@, 0);
    lemma_other_start(s, "volatile "@, 0);
    lemma_other_start(s, "class "@, 0);
    let t = "typename "@ + rest;
    lemma_other_start(t, "const "@, 0);
    lemma_other_start(t, "volatile "@, 0);
    lemma_other_start(t, "class "@, 0);
    lemma_other_start(t, "struct "@, 0);
}

proof fn lemma_one_elaboration(word: Seq<char>, rest: Seq<char>)
    requires
        word.len() > 0,
        !text::is_space(word[0]),
    ensures
        text::trim_start(word + rest) == word + rest,
        text::starts_with(word + rest, word),
        (word + rest).skip(word.len() as int) == rest,
{
    let all = word + rest;
    lemma_unspaced(all);
    assert(all.subrange(0, word.len() as int) =~= word);
    assert(all.skip(word.len() as int) =~= rest);
}

proof fn lemma_other_start(s: Seq<char>, p: Seq<char>, i: int)
    requires
        0 <= i < p.len(),
        i < s.len(),
        s[i] != p[i],
    ensures
        !text::starts_with(s, p),
{
    if text::starts_with(s, p) {
        assert(s.subrange(0, p.len() as int)[i] == s[i]);
    }
}

/// A qualifier behind a type is taken off where a space or a pointer parts them.
pub proof fn law_qualifiers_behind_are_taken_off(rest: Seq<char>)
    requires
        rest.len() > 0,
        text::is_space(rest.last()) || rest.last() == '*' || rest.last() == '&',
    ensures
        spelling::cv_stripped(rest + "const"@) == spelling::cv_stripped(rest),
        spelling::cv_stripped(rest + "volatile"@) == spelling::cv_stripped(rest),
{
    reveal_strlit("const");
    reveal_strlit("volatile");
    let c = rest + "const"@;
    assert(c.last() == 't');
    assert(text::trim_end(c) == c);
    assert(c.subrange(c.len() - 5, c.len() as int) =~= "const"@);
    assert(text::ends_with(c, "const"@));
    assert(c.take(c.len() - 5) =~= rest);
    let v = rest + "volatile"@;
    assert(v.last() == 'e');
    assert(text::trim_end(v) == v);
    assert(v.subrange(v.len() - 8, v.len() as int) =~= "volatile"@);
    assert(text::ends_with(v, "volatile"@));
    assert(v.take(v.len() - 8) =~= rest);
    assert(!text::ends_with(v, "const"@)) by {
        if text::ends_with(v, "const"@) {
            assert(v.subrange(v.len() - 5, v.len() as int)[4] == v[v.len() - 1]);
        }
    }
}

/// Space is kept as one blank between two words, and dropped anywhere else; all else stays.
pub proof fn law_space_parts_words_only(s: Seq<char>, c: char)
    ensures
        text::is_space(c) ==> normalize::spaced_text(s.push(c)) == normalize::spaced_text(s),
        !text::is_space(c) && !(s.len() > 0 && text::is_space(s.last()))
            ==> normalize::spaced_text(s.push(c)) == normalize::spaced_text(s).push(c),
        !text::is_space(c) && s.len() > 0 && text::is_space(s.last()) && text::is_word(c)
            && normalize::spaced_text(s).len() > 0 && text::is_word(
            normalize::spaced_text(s).last(),
        ) ==> normalize::spaced_text(s.push(c)) == normalize::spaced_text(s).push(' ').push(c),
        !text::is_space(c) && (!text::is_word(c) || normalize::spaced_text(s).len() == 0
            || !text::is_word(normalize::spaced_text(s).last())) ==> normalize::spaced_text(
            s.push(c),
        ) == normalize::spaced_text(s).push(c),
        normalize::spaced_text(Seq::empty()) == Seq::<char>::empty(),
{
    assert(s.push(c).drop_last() =~= s);
    if s.len() > 0 {
        let before = normalize::spacing_state(s.drop_last());
        assert(normalize::spacing_state(s) == normalize::spacing_step(before, s.last()));
    }
}

/// Separators behind a name are taken off, all of them.
pub proof fn law_separators_behind_are_taken_off(s: Seq<char>)
    ensures
        naming::without_colons(s + "::"@) == naming::without_colons(s),
        !text::ends_with(s, "::"@) ==> naming::without_colons(s) == s,
{
    reveal_strlit("::");
    let all = s + "::"@;
    assert(all.subrange(all.len() - 2, all.len() as int) =~= "::"@);
    assert(text::ends_with(all, "::"@));
    assert(all.take(all.len() - 2) =~= s);
}

proof fn lemma_levels(segs: Seq<Seq<char>>, i: int)
    requires
        0 <= i < segs.len(),
        scope::namespace_segment(segs[i]).len() > 0,
    ensures
        scope::segment_levels(segs).contains(Some(scope::namespace_segment(segs[i]))),
    decreases segs.len(),
{
    let before = scope::segment_levels(segs.drop_last());
    let all = scope::segment_levels(segs);
    let own = Some(scope::namespace_segment(segs[i]));
    if i < segs.len() - 1 {
        lemma_levels(segs.drop_last(), i);
        let j = choose|j: int| 0 <= j < before.len() && before[j] == own;
        assert(all[j] == own);
    } else {
        assert(all[before.len() as int] == own);
    }
}

/// Every named part of a namespace's name opens a level.
pub proof fn law_parts_of_a_namespace_open_levels(segs: Seq<Seq<char>>, i: int)
    requires
        0 <= i < segs.len(),
        scope::namespace_segment(segs[i]).len() > 0,
    ensures
        scope::segment_levels(segs).contains(Some(scope::namespace_segment(segs[i]))),
{
    lemma_levels(segs, i);
}

/// Names come in the order of the characters at the first place where they differ; a name
/// comes before its continuations, and not before itself.
pub proof fn law_names_are_ordered_by_their_characters(
    common: Seq<char>,
    a: Seq<char>,
    b: Seq<char>,
)
    ensures
        a.len() > 0 && b.len() > 0 && a[0] != b[0] ==> externs::comes_before(
            common + a,
            common + b,
        ) == (a[0] < b[0]),
        b.len() > 0 ==> externs::comes_before(common, common + b),
        !externs::comes_before(common + a, common),
    decreases common.len(),
{
    if common.len() > 0 {
        let rest = common.skip(1);
        law_names_are_ordered_by_their_characters(rest, a, b);
        assert((common + a).skip(1) =~= rest + a);
        assert((common + b).skip(1) =~= rest + b);
    } else {
        assert(common + a =~= a);
        assert(common + b =~= b);
    }
}

proof fn lemma_first_tag(x: ClassIndex, all: Seq<(Seq<char>, bool)>, k: int, i: int)
    requires
        0 <= k <= i < all.len(),
        x.spec_declared(all[i].0),
        forall|j: int| k <= j < i ==> !x.spec_declared((#[trigger] all[j]).0),
    ensures
        lookup::first_tag(x, all, k) == Some(all[i].0),
    decreases i - k,
{
    if k < i {
        assert(!x.spec_declared(all[k].0));
        lemma_first_tag(x, all, k + 1, i);
    }
}

/// A tag means the nearest declared class of its name.
pub proof fn law_tags_mean_the_nearest_class(s: NameScope, x: ClassIndex, name: Seq<char>, i: int)
    requires
        0 <= i < s.spec_candidates(x, name).len(),
        x.spec_declared(s.spec_candidates(x, name)[i].0),
        forall|j: int|
            0 <= j < i ==> !x.spec_declared((#[trigger] s.spec_candidates(x, name)[j]).0),
    ensures
        s.spec_tag(x, name) == Some(s.spec_candidates(x, name)[i].0),
{
    lemma_first_tag(x, s.spec_candidates(x, name), 0, i);
}

/// A local alias of a class means that class where it is declared, and none else, whatever
/// else has the name.
pub proof fn law_local_aliases_hide_other_classes(
    s: NameScope,
    x: ClassIndex,
    name: Seq<char>,
    tag: Seq<char>,
    fields: Seq<(Seq<char>, DescView)>,
)
    requires
        s.spec_local_alias(name) == Some(DescView::Struct { name: tag, fields }),
    ensures
        x.spec_declared(tag) ==> s.spec_class(x, name) == Some(tag) && s.spec_constructed(x, name)
            == Some(tag),
        !x.spec_declared(tag) ==> s.spec_class(x, name) is None && s.spec_constructed(
            x,
            name,
        ) is None,
{
}

/// A name qualified outside of a class stays as it is where its first part is an open
/// namespace, or in C; else it lies in the open namespaces.
pub proof fn law_qualified_declarations_lie_in_open_namespaces(
    levels: Seq<Seq<char>>,
    is_cpp: bool,
    raw: Seq<char>,
)
    requires
        naming::declared_text(raw) == raw,
        !text::starts_with(raw, "::"@),
        text::contains(naming::scope_of(raw), "::"@),
    ensures
        !is_cpp ==> scope::qualified_decl(levels, None, is_cpp, raw) == raw,
        levels.contains(naming::segments(raw)[0]) ==> scope::qualified_decl(
            levels,
            None,
            is_cpp,
            raw,
        ) == raw,
        is_cpp && !levels.contains(naming::segments(raw)[0]) ==> scope::qualified_decl(
            levels,
            None,
            is_cpp,
            raw,
        ) == scope::joined(levels.push(raw)),
        scope::qualified_decl(levels, Some(raw), is_cpp, raw) == raw,
{
}

/// What a scope adds to the open ones: all its parts where none is open, those behind the
/// open ones where it begins with them, and nothing else.
pub proof fn law_scopes_add_what_is_not_open(s: NameScope, rest: Seq<char>, other: Seq<char>)
    ensures
        ({
            let open = scope::scope_text(s.spec_levels());
            &&& open.len() == 0 ==> signature::unopened(s, rest) == naming::segments(rest)
            &&& open.len() > 0 ==> signature::unopened(s, open + "::"@ + rest)
                == naming::segments(rest)
            &&& open.len() > 0 && !text::starts_with(other, open + "::"@) ==> signature::unopened(
                s,
                other,
            ).len() == 0
        }),
{
    let open = scope::scope_text(s.spec_levels());
    let head = open + "::"@;
    let all = open + "::"@ + rest;
    assert(all.subrange(0, head.len() as int) =~= head);
    assert(all.skip(head.len() as int) =~= rest);
}

/// The owner of a qualified name is what stands before its last separator.
pub proof fn law_owners_stand_before_the_last_separator(name: Seq<char>)
    requires
        naming::scope_of(name) == name,
    ensures
        ({
            let at = text::find_last(name, "::"@, name.len() as int);
            &&& at >= 0 ==> finalize::owner_of(name) == Some(name.take(at))
            &&& at < 0 ==> finalize::owner_of(name) is None
        }),
{
}

/// The type that an alias stands over: a union or a struct by its tag, none where it has
/// none; any other type as it is spelled.
pub proof fn law_aliases_stand_over_their_type(
    s: NameScope,
    x: ClassIndex,
    t: SyntaxTree,
    source: Seq<char>,
    n: int,
    tag: Seq<char>,
)
    ensures
        t.rows@[n].kind@ == "union_specifier"@ && tag.len() > 0 ==> aliases::typedef_base(
            s,
            x,
            t,
            source,
            n,
            tag,
        ) == Some(DescView::Union { name: tag, fields: Seq::empty() }),
        t.rows@[n].kind@ == "struct_specifier"@ && tag.len() > 0 ==> aliases::typedef_base(
            s,
            x,
            t,
            source,
            n,
            tag,
        ) == Some(DescView::Struct { name: tag, fields: Seq::empty() }),
        (t.rows@[n].kind@ == "union_specifier"@ || t.rows@[n].kind@ == "struct_specifier"@)
            && tag.len() == 0 ==> aliases::typedef_base(s, x, t, source, n, tag) is None,
        t.rows@[n].kind@ != "union_specifier"@ && t.rows@[n].kind@ != "struct_specifier"@
            ==> aliases::typedef_base(s, x, t, source, n, tag) == Some(
            types::type_of(s, x, t, source, n, tag),
        ),
{
    reveal_strlit("union_specifier");
    reveal_strlit("struct_specifier");
    assert("union_specifier"@.len() != "struct_specifier"@.len());
}

proof fn lemma_tag_from(tags: Seq<(usize, String)>, k: int, i: int)
    requires
        0 <= k <= i < tags.len(),
        forall|j: int| k <= j < i ==> (#[trigger] tags[j]).0 != tags[i].0,
    ensures
        functions::tag_from(tags, tags[i].0, k) == tags[i].1@,
    decreases i - k,
{
    if k < i {
        assert(tags[k].0 != tags[i].0);
        lemma_tag_from(tags, k + 1, i);
    }
}

/// The tag noted for a node is found again.
pub proof fn law_noted_tags_are_found(tags: Seq<(usize, String)>, i: int)
    requires
        0 <= i < tags.len(),
        forall|j: int| 0 <= j < i ==> (#[trigger] tags[j]).0 != tags[i].0,
    ensures
        functions::tag_from(tags, tags[i].0, 0) == tags[i].1@,
{
    lemma_tag_from(tags, 0, i);
}

proof fn lemma_text_at(defs: Seq<Definition>, k: int, i: int)
    requires
        0 <= k <= i < defs.len(),
        forall|j: int| k <= j < i ==> (#[trigger] defs[j]).id != defs[i].id,
    ensures
        program::text_at(defs, defs[i].id, k) == Some(defs[i].text@),
    decreases i - k,
{
    if k < i {
        assert(defs[k].id != defs[i].id);
        lemma_text_at(defs, k + 1, i);
    }
}

/// The text of a definition is found by its function.
pub proof fn law_texts_of_definitions_are_found(defs: Seq<Definition>, i: int)
    requires
        0 <= i < defs.len(),
        forall|j: int| 0 <= j < i ==> (#[trigger] defs[j]).id != defs[i].id,
    ensures
        program::text_at(defs, defs[i].id, 0) == Some(defs[i].text@),
{
    lemma_text_at(defs, 0, i);
}

proof fn lemma_declarator_after(t: SyntaxTree, n: int, at: int, k: int, i: int)
    requires
        0 <= k <= i < t.children(n).len(),
        t.rows@[t.children(n)[i] as int].start >= at,
        t.kind_ends(t.children(n)[i] as int, "_declarator"@),
        forall|j: int|
            k <= j < i ==> !(t.rows@[(#[trigger] t.children(n)[j]) as int].start >= at
                && t.kind_ends(t.children(n)[j] as int, "_declarator"@)),
    ensures
        members::declarator_after(t, n, at, k) == Some(t.children(n)[i]),
    decreases i - k,
{
    if k < i {
        let c = t.children(n)[k] as int;
        assert(!(t.rows@[c].start >= at && t.kind_ends(c, "_declarator"@)));
        lemma_declarator_after(t, n, at, k + 1, i);
    }
}

/// The first declarator behind a place is found.
pub proof fn law_declarators_behind_a_place_are_found(t: SyntaxTree, n: int, at: int, i: int)
    requires
        0 <= i < t.children(n).len(),
        t.rows@[t.children(n)[i] as int].start >= at,
        t.kind_ends(t.children(n)[i] as int, "_declarator"@),
        forall|j: int|
            0 <= j < i ==> !(t.rows@[(#[trigger] t.children(n)[j]) as int].start >= at
                && t.kind_ends(t.children(n)[j] as int, "_declarator"@)),
    ensures
        members::declarator_after(t, n, at, 0) == Some(t.children(n)[i]),
{
    lemma_declarator_after(t, n, at, 0, i);
}

proof fn lemma_first_through(
    x: ClassIndex,
    directives: Seq<Seq<char>>,
    name: Seq<char>,
    k: int,
    i: int,
)
    requires
        0 <= k <= i < directives.len(),
        lookup::class_named(x, directives[i] + "::"@ + name) is Some,
        forall|j: int|
            k <= j < i ==> lookup::class_named(x, (#[trigger] directives[j]) + "::"@ + name) is None,
    ensures
        lookup::first_through(x, directives, name, k) == lookup::class_named(
            x,
            directives[i] + "::"@ + name,
        ),
    decreases i - k,
{
    if k < i {
        assert(lookup::class_named(x, directives[k] + "::"@ + name) is None);
        lemma_first_through(x, directives, name, k + 1, i);
    }
}

/// A class that no scope shows is seen through the first directive whose namespace has it.
pub proof fn law_directives_show_classes(s: NameScope, x: ClassIndex, name: Seq<char>, i: int)
    requires
        s.spec_class(x, name) is None,
        s.spec_levels().len() == 0,
        0 <= i < s.using_nss@.len(),
        lookup::class_named(x, s.using_nss@[i]@ + "::"@ + name) is Some,
        forall|j: int|
            0 <= j < i ==> lookup::class_named(
                x,
                (#[trigger] s.using_nss@[j])@ + "::"@ + name,
            ) is None,
    ensures
        s.spec_class_seen(x, name) == lookup::class_named(x, s.using_nss@[i]@ + "::"@ + name),
{
    let all = spelling::views(s.using_nss@);
    assert(all[i] == s.using_nss@[i]@);
    assert forall|j: int| 0 <= j < i implies lookup::class_named(
        x,
        (#[trigger] all[j]) + "::"@ + name,
    ) is None by {
        assert(all[j] == s.using_nss@[j]@);
    }
    lemma_first_through(x, all, name, 0, i);
}

/// The open namespaces before a name are taken off it, from the outermost.
pub proof fn law_open_namespaces_are_taken_off(
    levels: Seq<Seq<char>>,
    rest: Seq<char>,
    other: Seq<char>,
    k: int,
)
    requires
        0 <= k < levels.len(),
    ensures
        lookup::unprefixed(levels[k] + "::"@ + rest, levels, k) == lookup::unprefixed(
            rest,
            levels,
            k + 1,
        ),
        !text::starts_with(other, levels[k] + "::"@) ==> lookup::unprefixed(other, levels, k)
            == other,
        lookup::unprefixed(other, levels, levels.len() as int) == other,
{
    let head = levels[k] + "::"@;
    let all = levels[k] + "::"@ + rest;
    assert(all.subrange(0, head.len() as int) =~= head);
    assert(all.skip(head.len() as int) =~= rest);
}

/// A namespace is inline or not, and has its name either way.
pub proof fn law_inline_namespaces_have_their_name(rest: Seq<char>)
    requires
        rest.len() > 0,
        text::is_space(rest[0]),
        text::trim("inline"@ + rest) == "inline"@ + rest,
    ensures
        scope::namespace_segment("inline"@ + rest) == text::trim_start(rest),
{
    let all = "inline"@ + rest;
    assert(all.subrange(0, "inline"@.len() as int) =~= "inline"@);
    assert(all.skip("inline"@.len() as int) =~= rest);
}

/// The names that an alias is known by: its own; in a namespace also with the namespaces
/// before it; in the body of a class only with the class before it.
pub proof fn law_aliases_are_known_in_their_scope(
    levels: Seq<Seq<char>>,
    classes: Seq<Seq<char>>,
    is_cpp: bool,
    alias: Seq<char>,
)
    ensures
        classes.len() > 0 ==> scope::alias_names_of(levels, classes, true, true, alias) == seq![
            classes.last() + "::"@ + alias,
        ],
        classes.len() == 0 ==> scope::alias_names_of(levels, classes, true, true, alias).len()
            == 0,
        levels.len() > 0 ==> scope::alias_names_of(levels, classes, true, false, alias) == seq![
            scope::joined(levels.push(alias)),
            alias,
        ],
        levels.len() == 0 ==> scope::alias_names_of(levels, classes, is_cpp, false, alias)
            == seq![alias],
        scope::alias_names_of(levels, classes, false, true, alias) == seq![alias],
{
}

/// A comma inside of brackets or parentheses parts no arguments; one outside does.
pub proof fn law_commas_part_arguments_outside_of_brackets(
    s: Seq<char>,
    from: int,
    i: int,
    paren: nat,
    depth: nat,
    first: bool,
)
    requires
        0 <= from <= i < s.len(),
        s[i] == ',',
    ensures
        paren > 0 || depth > 0 ==> spelling::arguments_from(s, from, i, paren, depth, first)
            == spelling::arguments_from(s, from, i + 1, paren, depth, first),
        paren == 0 && depth == 0 ==> spelling::arguments_from(s, from, i, paren, depth, first)
            == seq![text::trim(s.subrange(from, i))] + spelling::arguments_from(
            s,
            i + 1,
            i + 1,
            0,
            0,
            false,
        ),
{
}

/// A prefix is taken off where it stands, and only there.
pub proof fn law_prefixes_are_taken_off(p: Seq<char>, s: Seq<char>, other: Seq<char>)
    ensures
        normalize::after_prefix(p + s, p) == s,
        !text::starts_with(other, p) ==> normalize::after_prefix(other, p) == other,
{
    let all = p + s;
    assert(all.subrange(0, p.len() as int) =~= p);
    assert(all.skip(p.len() as int) =~= s);
}

proof fn lemma_opening(s: Seq<char>, i: int, depth: nat, at: int)
    requires
        0 <= at <= i < s.len(),
        s[at] == '<',
        depth <= 1,
        forall|j: int| at < j <= i ==> s[j] != '<' && s[j] != '>',
    ensures
        normalize::opening_of(s, i, depth) == at,
    decreases i - at,
{
    if at < i {
        lemma_opening(s, i - 1, depth, at);
    }
}

/// The bracket that the last one closes is the nearest before it that nothing else closes.
pub proof fn law_brackets_close_the_nearest(a: Seq<char>, b: Seq<char>)
    requires
        forall|j: int| 0 <= j < b.len() ==> b[j] != '<' && b[j] != '>',
    ensures
        ({
            let s = a + seq!['<'] + b + seq!['>'];
            normalize::opening_of(s, s.len() - 1, 0) == a.len()
        }),
{
    let s = a + seq!['<'] + b + seq!['>'];
    let at = a.len() as int;
    assert(s[at] == '<');
    assert forall|j: int| at < j <= s.len() - 2 implies s[j] != '<' && s[j] != '>' by {
        assert(s[j] == b[j - at - 1]);
    }
    lemma_opening(s, s.len() - 2, 1, at);
}

/// In a qualified name, what stands in brackets is left out, to any depth.
pub proof fn law_arguments_are_left_out_of_names(s: Seq<char>, c: char)
    requires
        normalize::qualified_state(s).2 > 0,
    ensures
        normalize::qualified_text(s.push(c)) == normalize::qualified_text(s),
        c == '<' ==> normalize::qualified_state(s.push(c)).2 == normalize::qualified_state(s).2
            + 1,
        c == '>' ==> normalize::qualified_state(s.push(c)).2 == normalize::qualified_state(s).2
            - 1,
        c != '<' && c != '>' ==> normalize::qualified_state(s.push(c)).2
            == normalize::qualified_state(s).2,
{
    assert(s.push(c).drop_last() =~= s);
}

/// Outside of brackets a qualified name keeps every character but space.
pub proof fn law_names_keep_their_characters(s: Seq<char>, c: char)
    requires
        normalize::qualified_state(s).2 == 0,
    ensures
        text::is_space(c) ==> normalize::qualified_text(s.push(c)) == normalize::qualified_text(s),
        !text::is_space(c) && c != '<' ==> normalize::qualified_text(s.push(c)).len() > 0
            && normalize::qualified_text(s.push(c)).last() == c,
        !text::is_space(c) && c != '<' && !text::is_word(c) ==> normalize::qualified_text(
            s.push(c),
        ) == normalize::qualified_text(s).push(c),
{
    assert(s.push(c).drop_last() =~= s);
}

} // verus!
