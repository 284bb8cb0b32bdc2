//! Type aliases and the fields of aggregates, as their declarations spell them.

use vstd::prelude::*;

use crate::declarator;
use crate::declarator::{
    abstract_declarator_shape, field_type, parse_declarator_name, walk_declarator_shape,
};
use crate::ir::{struct_named, union_named, DescView, TypeDesc};
use crate::lookup::ClassIndex;
use crate::normalize;
use crate::normalize::normalize_qualified;
use crate::parse::node_text;
use crate::scope::NameScope;
use crate::syntax::SyntaxTree;
use crate::text::{chars_of, string_of};
use crate::types;

verus! {

/// The type that a typedef's type node stands for. `lowered` is the tag that
/// lowering a class specifier there gave; one without a tag names nothing.
pub open spec fn typedef_base(
    s: NameScope,
    x: ClassIndex,
    t: SyntaxTree,
    source: Seq<char>,
    n: int,
    lowered: Seq<char>,
) -> Option<DescView> {
    let kind = t.spec_kind(n);
    if kind == "struct_specifier"@ || kind == "union_specifier"@ {
        if lowered.len() == 0 {
            None
        } else if kind == "union_specifier"@ {
            Some(DescView::Union { name: lowered, fields: Seq::empty() })
        } else {
            Some(types::class_desc(lowered))
        }
    } else {
        Some(types::type_of(s, x, t, source, n, lowered))
    }
}

/// The alias that the declaration at `n` declares, with the type it stands
/// for. The declarator's own layers belong to the alias. An alias template is
/// none: its uses carry arguments.
pub open spec fn alias_at(
    s: NameScope,
    x: ClassIndex,
    t: SyntaxTree,
    source: Seq<char>,
    n: int,
    lowered: Seq<char>,
) -> Option<(Seq<char>, DescView)> {
    if t.spec_kind(n) == "type_definition"@ {
        match (t.fielded(n, "declarator"@), t.fielded(n, "type"@)) {
            (Some(d), Some(ty)) => {
                let name = declarator::declared_name(t, source, d as int).0;
                match typedef_base(s, x, t, source, ty as int, lowered) {
                    Some(base) if name.len() > 0 => Some(
                        (name, declarator::shaped(t, d as int, base)),
                    ),
                    _ => None,
                }
            },
            _ => None,
        }
    } else if t.spec_kind(n) == "alias_declaration"@ && !t.stands_under(
        n,
        "template_declaration"@,
    ) {
        match (t.fielded(n, "name"@), t.fielded(n, "type"@)) {
            (Some(own), Some(ty)) => {
                let name = normalize::qualified_text(t.text(source, own as int));
                let base = types::type_of(s, x, t, source, ty as int, lowered);
                if name.len() == 0 {
                    None
                } else {
                    Some(
                        (
                            name,
                            match t.fielded(ty as int, "declarator"@) {
                                Some(d) => declarator::abstract_shaped(t, base, d as int, true),
                                None => base,
                            },
                        ),
                    )
                }
            },
            _ => None,
        }
    } else {
        None
    }
}

impl NameScope {
    fn typedef_alias(
        &self,
        index: &ClassIndex,
        source: &str,
        tree: &SyntaxTree,
        node: usize,
        lowered: &str,
    ) -> (r: Option<(String, TypeDesc)>)
        requires
            tree.fits(source@),
            node < tree.len(),
            tree.spec_kind(node as int) == "type_definition"@,
        ensures
            match r {
                Some((name, d)) => alias_at(
                    *self,
                    *index,
                    *tree,
                    source@,
                    node as int,
                    lowered@,
                ) == Some((name@, d@)),
                None => alias_at(*self, *index, *tree, source@, node as int, lowered@) is None,
            },
    {
        let decl = match tree.child_by_field_name(node, "declarator") {
            Some(c) => c,
            None => {
                return None;
            },
        };
        let ty = match tree.child_by_field_name(node, "type") {
            Some(c) => c,
            None => {
                return None;
            },
        };
        let name = parse_declarator_name(source, tree, decl).0;
        if name.as_str().unicode_len() == 0 {
            return None;
        }
        let is_union = tree.kind_is(ty, "union_specifier");
        let base = if is_union || tree.kind_is(ty, "struct_specifier") {
            if lowered.unicode_len() == 0 {
                return None;
            }
            let tag = string_of(&chars_of(lowered));
            if is_union {
                union_named(tag)
            } else {
                struct_named(tag)
            }
        } else {
            self.type_desc_from_node(index, source, tree, ty, lowered)
        };
        Some((name, walk_declarator_shape(tree, decl, base)))
    }

    fn using_alias(
        &self,
        index: &ClassIndex,
        source: &str,
        tree: &SyntaxTree,
        node: usize,
        lowered: &str,
    ) -> (r: Option<(String, TypeDesc)>)
        requires
            tree.fits(source@),
            node < tree.len(),
            tree.spec_kind(node as int) == "alias_declaration"@,
            tree.spec_kind(node as int) != "type_definition"@,
        ensures
            match r {
                Some((name, d)) => alias_at(
                    *self,
                    *index,
                    *tree,
                    source@,
                    node as int,
                    lowered@,
                ) == Some((name@, d@)),
                None => alias_at(*self, *index, *tree, source@, node as int, lowered@) is None,
            },
    {
        if tree.parent_is(node, "template_declaration") {
            return None;
        }
        let own = match tree.child_by_field_name(node, "name") {
            Some(c) => c,
            None => {
                return None;
            },
        };
        let ty = match tree.child_by_field_name(node, "type") {
            Some(c) => c,
            None => {
                return None;
            },
        };
        let name = normalize_qualified(node_text(source, tree, own));
        if name.as_str().unicode_len() == 0 {
            return None;
        }
        let base = self.type_desc_from_node(index, source, tree, ty, lowered);
        let shape = tree.child_by_field_name(ty, "declarator");
        Some((name, abstract_declarator_shape(tree, base, shape, true)))
    }

    /// The name that a `typedef` or a `using Alias = T;` declares, and the
    /// type it stands for.
    pub fn declared_alias(
        &self,
        index: &ClassIndex,
        source: &str,
        tree: &SyntaxTree,
        node: usize,
        lowered: &str,
    ) -> (r: Option<(String, TypeDesc)>)
        requires
            tree.fits(source@),
            node < tree.len(),
        ensures
            match r {
                Some((name, d)) => alias_at(
                    *self,
                    *index,
                    *tree,
                    source@,
                    node as int,
                    lowered@,
                ) == Some((name@, d@)),
                None => alias_at(*self, *index, *tree, source@, node as int, lowered@) is None,
            },
    {
        if tree.kind_is(node, "type_definition") {
            self.typedef_alias(index, source, tree, node, lowered)
        } else if tree.kind_is(node, "alias_declaration") {
            self.using_alias(index, source, tree, node, lowered)
        } else {
            None
        }
    }

    /// The field that a member declaration declares, and its type: without a
    /// type node an `int`.
    pub fn type_desc_from_field_declaration(
        &self,
        index: &ClassIndex,
        source: &str,
        tree: &SyntaxTree,
        node: usize,
        lowered: &str,
    ) -> (r: Option<(String, TypeDesc)>)
        requires
            tree.fits(source@),
            node < tree.len(),
        ensures
            match r {
                Some((name, d)) => field_at(
                    *self,
                    *index,
                    *tree,
                    source@,
                    node as int,
                    lowered@,
                ) == Some((name@, d@)),
                None => field_at(*self, *index, *tree, source@, node as int, lowered@) is None,
            },
    {
        let decl = match tree.child_by_field_name(node, "declarator") {
            Some(c) => c,
            None => {
                return None;
            },
        };
        let name = parse_declarator_name(source, tree, decl).0;
        if name.as_str().unicode_len() == 0 {
            return None;
        }
        let base = match tree.child_by_field_name(node, "type") {
            Some(ty) => self.type_desc_from_node(index, source, tree, ty, lowered),
            None => TypeDesc::Int,
        };
        Some((name, field_type(tree, decl, base)))
    }
}

/// The field that the member declaration at `n` declares.
pub open spec fn field_at(
    s: NameScope,
    x: ClassIndex,
    t: SyntaxTree,
    source: Seq<char>,
    n: int,
    lowered: Seq<char>,
) -> Option<(Seq<char>, DescView)> {
    match t.fielded(n, "declarator"@) {
        Some(d) => {
            let name = declarator::declared_name(t, source, d as int).0;
            let base = match t.fielded(n, "type"@) {
                Some(ty) => types::type_of(s, x, t, source, ty as int, lowered),
                None => DescView::Int,
            };
            if name.len() == 0 {
                None
            } else {
                Some((name, declarator::field_desc(t, d as int, base)))
            }
        },
        None => None,
    }
}

} // verus!
