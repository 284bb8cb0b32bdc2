//! What a declaration declares: the steps its declarators ask for, the facts
//! recorded for each variable, and what its initializer does.

use vstd::prelude::*;

use crate::arguments;
use crate::arguments::{assemble, listed, ArgValue};
use crate::calls::CallArgs;
use crate::declarator;
use crate::declarator::fn_decl_under_pointer;
use crate::expr::{FnNames, VarNames};
use crate::hierarchy;
use crate::locals;
use crate::lookup;
use crate::lookup::ClassIndex;
use crate::normalize;
use crate::normalize::normalize_qualified;
use crate::scope::NameScope;
use crate::parse::node_text;
use crate::syntax::SyntaxTree;
use crate::text::chars_of;

verus! {

/// One thing that a declaration asks for.
#[derive(Debug, Clone, Copy, PartialEq, Eq, Structural)]
pub enum DeclStep {
    /// A variable that `owner` introduces, with its initializer.
    Initialized { owner: usize, decl: usize, value: Option<usize> },
    /// A variable whose type its declarator shapes.
    Shaped { decl: usize },
    /// A function declarator under `depth` pointer layers: a prototype, or an
    /// object that parenthesized values initialize.
    FnLike { decl: usize, depth: usize, binds_reference: bool },
    /// A variable that a bare name declares.
    Plain { name: usize },
}

/// Nodes that declare a variable or a function without an initializer.
pub open spec fn declares_unset(t: SyntaxTree, c: int) -> bool {
    ||| t.spec_kind(c) == "declarator"@
    ||| t.spec_kind(c) == "pointer_declarator"@
    ||| t.spec_kind(c) == "reference_declarator"@
    ||| t.spec_kind(c) == "function_declarator"@
    ||| t.spec_kind(c) == "array_declarator"@
}

/// What the child `c` of a declaration asks for. Inside a body `cb && cb();`
/// reads as a prototype that returns a reference; it declares nothing.
pub open spec fn step_of(t: SyntaxTree, c: usize, in_function: bool) -> Option<DeclStep> {
    let kind = t.spec_kind(c as int);
    if kind == "init_declarator"@ {
        Some(
            DeclStep::Initialized {
                owner: c,
                decl: match t.fielded(c as int, "declarator"@) {
                    Some(d) => d,
                    None => c,
                },
                value: t.fielded(c as int, "value"@),
            },
        )
    } else if declares_unset(t, c as int) && !(kind == "reference_declarator"@ && in_function) {
        match declarator::declared_function(t, c as int, 0, false) {
            Some((decl, depth, binds_reference)) => Some(
                DeclStep::FnLike { decl, depth: depth as usize, binds_reference },
            ),
            None => Some(DeclStep::Shaped { decl: c }),
        }
    } else if kind == "identifier"@ {
        Some(DeclStep::Plain { name: c })
    } else {
        None
    }
}

/// What the first `k` children of a declaration ask for.
pub open spec fn steps_upto(t: SyntaxTree, n: int, in_function: bool, k: int) -> Seq<DeclStep>
    decreases k,
{
    if k <= 0 {
        Seq::empty()
    } else {
        let before = steps_upto(t, n, in_function, k - 1);
        match step_of(t, t.children(n)[k - 1], in_function) {
            Some(s) => before.push(s),
            None => before,
        }
    }
}

/// What a declaration asks for. A condition declaration (`if (auto p = f())`)
/// holds its initializer itself; without a type there is no declaration.
pub open spec fn steps_of(t: SyntaxTree, n: int, in_function: bool) -> Seq<DeclStep> {
    if t.fielded(n, "type"@) is None {
        Seq::empty()
    } else {
        match (t.fielded(n, "declarator"@), t.fielded(n, "value"@)) {
            (Some(decl), Some(value)) => seq![
                DeclStep::Initialized { owner: decl, decl, value: Some(value) },
            ],
            _ => steps_upto(t, n, in_function, t.children(n).len() as int),
        }
    }
}

fn is_unset_declarator(tree: &SyntaxTree, c: usize) -> (r: bool)
    requires
        tree.wf(),
        c < tree.len(),
    ensures
        r == declares_unset(*tree, c as int),
{
    tree.kind_is(c, "declarator") || tree.kind_is(c, "pointer_declarator") || tree.kind_is(
        c,
        "reference_declarator",
    ) || tree.kind_is(c, "function_declarator") || tree.kind_is(c, "array_declarator")
}

/// What one child of a declaration asks for.
pub fn declaration_step(tree: &SyntaxTree, c: usize, in_function: bool) -> (r: Option<DeclStep>)
    requires
        tree.wf(),
        c < tree.len(),
    ensures
        r == step_of(*tree, c, in_function),
{
    if tree.kind_is(c, "init_declarator") {
        let decl: usize = match tree.child_by_field_name(c, "declarator") {
            Some(d) => d,
            None => c,
        };
        return Some(
            DeclStep::Initialized { owner: c, decl, value: tree.child_by_field_name(c, "value") },
        );
    }
    if is_unset_declarator(tree, c) && !(tree.kind_is(c, "reference_declarator") && in_function) {
        return match fn_decl_under_pointer(tree, c) {
            Some((decl, depth, binds_reference)) => Some(
                DeclStep::FnLike { decl, depth, binds_reference },
            ),
            None => Some(DeclStep::Shaped { decl: c }),
        };
    }
    if tree.kind_is(c, "identifier") {
        Some(DeclStep::Plain { name: c })
    } else {
        None
    }
}

/// The steps that a declaration asks for, in source order.
pub fn declaration_steps(tree: &SyntaxTree, node: usize, in_function: bool) -> (r: Vec<DeclStep>)
    requires
        tree.wf(),
        node < tree.len(),
    ensures
        r@ == steps_of(*tree, node as int, in_function),
{
    let mut steps: Vec<DeclStep> = Vec::new();
    if tree.child_by_field_name(node, "type").is_none() {
        return steps;
    }
    match (tree.child_by_field_name(node, "declarator"), tree.child_by_field_name(node, "value")) {
        (Some(decl), Some(value)) => {
            steps.push(DeclStep::Initialized { owner: decl, decl, value: Some(value) });
            assert(steps@ =~= steps_of(*tree, node as int, in_function));
            return steps;
        },
        _ => {},
    }
    let mut k: usize = 0;
    while k < tree.kids[node].len()
        invariant
            tree.wf(),
            node < tree.len(),
            k <= tree.children(node as int).len(),
            steps@ == steps_upto(*tree, node as int, in_function, k as int),
        decreases tree.children(node as int).len() - k,
    {
        let c = tree.kids[node][k];
        assert(c == tree.children(node as int)[k as int]);
        match declaration_step(tree, c, in_function) {
            Some(s) => {
                steps.push(s);
            },
            None => {},
        }
        k += 1;
    }
    steps
}

/// Some candidate from the first `k` on denotes a type. At the global scope
/// only an alias counts: a variable or function hides a class there.
pub open spec fn type_among(x: ClassIndex, all: Seq<(Seq<char>, bool)>, k: int) -> bool
    decreases all.len() - k,
{
    if k < 0 || k >= all.len() {
        false
    } else {
        let (name, global) = all[k];
        ||| !global && (x.spec_declared(name) || x.spec_typed(name) is Some)
        ||| x.spec_alias(name) is Some
        ||| type_among(x, all, k + 1)
    }
}

impl NameScope {
    pub open spec fn spec_names_type(&self, x: ClassIndex, name: Seq<char>) -> bool {
        self.spec_local_alias(name) is Some || type_among(x, self.spec_candidates(x, name), 0)
    }

    /// Whether a name spelled here denotes a type: an alias of the function,
    /// or a class or alias declared in an enclosing class or namespace.
    pub fn names_type_in_scope(&self, index: &ClassIndex, name: &str) -> (r: bool)
        ensures
            r == self.spec_names_type(*index, name@),
    {
        let spelled = chars_of(name);
        if self.local_alias(&spelled).is_some() {
            return true;
        }
        let all = self.scope_candidates(index, &spelled);
        let ghost views = lookup::candidate_views(all@);
        let mut k: usize = 0;
        while k < all.len()
            invariant
                k <= all@.len(),
                views == lookup::candidate_views(all@),
                views == self.spec_candidates(*index, name@),
                self.spec_local_alias(name@) is None,
                type_among(*index, views, 0) == type_among(*index, views, k as int),
            decreases all@.len() - k,
        {
            assert(views[k as int] == (all@[k as int].0@, all@[k as int].1));
            let global: bool = all[k].1;
            if !global && (index.is_declared(&all[k].0) || index.type_by_tag(&all[k].0).is_some()) {
                return true;
            }
            if index.resolve_alias(&all[k].0).is_some() {
                return true;
            }
            k += 1;
        }
        false
    }
}

/// The names that a declaration can see.
pub struct Visible<'a> {
    pub scope: &'a NameScope,
    pub index: &'a ClassIndex,
    pub vars: &'a VarNames,
    pub fns: &'a FnNames,
}

impl<'a> Visible<'a> {
    /// The class being lowered has a data member of that name.
    pub open spec fn names_field(&self, name: Seq<char>) -> bool {
        match self.scope.class_ctx {
            Some(cls) => hierarchy::first_field(
                *self.index,
                hierarchy::ancestry(*self.index, cls@),
                name,
                0,
            ) is Some,
            None => false,
        }
    }

    pub open spec fn spec_argument(&self, name: Seq<char>) -> Option<ArgValue> {
        if locals::bound(self.vars.locals@, name) is Some {
            Some(ArgValue::Var(locals::bound(self.vars.locals@, name)->0))
        } else if self.scope.spec_names_type(*self.index, name) {
            None
        } else if self.names_field(name) {
            Some(ArgValue::Value)
        } else {
            match self.vars.spec_var(name) {
                Some(v) => Some(ArgValue::Var(v)),
                None => match self.fns.spec_named(name) {
                    Some(f) => Some(ArgValue::Fn(f)),
                    None => None,
                },
            }
        }
    }

    /// The value a bare name stands for, if it stands for one: a local, a data
    /// member, a variable or a function. A type declared nearer than any
    /// global of that name hides it, and a member hides a variable outside of
    /// its class.
    pub fn init_argument(&self, name: &str) -> (r: Option<ArgValue>)
        requires
            self.vars.wf(),
        ensures
            r == self.spec_argument(name@),
    {
        match self.vars.locals.get(name) {
            Some(v) => {
                return Some(ArgValue::Var(v));
            },
            None => {},
        }
        if self.scope.names_type_in_scope(self.index, name) {
            return None;
        }
        let field: bool = match &self.scope.class_ctx {
            Some(cls) => self.index.class_field_desc(cls.as_str(), name).is_some(),
            None => false,
        };
        if field {
            return Some(ArgValue::Value);
        }
        match self.vars.lookup_var(name) {
            Some(v) => Some(ArgValue::Var(v)),
            None => match self.fns.resolve_function_named(name) {
                Some(f) => Some(ArgValue::Fn(f)),
                None => None,
            },
        }
    }
}

/// The name node of a parameter that is a bare name.
pub open spec fn bare_parameter(t: SyntaxTree, p: int) -> Option<usize> {
    if t.spec_kind(p) != "parameter_declaration"@ || t.fielded(p, "declarator"@) is Some {
        None
    } else {
        match t.fielded(p, "type"@) {
            Some(c) if t.spec_kind(c as int) == "type_identifier"@ || t.spec_kind(c as int)
                == "qualified_identifier"@ => Some(c),
            _ => None,
        }
    }
}

/// What a listed parameter stands for as a value.
pub open spec fn value_of(v: Visible, t: SyntaxTree, source: Seq<char>, p: int) -> Option<
    ArgValue,
> {
    match bare_parameter(t, p) {
        Some(c) => v.spec_argument(normalize::qualified_text(t.text(source, c as int))),
        None => None,
    }
}

/// What the first `k` parameters stand for, if each is a value.
pub open spec fn values_upto(
    v: Visible,
    t: SyntaxTree,
    source: Seq<char>,
    params: Seq<usize>,
    k: int,
) -> Option<Seq<ArgValue>>
    decreases k,
{
    if k <= 0 {
        Some(Seq::empty())
    } else {
        match (
            values_upto(v, t, source, params, k - 1),
            value_of(v, t, source, params[k - 1] as int),
        ) {
            (Some(before), Some(a)) => Some(before.push(a)),
            _ => None,
        }
    }
}

/// The values that a function declarator lists, when it defines an object.
pub open spec fn direct_values(
    v: Visible,
    t: SyntaxTree,
    source: Seq<char>,
    decl: int,
) -> Option<Seq<ArgValue>> {
    if !v.scope.is_cpp || t.spec_kind(decl) != "function_declarator"@ {
        None
    } else {
        match (t.fielded(decl, "declarator"@), t.fielded(decl, "parameters"@)) {
            (Some(name), Some(params)) if t.spec_kind(name as int) == "identifier"@ => {
                let listed = arguments::counted(t, t.named(params as int));
                if listed.len() == 0 {
                    None
                } else {
                    values_upto(v, t, source, listed, listed.len() as int)
                }
            },
            _ => None,
        }
    }
}

impl<'a> Visible<'a> {
    fn parameter_value(&self, source: &str, tree: &SyntaxTree, p: usize) -> (r: Option<
        ArgValue,
    >)
        requires
            self.vars.wf(),
            tree.fits(source@),
            p < tree.len(),
        ensures
            r == value_of(*self, *tree, source@, p as int),
    {
        if !tree.kind_is(p, "parameter_declaration") || tree.child_by_field_name(
            p,
            "declarator",
        ).is_some() {
            return None;
        }
        match tree.child_by_field_name(p, "type") {
            Some(c) => if tree.kind_is(c, "type_identifier") || tree.kind_is(
                c,
                "qualified_identifier",
            ) {
                let name = normalize_qualified(node_text(source, tree, c));
                self.init_argument(name.as_str())
            } else {
                None
            },
            None => None,
        }
    }

    /// The explicit arguments of `T w(a, b);` when it defines an object rather
    /// than declaring a function: each parenthesized name stands for a value.
    /// `T w();` stays a declaration.
    pub fn direct_init_arguments(&self, source: &str, tree: &SyntaxTree, decl: usize) -> (r: Option<
        CallArgs,
    >)
        requires
            self.vars.wf(),
            tree.fits(source@),
            decl < tree.len(),
            tree.len() <= u32::MAX,
        ensures
            match r {
                Some(args) => direct_values(*self, *tree, source@, decl as int) matches Some(v)
                    && arguments::is_args_of(args, v),
                None => direct_values(*self, *tree, source@, decl as int) is None,
            },
    {
        if !self.scope.is_cpp || !tree.kind_is(decl, "function_declarator") {
            return None;
        }
        let name = match tree.child_by_field_name(decl, "declarator") {
            Some(c) => c,
            None => {
                return None;
            },
        };
        let params = match tree.child_by_field_name(decl, "parameters") {
            Some(c) => c,
            None => {
                return None;
            },
        };
        if !tree.kind_is(name, "identifier") {
            return None;
        }
        let params = listed(tree, params);
        if params.len() == 0 {
            return None;
        }
        let mut values: Vec<ArgValue> = Vec::new();
        let mut k: usize = 0;
        while k < params.len()
            invariant
                self.vars.wf(),
                tree.fits(source@),
                k <= params@.len(),
                params@.len() <= u32::MAX,
                forall|j: int| 0 <= j < params@.len() ==> (#[trigger] params@[j]) < tree.len(),
                values_upto(*self, *tree, source@, params@, k as int) == Some(values@),
                values@.len() == k,
                direct_values(*self, *tree, source@, decl as int) == values_upto(
                    *self,
                    *tree,
                    source@,
                    params@,
                    params@.len() as int,
                ),
            decreases params@.len() - k,
        {
            match self.parameter_value(source, tree, params[k]) {
                Some(a) => {
                    values.push(a);
                },
                None => {
                    proof {
                        lemma_values_stop(*self, *tree, source@, params@, k as int + 1);
                    }
                    return None;
                },
            }
            k += 1;
        }
        Some(assemble(&values))
    }
}

/// Once a parameter is no value, the list is none.
proof fn lemma_values_stop(
    v: Visible,
    t: SyntaxTree,
    source: Seq<char>,
    params: Seq<usize>,
    k: int,
)
    requires
        0 <= k <= params.len(),
        values_upto(v, t, source, params, k) is None,
    ensures
        values_upto(v, t, source, params, params.len() as int) is None,
    decreases params.len() - k,
{
    if k < params.len() {
        lemma_values_stop(v, t, source, params, k + 1);
    }
}

} // verus!
